//! The order in which installing and removing visit categories: each target of
//! the filter in turn, a pack by announcing it and then walking each of its
//! included names as a filter of its own, until a name that no category or
//! alias has stops the walk.
use crate::config::{first_alias_match, Config};
use crate::installer::pack_depth_bound;
use crate::steps::{resolve_targets, selects_all, InstallError};
use crate::text::string_views;
use vstd::prelude::*;

verus! {

/// One visit of the walk, as it is announced.
#[derive(Debug)]
pub enum Visit {
    /// A pack, with the number of names it includes; its includes follow.
    Pack(String, usize),
    /// A category that is not a pack: it is installed or removed itself.
    Category(String),
}

/// A visit as plain values.
pub enum VisitView {
    Pack(Seq<char>, nat),
    Category(Seq<char>),
}

impl View for Visit {
    type V = VisitView;

    open spec fn view(&self) -> VisitView {
        match self {
            Visit::Pack(n, c) => VisitView::Pack(n@, *c as nat),
            Visit::Category(n) => VisitView::Category(n@),
        }
    }
}

/// The visits of a sequence, as plain values.
pub open spec fn visit_views(v: Seq<Visit>) -> Seq<VisitView> {
    v.map_values(|x: Visit| x@)
}

/// The message for a name that no category or alias has.
pub open spec fn not_found_message(q: Seq<char>) -> Seq<char> {
    "Category or alias '"@ + q + "' not found in configuration."@
}

/// The categories a filter selects, in order (see `resolve_targets`): every
/// category for no filter or `all`; else the category of that name, or the
/// first with such an alias; else the message that there is none.
pub open spec fn targets_of(config: Config, filter: Option<Seq<char>>) -> Result<Seq<Seq<char>>, Seq<char>> {
    if selects_all(filter) {
        Ok(config.categories.keys())
    } else {
        let q = filter->0;
        if config.categories.contains(q) {
            Ok(seq![q])
        } else if exists|i: int| first_alias_match(config.categories.values(), q, i) {
            Ok(seq![config.categories.keys()[choose|i: int| first_alias_match(config.categories.values(), q, i)]])
        } else {
            Err(not_found_message(q))
        }
    }
}

/// What a walk gives: its visits in order and the message of the error that
/// stopped it, if any; `None` when the fuel ran out (packs that include each
/// other in a cycle).
pub type WalkResult = Option<(Seq<VisitView>, Option<Seq<char>>)>;

/// `first`, then (unless it stopped or ran out) `rest`.
pub open spec fn then_walk(first: WalkResult, rest: WalkResult) -> WalkResult {
    match first {
        None => None,
        Some((s, Some(e))) => Some((s, Some(e))),
        Some((s, None)) => match rest {
            None => None,
            Some((s2, e2)) => Some((s + s2, e2)),
        },
    }
}

/// The walk of `filter` with at most `fuel` nested pack expansions.
pub open spec fn walk(config: Config, filter: Option<Seq<char>>, fuel: nat) -> WalkResult
    decreases fuel, 2int, 0int,
{
    match targets_of(config, filter) {
        Err(m) => Some((seq![], Some(m))),
        Ok(ts) => walk_targets(config, ts, fuel, 0),
    }
}

/// The walk of the targets `ts[i..]`.
pub open spec fn walk_targets(config: Config, ts: Seq<Seq<char>>, fuel: nat, i: int) -> WalkResult
    decreases fuel, 1int, ts.len() - i,
{
    if i < 0 || i >= ts.len() {
        Some((seq![], None))
    } else {
        let here = match config.categories.lookup(ts[i]) {
            Some(cat) => match cat.includes {
                Some(inc) => if fuel == 0 {
                    None
                } else {
                    then_walk(
                        Some((seq![VisitView::Pack(ts[i], inc@.len())], None)),
                        walk_includes(config, inc@, (fuel - 1) as nat, 0),
                    )
                },
                None => Some((seq![VisitView::Category(ts[i])], None)),
            },
            None => Some((seq![VisitView::Category(ts[i])], None)),
        };
        then_walk(here, walk_targets(config, ts, fuel, i + 1))
    }
}

/// The walk of a pack's included names `inc[j..]`, each as a filter.
pub open spec fn walk_includes(config: Config, inc: Seq<String>, fuel: nat, j: int) -> WalkResult
    decreases fuel, 3int, inc.len() - j,
{
    if j < 0 || j >= inc.len() {
        Some((seq![], None))
    } else {
        then_walk(walk(config, Some(inc[j]@), fuel), walk_includes(config, inc, fuel, j + 1))
    }
}

/// `d` before what `r` visits.
pub open spec fn prepend(d: Seq<VisitView>, r: WalkResult) -> WalkResult {
    match r {
        None => None,
        Some((s, e)) => Some((d + s, e)),
    }
}

/// How a walk ended.
pub enum WalkEnd {
    Done,
    Stopped(InstallError),
    OutOfFuel,
}

/// `r` reports the end of the walk `w` and `after` holds `before` followed by
/// its visits.
pub open spec fn reports(w: WalkResult, before: Seq<VisitView>, after: Seq<VisitView>, r: WalkEnd) -> bool {
    match w {
        None => r is OutOfFuel,
        Some((s, e)) => after == before + s && match e {
            None => r is Done,
            Some(m) => r matches WalkEnd::Stopped(err) && err matches InstallError::CategoryNotFound(mm) && mm@
                == m,
        },
    }
}

proof fn lemma_first_alias_unique(config: Config, q: Seq<char>, i: int, j: int)
    requires
        first_alias_match(config.categories.values(), q, i),
        first_alias_match(config.categories.values(), q, j),
    ensures
        i == j,
{
    let vs = config.categories.values();
    if i < j {
        assert(!vs[i].has_alias_ignoring_case(q));
    } else if j < i {
        assert(!vs[j].has_alias_ignoring_case(q));
    }
}

fn targets_exec(config: &Config, filter: Option<&str>) -> (r: Result<Vec<String>, InstallError>)
    ensures
        ({
            let f = match filter {
                Some(q) => Some(q@),
                None => None,
            };
            match targets_of(*config, f) {
                Ok(ts) => r matches Ok(v) && string_views(v@) == ts,
                Err(m) => r matches Err(e) && e matches InstallError::CategoryNotFound(mm) && mm@ == m,
            }
        }),
{
    let r = resolve_targets(filter, config);
    proof {
        let f = match filter {
            Some(q) => Some(q@),
            None => None,
        };
        if !selects_all(f) {
            let q = f->0;
            config.categories.lemma_lengths();
            if r is Ok {
                let v = r->Ok_0;
                if !config.categories.contains(q) {
                    let i = choose|i: int|
                        first_alias_match(config.categories.values(), q, i) && config.categories.keys()[i]
                            == v@[0]@;
                    let c = choose|i: int| first_alias_match(config.categories.values(), q, i);
                    lemma_first_alias_unique(*config, q, i, c);
                }
                assert(string_views(v@) =~= seq![v@[0]@]);
            } else {
                if exists|i: int| first_alias_match(config.categories.values(), q, i) {
                    let c = choose|i: int| first_alias_match(config.categories.values(), q, i);
                    assert(config.categories.values()[c].has_alias_ignoring_case(q));
                }
            }
        }
    }
    r
}

proof fn lemma_then_prepend(d: Seq<VisitView>, first: WalkResult, rest: WalkResult)
    ensures
        first matches Some((s, None)) ==> prepend(d, then_walk(first, rest)) == prepend(d + s, rest),
{
    if let Some((s, None)) = first {
        if let Some((s2, e2)) = rest {
            assert(d + (s + s2) =~= d + s + s2);
        }
    }
}

fn walk_exec(config: &Config, filter: Option<&str>, fuel: usize, out: &mut Vec<Visit>) -> (r: WalkEnd)
    ensures
        reports(
            walk(
                *config,
                match filter {
                    Some(q) => Some(q@),
                    None => None,
                },
                fuel as nat,
            ),
            visit_views(old(out)@),
            visit_views(final(out)@),
            r,
        ),
    decreases fuel, 1int,
{
    let ghost f = match filter {
        Some(q) => Some(q@),
        None => None,
    };
    let targets = match targets_exec(config, filter) {
        Ok(t) => t,
        Err(e) => {
            assert(visit_views(out@) =~= visit_views(out@) + Seq::<VisitView>::empty());
            return WalkEnd::Stopped(e);
        },
    };
    let ghost ts = string_views(targets@);
    let ghost start = visit_views(out@);
    let mut i: usize = 0;
    while i < targets.len()
        invariant
            i <= targets@.len(),
            f == match filter {
                Some(q) => Some(q@),
                None => None::<Seq<char>>,
            },
            start == visit_views(old(out)@),
            ts == string_views(targets@),
            targets_of(*config, f) == Ok::<Seq<Seq<char>>, Seq<char>>(ts),
            visit_views(out@).len() >= start.len(),
            visit_views(out@).take(start.len() as int) == start,
            walk(*config, f, fuel as nat) == prepend(
                visit_views(out@).skip(start.len() as int),
                walk_targets(*config, ts, fuel as nat, i as int),
            ),
        decreases targets.len() - i,
    {
        let ghost done = visit_views(out@).skip(start.len() as int);
        let name = &targets[i];
        assert(ts[i as int] == name@);
        let ghost here = match config.categories.lookup(ts[i as int]) {
            Some(cat) => match cat.includes {
                Some(inc) => if fuel == 0 {
                    None
                } else {
                    then_walk(
                        Some((seq![VisitView::Pack(ts[i as int], inc@.len())], None)),
                        walk_includes(*config, inc@, (fuel - 1) as nat, 0),
                    )
                },
                None => Some((seq![VisitView::Category(ts[i as int])], None)),
            },
            None => Some((seq![VisitView::Category(ts[i as int])], None)),
        };
        assert(walk_targets(*config, ts, fuel as nat, i as int) == then_walk(
            here,
            walk_targets(*config, ts, fuel as nat, i + 1),
        ));
        let ghost before = visit_views(out@);
        let is_pack = match config.categories.get(name.as_str()) {
            Some(cat) => match &cat.includes {
                Some(inc) => {
                    if fuel == 0 {
                        assert(here is None);
                        assert(walk(*config, f, fuel as nat) is None);
                        return WalkEnd::OutOfFuel;
                    }
                    let ghost wi = walk_includes(*config, inc@, (fuel - 1) as nat, 0);
                    let ghost pk = seq![VisitView::Pack(ts[i as int], inc@.len())];
                    assert(here == then_walk(Some((pk, None)), wi));
                    out.push(Visit::Pack(name.clone(), inc.len()));
                    let ghost mid = visit_views(out@);
                    assert(mid =~= before + seq![VisitView::Pack(ts[i as int], inc@.len())]);
                    let e = walk_includes_exec(config, inc, fuel - 1, out);
                    proof {
                        lemma_then_prepend(
                            done,
                            here,
                            walk_targets(*config, ts, fuel as nat, i + 1),
                        );
                    }
                    match e {
                        WalkEnd::Done => {},
                        WalkEnd::OutOfFuel => {
                            assert(wi is None);
                            assert(here is None);
                            assert(walk_targets(*config, ts, fuel as nat, i as int) is None);
                            assert(walk(*config, f, fuel as nat) is None);
                            return WalkEnd::OutOfFuel;
                        },
                        WalkEnd::Stopped(err) => {
                            let ghost sw = (wi->0).0;
                            let ghost m = (wi->0).1;
                            assert(m is Some);
                            assert(here == Some((pk + sw, m)));
                            assert(walk_targets(*config, ts, fuel as nat, i as int) == here);
                            assert(visit_views(out@) =~= start + (done + (pk + sw)));
                            assert(walk(*config, f, fuel as nat) == Some((done + (pk + sw), m)));
                            return WalkEnd::Stopped(err);
                        },
                    }
                    true
                },
                None => false,
            },
            None => false,
        };
        if !is_pack {
            out.push(Visit::Category(name.clone()));
        }
        proof {
            let h = (here->0).0;
            assert(visit_views(out@) =~= before + h);
            assert(before =~= start + done);
            lemma_then_prepend(done, here, walk_targets(*config, ts, fuel as nat, i + 1));
            assert(visit_views(out@).skip(start.len() as int) =~= done + h);
            assert(visit_views(out@).take(start.len() as int) =~= start);
        }
        i = i + 1;
    }
    proof {
        let done = visit_views(out@).skip(start.len() as int);
        assert(visit_views(out@) =~= start + done);
        assert(done + Seq::<VisitView>::empty() =~= done);
    }
    WalkEnd::Done
}

fn walk_includes_exec(config: &Config, inc: &Vec<String>, fuel: usize, out: &mut Vec<Visit>) -> (r: WalkEnd)
    ensures
        reports(walk_includes(*config, inc@, fuel as nat, 0), visit_views(old(out)@), visit_views(final(out)@), r),
    decreases fuel, 2int,
{
    let ghost start = visit_views(out@);
    let mut j: usize = 0;
    while j < inc.len()
        invariant
            j <= inc@.len(),
            start == visit_views(old(out)@),
            visit_views(out@).len() >= start.len(),
            visit_views(out@).take(start.len() as int) == start,
            walk_includes(*config, inc@, fuel as nat, 0) == prepend(
                visit_views(out@).skip(start.len() as int),
                walk_includes(*config, inc@, fuel as nat, j as int),
            ),
        decreases inc.len() - j,
    {
        let ghost done = visit_views(out@).skip(start.len() as int);
        let ghost before = visit_views(out@);
        assert(before =~= start + done);
        let ghost first = walk(*config, Some(inc@[j as int]@), fuel as nat);
        let ghost rest = walk_includes(*config, inc@, fuel as nat, j + 1);
        assert(walk_includes(*config, inc@, fuel as nat, j as int) == then_walk(first, rest));
        let e = walk_exec(config, Some(inc[j].as_str()), fuel, out);
        proof {
            lemma_then_prepend(done, first, rest);
        }
        match e {
            WalkEnd::Done => {},
            WalkEnd::OutOfFuel => {
                assert(first is None);
                return WalkEnd::OutOfFuel;
            },
            WalkEnd::Stopped(err) => {
                let ghost sf = (first->0).0;
                assert((first->0).1 is Some);
                assert(then_walk(first, rest) == first);
                assert(visit_views(out@) =~= start + (done + sf));
                assert(walk_includes(*config, inc@, fuel as nat, 0) == Some((done + sf, (first->0).1)));
                return WalkEnd::Stopped(err);
            },
        }
        proof {
            let h = (first->0).0;
            assert(visit_views(out@).skip(start.len() as int) =~= done + h);
            assert(visit_views(out@).take(start.len() as int) =~= start);
        }
        j = j + 1;
    }
    proof {
        let done = visit_views(out@).skip(start.len() as int);
        assert(visit_views(out@) =~= start + done);
        assert(done + Seq::<VisitView>::empty() =~= done);
    }
    WalkEnd::Done
}

/// The visits of installing or removing what `filter` selects, in order, and
/// the error that stops the walk (a name that no category or alias has, met
/// before or inside a pack), with everything visited before it; `None` when
/// packs include each other in a cycle that the walk runs into.
pub fn category_walk(filter: Option<&str>, config: &Config) -> (r: Option<(Vec<Visit>, Option<InstallError>)>)
    requires
        config.categories.keys().len() < usize::MAX,
    ensures
        ({
            let w = walk(
                *config,
                match filter {
                    Some(q) => Some(q@),
                    None => None,
                },
                pack_depth_bound(*config),
            );
            match r {
                None => w is None,
                Some((v, e)) => w matches Some((s, m)) && visit_views(v@) == s && match m {
                    None => e is None,
                    Some(msg) => e matches Some(err) && err matches InstallError::CategoryNotFound(mm) && mm@
                        == msg,
                },
            }
        }),
{
    let mut out: Vec<Visit> = Vec::new();
    let n = config.categories.len();
    let end = walk_exec(config, filter, n + 1, &mut out);
    assert(visit_views(Seq::<Visit>::empty()) =~= Seq::<VisitView>::empty());
    match end {
        WalkEnd::Done => Some((out, None)),
        WalkEnd::Stopped(e) => Some((out, Some(e))),
        WalkEnd::OutOfFuel => None,
    }
}

// ---------------------------------------------------------------------------
// Catalogs the walk can finish
// ---------------------------------------------------------------------------

/// `rank` goes down along every include as the walk follows it: each category
/// ranks below the number of categories, and every category that one of a
/// pack's included names selects as a filter (by name, by alias, or every
/// category for `all`) ranks below the pack.
pub open spec fn walk_ranked(config: Config, rank: spec_fn(Seq<char>) -> nat) -> bool {
    forall|i: int|
        0 <= i < config.categories.values().len() ==> {
            &&& rank(#[trigger] config.categories.keys()[i]) < config.categories.values().len()
            &&& (config.categories.values()[i].includes matches Some(inc) ==> forall|j: int|
                0 <= j < inc@.len() ==> (targets_of(config, Some(#[trigger] inc@[j]@)) matches Ok(ts)
                    ==> forall|k: int| 0 <= k < ts.len() ==> rank(#[trigger] ts[k]) < rank(config.categories.keys()[i])))
        }
}

proof fn lemma_walk_defined(config: Config, rank: spec_fn(Seq<char>) -> nat, filter: Option<Seq<char>>, f: nat)
    requires
        walk_ranked(config, rank),
        targets_of(config, filter) matches Ok(ts) ==> forall|k: int| 0 <= k < ts.len() ==> rank(#[trigger] ts[k]) < f,
    ensures
        walk(config, filter, f) is Some,
    decreases f, 2int, 0int,
{
    if let Ok(ts) = targets_of(config, filter) {
        lemma_targets_defined(config, rank, ts, f, 0);
    }
}

proof fn lemma_targets_defined(config: Config, rank: spec_fn(Seq<char>) -> nat, ts: Seq<Seq<char>>, f: nat, i: int)
    requires
        walk_ranked(config, rank),
        forall|k: int| 0 <= k < ts.len() ==> rank(#[trigger] ts[k]) < f,
    ensures
        walk_targets(config, ts, f, i) is Some,
    decreases f, 1int, ts.len() - i,
{
    if 0 <= i < ts.len() {
        lemma_targets_defined(config, rank, ts, f, i + 1);
        if let Some(cat) = config.categories.lookup(ts[i]) {
            if let Some(inc) = cat.includes {
                let pos = crate::packs::lemma_lookup_position(config, ts[i]);
                assert(rank(ts[i]) < f);
                let r = rank(config.categories.keys()[pos]);
                assert forall|j: int| 0 <= j < inc@.len() implies (targets_of(config, Some(#[trigger] inc@[j]@)) matches Ok(us)
                    ==> forall|k: int| 0 <= k < us.len() ==> rank(#[trigger] us[k]) < r) by {
                    assert(config.categories.values()[pos].includes == Some(inc));
                }
                lemma_includes_defined(config, rank, inc@, r, (f - 1) as nat, 0);
            }
        }
    }
}

proof fn lemma_includes_defined(
    config: Config,
    rank: spec_fn(Seq<char>) -> nat,
    inc: Seq<String>,
    r: nat,
    f: nat,
    j: int,
)
    requires
        walk_ranked(config, rank),
        r <= f,
        forall|j2: int|
            0 <= j2 < inc.len() ==> (targets_of(config, Some(#[trigger] inc[j2]@)) matches Ok(us) ==> forall|k: int|
                0 <= k < us.len() ==> rank(#[trigger] us[k]) < r),
    ensures
        walk_includes(config, inc, f, j) is Some,
    decreases f, 3int, inc.len() - j,
{
    if 0 <= j < inc.len() {
        assert(targets_of(config, Some(inc[j]@)) matches Ok(us) ==> forall|k: int|
            0 <= k < us.len() ==> rank(#[trigger] us[k]) < r);
        lemma_walk_defined(config, rank, Some(inc[j]@), f);
        lemma_includes_defined(config, rank, inc, r, f, j + 1);
    }
}

/// In a catalog whose includes go down a ranking as the walk follows them, the
/// walk of every filter ends: `category_walk` never reports a cycle there.
pub proof fn law_ranked_catalog_walk_defined(
    config: Config,
    rank: spec_fn(Seq<char>) -> nat,
    filter: Option<Seq<char>>,
)
    requires
        walk_ranked(config, rank),
    ensures
        walk(config, filter, pack_depth_bound(config)) is Some,
{
    config.categories.lemma_lengths();
    let n = pack_depth_bound(config);
    if let Ok(ts) = targets_of(config, filter) {
        assert forall|k: int| 0 <= k < ts.len() implies rank(#[trigger] ts[k]) < n by {
            if !selects_all(filter) {
                let q = filter->0;
                if config.categories.contains(q) {
                    let pos = choose|pos: int| 0 <= pos < config.categories.keys().len() && config.categories.keys()[pos] == q;
                    assert(rank(config.categories.keys()[pos]) < config.categories.values().len());
                } else {
                    let c = choose|i: int| first_alias_match(config.categories.values(), q, i);
                    assert(rank(config.categories.keys()[c]) < config.categories.values().len());
                }
            } else {
                assert(rank(config.categories.keys()[k]) < config.categories.values().len());
            }
        }
    }
    lemma_walk_defined(config, rank, filter, n);
}

} // verus!
