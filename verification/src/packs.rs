//! Laws of pack evaluation: support and applied status unfold one level of the
//! includes at a time, and a catalog whose includes never loop back has both
//! for every category.
use crate::config::{Category, Config};
use crate::host::HostView;
use crate::installer::{
    all_includes_applied, any_include_supported, applied, applied_fuel, has_own_installables, own_applied,
    pack_depth_bound, support, supported_fuel,
};
use crate::state::State;
use crate::listing::{cat_listed, cat_supported, listable};
use crate::platform::{platform_filter_admits, Platform};
use vstd::prelude::*;

verus! {

// ---------------------------------------------------------------------------
// Platform support
// ---------------------------------------------------------------------------

proof fn lemma_supported_fuel_mono(config: Config, cat: Category, p: Platform, f1: nat, f2: nat)
    requires
        f1 <= f2,
        supported_fuel(config, cat, p, f1) is Some,
    ensures
        supported_fuel(config, cat, p, f2) == supported_fuel(config, cat, p, f1),
    decreases f1, 0int, 0int,
{
    if platform_filter_admits(cat.platform, p) && !has_own_installables(cat, p) {
        if let Some(inc) = cat.includes {
            if f1 > 0 {
                lemma_any_include_mono(config, inc@, p, (f1 - 1) as nat, (f2 - 1) as nat, 0);
            }
        }
    }
}

proof fn lemma_any_include_mono(config: Config, inc: Seq<String>, p: Platform, f1: nat, f2: nat, i: int)
    requires
        f1 <= f2,
        any_include_supported(config, inc, p, f1, i) is Some,
    ensures
        any_include_supported(config, inc, p, f2, i) == any_include_supported(config, inc, p, f1, i),
    decreases f1, 1int, inc.len() - i,
{
    if 0 <= i < inc.len() {
        match config.categories.lookup(inc[i]@) {
            Some(sub) => {
                lemma_supported_fuel_mono(config, sub, p, f1, f2);
                if supported_fuel(config, sub, p, f1) == Some(false) {
                    lemma_any_include_mono(config, inc, p, f1, f2, i + 1);
                }
            },
            None => {
                lemma_any_include_mono(config, inc, p, f1, f2, i + 1);
            },
        }
    }
}

/// The `j`-th included name of `inc` names a category supported on `p` when
/// evaluated with `fuel` nested expansions.
pub open spec fn include_supported_fuel(config: Config, inc: Seq<String>, p: Platform, fuel: nat, j: int) -> bool {
    match config.categories.lookup(inc[j]@) {
        Some(sub) => supported_fuel(config, sub, p, fuel) == Some(true),
        None => false,
    }
}

/// The `j`-th included name of `inc` names a category supported on `p`.
pub open spec fn include_supported(config: Config, inc: Seq<String>, p: Platform, j: int) -> bool {
    match config.categories.lookup(inc[j]@) {
        Some(sub) => support(config, sub, p) == Some(true),
        None => false,
    }
}

proof fn lemma_any_include_meaning(config: Config, inc: Seq<String>, p: Platform, f: nat, i: int)
    requires
        0 <= i,
        any_include_supported(config, inc, p, f, i) is Some,
    ensures
        any_include_supported(config, inc, p, f, i) == Some(
            exists|j: int| i <= j < inc.len() && #[trigger] include_supported_fuel(config, inc, p, f, j),
        ),
        any_include_supported(config, inc, p, f, i) == Some(false) ==> forall|j: int|
            i <= j < inc.len() ==> match config.categories.lookup(#[trigger] inc[j]@) {
                Some(sub) => supported_fuel(config, sub, p, f) == Some(false),
                None => true,
            },
    decreases inc.len() - i,
{
    if i < inc.len() {
        let first = match config.categories.lookup(inc[i]@) {
            Some(sub) => supported_fuel(config, sub, p, f),
            None => Some(false),
        };
        if first == Some(true) {
            assert(include_supported_fuel(config, inc, p, f, i));
        } else {
            lemma_any_include_meaning(config, inc, p, f, i + 1);
            if exists|j: int| i <= j < inc.len() && #[trigger] include_supported_fuel(config, inc, p, f, j) {
                let j = choose|j: int| i <= j < inc.len() && #[trigger] include_supported_fuel(config, inc, p, f, j);
                if j == i {
                    assert(false);
                } else {
                    assert(include_supported_fuel(config, inc, p, f, j));
                }
            }
        }
    }
}

/// Support unfolds one level: where the evaluation ends, a category is
/// supported on `p` exactly when its platform restriction (if any) admits `p`
/// and it has something of its own to install there, or it is a pack one of
/// whose included names names a category supported on `p`.
pub proof fn law_support_one_level(config: Config, cat: Category, p: Platform)
    requires
        support(config, cat, p) is Some,
    ensures
        support(config, cat, p) == Some(
            platform_filter_admits(cat.platform, p) && (has_own_installables(cat, p) || (
            cat.includes matches Some(inc) && exists|j: int|
                0 <= j < inc@.len() && #[trigger] include_supported(config, inc@, p, j))),
        ),
{
    let n = pack_depth_bound(config);
    if platform_filter_admits(cat.platform, p) && !has_own_installables(cat, p) {
        if let Some(inc) = cat.includes {
            let f = (n - 1) as nat;
            lemma_any_include_meaning(config, inc@, p, f, 0);
            if any_include_supported(config, inc@, p, f, 0) == Some(true) {
                let j = choose|j: int| 0 <= j < inc@.len() && #[trigger] include_supported_fuel(config, inc@, p, f, j);
                let sub = config.categories.lookup(inc@[j]@)->0;
                lemma_supported_fuel_mono(config, sub, p, f, n);
                assert(include_supported(config, inc@, p, j));
            } else {
                assert forall|j: int| 0 <= j < inc@.len() implies !#[trigger] include_supported(config, inc@, p, j) by {
                    if let Some(sub) = config.categories.lookup(inc@[j]@) {
                        lemma_supported_fuel_mono(config, sub, p, f, n);
                    }
                }
            }
        }
    }
}

// ---------------------------------------------------------------------------
// Applied status
// ---------------------------------------------------------------------------

proof fn lemma_applied_fuel_mono(
    config: Config,
    name: Seq<char>,
    cat: Category,
    state: State,
    p: Platform,
    host: HostView,
    f1: nat,
    f2: nat,
)
    requires
        f1 <= f2,
        applied_fuel(config, name, cat, state, p, host, f1) is Some,
    ensures
        applied_fuel(config, name, cat, state, p, host, f2) == applied_fuel(config, name, cat, state, p, host, f1),
    decreases f1, 0int, 0int,
{
    if let Some(inc) = cat.includes {
        if inc@.len() > 0 && f1 > 0 {
            lemma_all_includes_mono(config, inc@, state, p, host, (f1 - 1) as nat, (f2 - 1) as nat, 0);
        }
    }
}

proof fn lemma_all_includes_mono(
    config: Config,
    inc: Seq<String>,
    state: State,
    p: Platform,
    host: HostView,
    f1: nat,
    f2: nat,
    i: int,
)
    requires
        f1 <= f2,
        all_includes_applied(config, inc, state, p, host, f1, i) is Some,
    ensures
        all_includes_applied(config, inc, state, p, host, f2, i) == all_includes_applied(
            config,
            inc,
            state,
            p,
            host,
            f1,
            i,
        ),
    decreases f1, 1int, inc.len() - i,
{
    if 0 <= i < inc.len() {
        if let Some(sub) = config.categories.lookup(inc[i]@) {
            lemma_applied_fuel_mono(config, inc[i]@, sub, state, p, host, f1, f2);
            if applied_fuel(config, inc[i]@, sub, state, p, host, f1) == Some(true) {
                lemma_all_includes_mono(config, inc, state, p, host, f1, f2, i + 1);
            }
        }
    }
}

/// The `j`-th included name of `inc` names a category that counts as applied
/// when evaluated with `fuel` nested expansions.
pub open spec fn include_applied_fuel(
    config: Config,
    inc: Seq<String>,
    state: State,
    p: Platform,
    host: HostView,
    fuel: nat,
    j: int,
) -> bool {
    match config.categories.lookup(inc[j]@) {
        Some(sub) => applied_fuel(config, inc[j]@, sub, state, p, host, fuel) == Some(true),
        None => false,
    }
}

/// The `j`-th included name of `inc` names a category that counts as applied.
pub open spec fn include_applied(
    config: Config,
    inc: Seq<String>,
    state: State,
    p: Platform,
    host: HostView,
    j: int,
) -> bool {
    match config.categories.lookup(inc[j]@) {
        Some(sub) => applied(config, inc[j]@, sub, state, p, host) == Some(true),
        None => false,
    }
}

proof fn lemma_all_includes_meaning(
    config: Config,
    inc: Seq<String>,
    state: State,
    p: Platform,
    host: HostView,
    f: nat,
    i: int,
)
    requires
        0 <= i,
        all_includes_applied(config, inc, state, p, host, f, i) is Some,
    ensures
        all_includes_applied(config, inc, state, p, host, f, i) == Some(
            forall|j: int| i <= j < inc.len() ==> #[trigger] include_applied_fuel(config, inc, state, p, host, f, j),
        ),
        all_includes_applied(config, inc, state, p, host, f, i) == Some(true) ==> forall|j: int|
            i <= j < inc.len() ==> #[trigger] include_applied_fuel(config, inc, state, p, host, f, j),
        all_includes_applied(config, inc, state, p, host, f, i) == Some(false) ==> exists|j: int|
            i <= j < inc.len() && match config.categories.lookup(#[trigger] inc[j]@) {
                Some(sub) => applied_fuel(config, inc[j]@, sub, state, p, host, f) == Some(false),
                None => true,
            },
    decreases inc.len() - i,
{
    if i < inc.len() {
        let first = match config.categories.lookup(inc[i]@) {
            Some(sub) => applied_fuel(config, inc[i]@, sub, state, p, host, f),
            None => Some(false),
        };
        if first == Some(false) {
            assert(!include_applied_fuel(config, inc, state, p, host, f, i));
            assert(match config.categories.lookup(inc[i]@) {
                Some(sub) => applied_fuel(config, inc[i]@, sub, state, p, host, f) == Some(false),
                None => true,
            });
        } else {
            lemma_all_includes_meaning(config, inc, state, p, host, f, i + 1);
            assert(include_applied_fuel(config, inc, state, p, host, f, i));
            if all_includes_applied(config, inc, state, p, host, f, i) == Some(true) {
                assert forall|j: int| i <= j < inc.len() implies #[trigger] include_applied_fuel(
                    config,
                    inc,
                    state,
                    p,
                    host,
                    f,
                    j,
                ) by {
                    if j > i {
                        assert(include_applied_fuel(config, inc, state, p, host, f, j));
                    }
                }
            }
        }
    }
}

/// Applied status unfolds one level: where the evaluation ends, a category that
/// is not a pack counts as applied exactly when [`own_applied`] holds (the state
/// lists it as applied, and its custom binary, if any, is present); a pack,
/// exactly when it includes something and every included name names a
/// category that counts as applied. A pack's own name, the packages the state
/// tracks and the binaries are not consulted.
pub proof fn law_applied_one_level(
    config: Config,
    name: Seq<char>,
    cat: Category,
    state: State,
    p: Platform,
    host: HostView,
)
    requires
        applied(config, name, cat, state, p, host) is Some,
    ensures
        applied(config, name, cat, state, p, host) == Some(
            match cat.includes {
                Some(inc) => inc@.len() > 0 && forall|j: int|
                    0 <= j < inc@.len() ==> #[trigger] include_applied(config, inc@, state, p, host, j),
                None => own_applied(name, cat, state, p, host),
            },
        ),
{
    let n = pack_depth_bound(config);
    if let Some(inc) = cat.includes {
        if inc@.len() > 0 {
            let f = (n - 1) as nat;
            lemma_all_includes_meaning(config, inc@, state, p, host, f, 0);
            if all_includes_applied(config, inc@, state, p, host, f, 0) == Some(true) {
                assert forall|j: int| 0 <= j < inc@.len() implies #[trigger] include_applied(
                    config,
                    inc@,
                    state,
                    p,
                    host,
                    j,
                ) by {
                    assert(include_applied_fuel(config, inc@, state, p, host, f, j));
                    let sub = config.categories.lookup(inc@[j]@)->0;
                    lemma_applied_fuel_mono(config, inc@[j]@, sub, state, p, host, f, n);
                }
            } else {
                let j = choose|j: int|
                    0 <= j < inc@.len() && match config.categories.lookup(#[trigger] inc@[j]@) {
                        Some(sub) => applied_fuel(config, inc@[j]@, sub, state, p, host, f) == Some(false),
                        None => true,
                    };
                if let Some(sub) = config.categories.lookup(inc@[j]@) {
                    lemma_applied_fuel_mono(config, inc@[j]@, sub, state, p, host, f, n);
                }
                assert(!include_applied(config, inc@, state, p, host, j));
            }
        }
    }
}

// ---------------------------------------------------------------------------
// Catalogs whose includes never loop back
// ---------------------------------------------------------------------------

/// `rank` goes down along every include of the catalog: each category's rank is
/// below the number of categories, and every included name that names a
/// category ranks below the pack that includes it. (A catalog whose includes
/// never loop back has such a ranking: the length of the longest chain of
/// includes that starts at each category.)
pub open spec fn includes_ranked(config: Config, rank: spec_fn(Seq<char>) -> nat) -> bool {
    forall|i: int|
        0 <= i < config.categories.values().len() ==> {
            &&& rank(#[trigger] config.categories.keys()[i]) < config.categories.values().len()
            &&& (config.categories.values()[i].includes matches Some(inc) ==> forall|j: int|
                0 <= j < inc@.len() && config.categories.contains(#[trigger] inc@[j]@) ==> rank(inc@[j]@) < rank(
                    config.categories.keys()[i],
                ))
        }
}

pub(crate) proof fn lemma_lookup_position(config: Config, key: Seq<char>) -> (pos: int)
    requires
        config.categories.lookup(key) is Some,
    ensures
        0 <= pos < config.categories.values().len(),
        config.categories.keys()[pos] == key,
        config.categories.lookup(key) == Some(config.categories.values()[pos]),
        config.categories.contains(key),
{
    config.categories.lemma_lengths();
    let pos = crate::keyed::position_of(config.categories.keys(), key)->0;
    assert(config.categories.keys().contains(key));
    pos
}

proof fn lemma_support_defined(config: Config, p: Platform, rank: spec_fn(Seq<char>) -> nat, i: int, f: nat)
    requires
        includes_ranked(config, rank),
        0 <= i < config.categories.values().len(),
        rank(config.categories.keys()[i]) < f,
    ensures
        supported_fuel(config, config.categories.values()[i], p, f) is Some,
    decreases f, 0int, 0int,
{
    let cat = config.categories.values()[i];
    assert(rank(config.categories.keys()[i]) < config.categories.values().len());
    if let Some(inc) = cat.includes {
        lemma_any_defined(config, p, rank, inc@, rank(config.categories.keys()[i]), (f - 1) as nat, 0);
    }
}

proof fn lemma_any_defined(
    config: Config,
    p: Platform,
    rank: spec_fn(Seq<char>) -> nat,
    inc: Seq<String>,
    r: nat,
    f: nat,
    j: int,
)
    requires
        includes_ranked(config, rank),
        r <= f,
        forall|k: int| 0 <= k < inc.len() && config.categories.contains(#[trigger] inc[k]@) ==> rank(inc[k]@) < r,
    ensures
        any_include_supported(config, inc, p, f, j) is Some,
    decreases f, 1int, inc.len() - j,
{
    if 0 <= j < inc.len() {
        if let Some(sub) = config.categories.lookup(inc[j]@) {
            let pos = lemma_lookup_position(config, inc[j]@);
            assert(config.categories.contains(inc[j]@));
            lemma_support_defined(config, p, rank, pos, f);
        }
        lemma_any_defined(config, p, rank, inc, r, f, j + 1);
    }
}

/// In a catalog whose includes go down a ranking, every category has a support
/// status on every platform: the evaluation ends.
pub proof fn law_ranked_catalog_support_defined(
    config: Config,
    p: Platform,
    rank: spec_fn(Seq<char>) -> nat,
    i: int,
)
    requires
        includes_ranked(config, rank),
        0 <= i < config.categories.values().len(),
    ensures
        support(config, config.categories.values()[i], p) is Some,
{
    config.categories.lemma_lengths();
    let r = rank(config.categories.keys()[i]);
    lemma_support_defined(config, p, rank, i, r + 1);
    lemma_supported_fuel_mono(config, config.categories.values()[i], p, r + 1, pack_depth_bound(config));
}

proof fn lemma_applied_defined(
    config: Config,
    name: Seq<char>,
    state: State,
    p: Platform,
    host: HostView,
    rank: spec_fn(Seq<char>) -> nat,
    i: int,
    f: nat,
)
    requires
        includes_ranked(config, rank),
        0 <= i < config.categories.values().len(),
        rank(config.categories.keys()[i]) < f,
    ensures
        applied_fuel(config, name, config.categories.values()[i], state, p, host, f) is Some,
    decreases f, 0int, 0int,
{
    let cat = config.categories.values()[i];
    assert(rank(config.categories.keys()[i]) < config.categories.values().len());
    if let Some(inc) = cat.includes {
        if inc@.len() > 0 {
            lemma_all_defined(config, state, p, host, rank, inc@, rank(config.categories.keys()[i]), (f - 1) as nat, 0);
        }
    }
}

proof fn lemma_all_defined(
    config: Config,
    state: State,
    p: Platform,
    host: HostView,
    rank: spec_fn(Seq<char>) -> nat,
    inc: Seq<String>,
    r: nat,
    f: nat,
    j: int,
)
    requires
        includes_ranked(config, rank),
        r <= f,
        forall|k: int| 0 <= k < inc.len() && config.categories.contains(#[trigger] inc[k]@) ==> rank(inc[k]@) < r,
    ensures
        all_includes_applied(config, inc, state, p, host, f, j) is Some,
    decreases f, 1int, inc.len() - j,
{
    if 0 <= j < inc.len() {
        if let Some(sub) = config.categories.lookup(inc[j]@) {
            let pos = lemma_lookup_position(config, inc[j]@);
            assert(config.categories.contains(inc[j]@));
            lemma_applied_defined(config, inc[j]@, state, p, host, rank, pos, f);
        }
        lemma_all_defined(config, state, p, host, rank, inc, r, f, j + 1);
    }
}

/// In a catalog whose includes go down a ranking, every category has an
/// applied status: the evaluation ends.
pub proof fn law_ranked_catalog_applied_defined(
    config: Config,
    state: State,
    p: Platform,
    host: HostView,
    rank: spec_fn(Seq<char>) -> nat,
    i: int,
)
    requires
        includes_ranked(config, rank),
        0 <= i < config.categories.values().len(),
    ensures
        applied(config, config.categories.keys()[i], config.categories.values()[i], state, p, host) is Some,
{
    config.categories.lemma_lengths();
    let name = config.categories.keys()[i];
    let r = rank(name);
    lemma_applied_defined(config, name, state, p, host, rank, i, r + 1);
    lemma_applied_fuel_mono(config, name, config.categories.values()[i], state, p, host, r + 1, pack_depth_bound(config));
}

/// A catalog whose includes go down a ranking can always be listed: it meets
/// what `list_categories` requires of it, whatever the filter.
pub proof fn law_ranked_catalog_is_listable(
    config: Config,
    state: State,
    p: Platform,
    host: HostView,
    filter: Option<Seq<char>>,
    show_hidden: bool,
    rank: spec_fn(Seq<char>) -> nat,
)
    requires
        includes_ranked(config, rank),
    ensures
        listable(config, state, p, host, filter, show_hidden),
{
    assert forall|i: int|
        0 <= i < config.categories.values().len() && #[trigger] cat_listed(config, filter, p, i) implies {
        &&& support(config, config.categories.values()[i], p) is Some
        &&& (cat_supported(config, p, i) || show_hidden) ==> applied(
            config,
            config.categories.keys()[i],
            config.categories.values()[i],
            state,
            p,
            host,
        ) is Some
    } by {
        law_ranked_catalog_support_defined(config, p, rank, i);
        law_ranked_catalog_applied_defined(config, state, p, host, rank, i);
    }
}

} // verus!
