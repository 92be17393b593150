//! What the custom-selection wizard hands over: the categories checked in
//! each of its steps, one step after another, and why that list names each
//! supported category at most once, ordered by step and then by name.
use crate::config::Config;
use crate::host::HostView;
use crate::keyed::{keys_sorted, lemma_position_of};
use crate::platform::Platform;
use crate::prompt::{
    checked_keys, group_name, in_step, ordered_groups_ok, preferred_groups, present_groups, step_indices,
    wizard_steps, CategoryGroup, CategorySelectOption,
};
use crate::sorting::sorted_lt;
use crate::state::State;
use crate::text::{lemma_seq_lt_irreflexive, seq_lt, string_views};
use vstd::prelude::*;

verus! {

/// The lists, one after another.
pub open spec fn concat_all(s: Seq<Seq<Seq<char>>>) -> Seq<Seq<char>>
    decreases s.len(),
{
    if s.len() == 0 {
        seq![]
    } else {
        concat_all(s.drop_last()) + s.last()
    }
}

/// The categories chosen over all steps: the keys each step gave, step after
/// step.
pub fn combined_selection(chosen: &Vec<Vec<String>>) -> (r: Vec<String>)
    ensures
        string_views(r@) == concat_all(chosen@.map_values(|c: Vec<String>| string_views(c@))),
{
    let ghost cs = chosen@.map_values(|c: Vec<String>| string_views(c@));
    let mut out: Vec<String> = Vec::new();
    let mut t: usize = 0;
    while t < chosen.len()
        invariant
            t <= chosen@.len(),
            cs == chosen@.map_values(|c: Vec<String>| string_views(c@)),
            string_views(out@) == concat_all(cs.take(t as int)),
        decreases chosen.len() - t,
    {
        let step = &chosen[t];
        let ghost start = string_views(out@);
        let mut k: usize = 0;
        while k < step.len()
            invariant
                k <= step@.len(),
                string_views(out@) == start + string_views(step@).take(k as int),
            decreases step.len() - k,
        {
            let ghost before = string_views(out@);
            out.push(step[k].clone());
            assert(string_views(out@) =~= before.push(step@[k as int]@));
            assert(string_views(step@).take(k + 1) =~= string_views(step@).take(k as int).push(step@[k as int]@));
            k = k + 1;
        }
        assert(string_views(step@).take(step@.len() as int) =~= string_views(step@));
        assert(cs.take(t + 1).drop_last() =~= cs.take(t as int));
        assert(cs.take(t + 1).last() == string_views(step@));
        t = t + 1;
    }
    assert(cs.take(chosen@.len() as int) =~= cs);
    out
}

// ---------------------------------------------------------------------------
// What the combined selection is
// ---------------------------------------------------------------------------

/// The wizard step title of the category named `k`.
pub open spec fn group_of_key(config: Config, k: Seq<char>) -> Seq<char> {
    group_name(config.categories.lookup(k)->0)
}

/// The step whose title is `g`.
pub open spec fn step_of(groups: Seq<CategoryGroup>, g: Seq<char>) -> int {
    choose|t: int| 0 <= t < groups.len() && groups[t].name@ == g
}

/// What one step gave: names of categories of that step, in increasing order.
pub open spec fn step_choice_ok(config: Config, p: Platform, g: Seq<char>, c: Seq<Seq<char>>) -> bool {
    &&& sorted_lt(c)
    &&& forall|a: int|
        #![trigger c[a]]
        0 <= a < c.len() ==> exists|i: int|
            0 <= i < config.categories.values().len() && config.categories.keys()[i] == c[a] && in_step(
                config,
                p,
                g,
                i,
            )
}

proof fn lemma_filter_within<A>(s: Seq<A>, pred: spec_fn(A) -> bool)
    ensures
        forall|a: int| 0 <= a < s.filter(pred).len() ==> s.contains(#[trigger] s.filter(pred)[a]),
    decreases s.len(),
{
    reveal(Seq::filter);
    if s.len() > 0 {
        lemma_filter_within(s.drop_last(), pred);
        let f0 = s.drop_last().filter(pred);
        assert forall|a: int| 0 <= a < s.filter(pred).len() implies s.contains(#[trigger] s.filter(pred)[a]) by {
            if a < f0.len() {
                assert(s.drop_last().contains(f0[a]));
                let k = choose|k: int| 0 <= k < s.drop_last().len() && s.drop_last()[k] == f0[a];
                assert(s[k] == f0[a]);
            } else {
                assert(s[s.len() - 1] == s.last());
            }
        }
    }
}

proof fn lemma_filter_increasing(s: Seq<int>, pred: spec_fn(int) -> bool)
    requires
        forall|i: int, j: int| 0 <= i < j < s.len() ==> s[i] < s[j],
    ensures
        forall|a: int, b: int| 0 <= a < b < s.filter(pred).len() ==> s.filter(pred)[a] < s.filter(pred)[b],
    decreases s.len(),
{
    reveal(Seq::filter);
    if s.len() > 0 {
        lemma_filter_increasing(s.drop_last(), pred);
        lemma_filter_within(s.drop_last(), pred);
        let f0 = s.drop_last().filter(pred);
        assert forall|a: int| 0 <= a < f0.len() implies f0[a] < s.last() by {
            assert(s.drop_last().contains(f0[a]));
            let k = choose|k: int| 0 <= k < s.drop_last().len() && s.drop_last()[k] == f0[a];
            assert(s[k] == f0[a]);
        }
    }
}

proof fn lemma_filter_no_duplicates<A>(s: Seq<A>, pred: spec_fn(A) -> bool)
    requires
        s.no_duplicates(),
    ensures
        s.filter(pred).no_duplicates(),
    decreases s.len(),
{
    reveal(Seq::filter);
    if s.len() > 0 {
        lemma_filter_no_duplicates(s.drop_last(), pred);
        lemma_filter_within(s.drop_last(), pred);
        let f0 = s.drop_last().filter(pred);
        assert forall|a: int| 0 <= a < f0.len() implies f0[a] != s.last() by {
            assert(s.drop_last().contains(f0[a]));
            let k = choose|k: int| 0 <= k < s.drop_last().len() && s.drop_last()[k] == f0[a];
            assert(s[k] == f0[a]);
        }
    }
}

proof fn lemma_checked_sorted(opts: Seq<CategorySelectOption>, ks: Seq<Seq<char>>)
    requires
        opts.len() == ks.len(),
        forall|j: int| 0 <= j < opts.len() ==> (#[trigger] opts[j]).key@ == ks[j],
        sorted_lt(ks),
    ensures
        sorted_lt(checked_keys(opts)),
        forall|a: int|
            0 <= a < checked_keys(opts).len() ==> exists|j: int|
                0 <= j < ks.len() && #[trigger] checked_keys(opts)[a] == ks[j],
    decreases opts.len(),
{
    if opts.len() > 0 {
        let o0 = opts.drop_last();
        let k0 = ks.drop_last();
        assert forall|j: int| 0 <= j < o0.len() implies (#[trigger] o0[j]).key@ == k0[j] by {
            assert(o0[j] == opts[j]);
        }
        lemma_checked_sorted(o0, k0);
        let c0 = checked_keys(o0);
        let n = opts.len() - 1;
        assert(opts.last() == opts[n]);
        assert forall|a: int| 0 <= a < c0.len() implies seq_lt(#[trigger] c0[a], ks[n]) by {
            let j = choose|j: int| 0 <= j < k0.len() && c0[a] == k0[j];
            assert(k0[j] == ks[j]);
        }
        assert forall|a: int|
            0 <= a < checked_keys(opts).len() implies exists|j: int|
                0 <= j < ks.len() && #[trigger] checked_keys(opts)[a] == ks[j] by {
            if a < c0.len() {
                let j = choose|j: int| 0 <= j < k0.len() && c0[a] == k0[j];
                assert(k0[j] == ks[j]);
                assert(checked_keys(opts)[a] == ks[j]);
            } else {
                assert(checked_keys(opts)[a] == ks[n]);
            }
        }
    }
}

proof fn lemma_step_choice(
    config: Config,
    p: Platform,
    state: State,
    host: HostView,
    groups: Seq<CategoryGroup>,
    t: int,
    fin: Seq<CategorySelectOption>,
)
    requires
        keys_sorted(config.categories.keys()),
        wizard_steps(config, p, state, host, groups),
        0 <= t < groups.len(),
        fin.len() == groups[t].options@.len(),
        forall|j: int| 0 <= j < fin.len() ==> (#[trigger] fin[j]).key == groups[t].options@[j].key,
    ensures
        step_choice_ok(config, p, groups[t].name@, checked_keys(fin)),
{
    config.categories.lemma_lengths();
    let g = groups[t];
    let n = config.categories.values().len();
    let ids = Seq::new(n, |i: int| i);
    let pred = |i: int| in_step(config, p, g.name@, i);
    let si = step_indices(config, p, g.name@);
    assert(si == ids.filter(pred));
    lemma_filter_increasing(ids, pred);
    lemma_filter_within(ids, pred);
    let ks = Seq::new(si.len(), |j: int| config.categories.keys()[si[j]]);
    assert forall|j: int| 0 <= j < si.len() implies 0 <= #[trigger] si[j] < n && in_step(config, p, g.name@, si[j]) by {
        assert(ids.contains(si[j]));
        ids.lemma_filter_pred(pred, j);
    }
    assert forall|j: int| 0 <= j < fin.len() implies (#[trigger] fin[j]).key@ == ks[j] by {
        assert(g.options@[j].key@ == config.categories.keys()[si[j]]);
    }
    assert forall|a: int, b: int| 0 <= a < b < ks.len() implies seq_lt(#[trigger] ks[a], #[trigger] ks[b]) by {
        assert(si[a] < si[b]);
    }
    lemma_checked_sorted(fin, ks);
    let c = checked_keys(fin);
    assert forall|a: int|
        #![trigger c[a]]
        0 <= a < c.len() implies exists|i: int|
            0 <= i < n && config.categories.keys()[i] == c[a] && in_step(config, p, g.name@, i) by {
        let j = choose|j: int| 0 <= j < ks.len() && c[a] == ks[j];
        assert(0 <= si[j] < n && in_step(config, p, g.name@, si[j]));
    }
}

proof fn lemma_step_titles_distinct(names: Seq<Seq<char>>, present: Set<Seq<char>>)
    requires
        ordered_groups_ok(names, present),
    ensures
        names.no_duplicates(),
{
    let others = choose|others: Seq<Seq<char>>|
        #![trigger sorted_lt(others)]
        {
            &&& sorted_lt(others)
            &&& others.to_set() == present.difference(preferred_groups().to_set())
            &&& names == preferred_groups().filter(|n: Seq<char>| present.contains(n)) + others
        };
    let pref = preferred_groups();
    reveal_strlit("Shell & Terminal");
    reveal_strlit("Editors & IDEs");
    reveal_strlit("AI & Agents");
    reveal_strlit("Runtimes & Languages");
    reveal_strlit("Window Managers & Desktop");
    reveal_strlit("Packs & Bundles");
    assert(pref.no_duplicates()) by {
        assert forall|i: int, j: int| 0 <= i < pref.len() && 0 <= j < pref.len() && i != j implies pref[i]
            != pref[j] by {
            assert(pref[i][0] != pref[j][0]);
        }
    }
    let pf = pref.filter(|n: Seq<char>| present.contains(n));
    lemma_filter_no_duplicates(pref, |n: Seq<char>| present.contains(n));
    lemma_filter_within(pref, |n: Seq<char>| present.contains(n));
    assert forall|i: int, j: int| 0 <= i < names.len() && 0 <= j < names.len() && i != j implies names[i]
        != names[j] by {
        if i < pf.len() && j < pf.len() {
            assert(names[i] == pf[i] && names[j] == pf[j]);
        } else if i >= pf.len() && j >= pf.len() {
            let (a, b) = if i < j { (i - pf.len(), j - pf.len()) } else { (j - pf.len(), i - pf.len()) };
            assert(seq_lt(others[a], others[b]));
            lemma_seq_lt_irreflexive(others[a]);
            assert(names[i] == others[i - pf.len()]);
            assert(names[j] == others[j - pf.len()]);
        } else {
            let (x, y) = if i < pf.len() { (i, j - pf.len()) } else { (j, i - pf.len()) };
            assert(pref.contains(pf[x]));
            assert(others.to_set().contains(others[y]));
            assert(!pref.to_set().contains(others[y]));
            assert(names[i] == pf[i] || names[i] == others[i - pf.len()]);
        }
    }
}

proof fn lemma_concat_ordered(config: Config, p: Platform, groups: Seq<CategoryGroup>, chosen: Seq<Seq<Seq<char>>>)
    requires
        keys_sorted(config.categories.keys()),
        groups.map_values(|g: CategoryGroup| g.name@).no_duplicates(),
        chosen.len() <= groups.len(),
        forall|t: int| 0 <= t < chosen.len() ==> step_choice_ok(config, p, groups[t].name@, #[trigger] chosen[t]),
    ensures
        ({
            let v = concat_all(chosen);
            &&& forall|a: int|
                #![trigger v[a]]
                0 <= a < v.len() ==> {
                    let t = step_of(groups, group_of_key(config, v[a]));
                    &&& 0 <= t < chosen.len()
                    &&& groups[t].name@ == group_of_key(config, v[a])
                    &&& exists|i: int|
                        0 <= i < config.categories.values().len() && config.categories.keys()[i] == v[a] && in_step(
                            config,
                            p,
                            groups[t].name@,
                            i,
                        )
                }
            &&& forall|a: int, b: int|
                0 <= a < b < v.len() ==> {
                    let ta = step_of(groups, group_of_key(config, #[trigger] v[a]));
                    let tb = step_of(groups, group_of_key(config, #[trigger] v[b]));
                    ta < tb || (ta == tb && seq_lt(v[a], v[b]))
                }
        }),
    decreases chosen.len(),
{
    config.categories.lemma_lengths();
    let names = groups.map_values(|g: CategoryGroup| g.name@);
    if chosen.len() > 0 {
        let c0 = chosen.drop_last();
        assert forall|t: int| 0 <= t < c0.len() implies step_choice_ok(config, p, groups[t].name@, #[trigger] c0[t]) by {
            assert(c0[t] == chosen[t]);
        }
        lemma_concat_ordered(config, p, groups, c0);
        let v0 = concat_all(c0);
        let last = chosen.last();
        let tl = chosen.len() - 1;
        assert(chosen[tl] == last);
        let v = concat_all(chosen);
        assert(v == v0 + last);
        // Every key of the last step names a category of that step's group.
        assert forall|a: int|
            #![trigger last[a]]
            0 <= a < last.len() implies step_of(groups, group_of_key(config, last[a])) == tl && exists|i: int|
                0 <= i < config.categories.values().len() && config.categories.keys()[i] == last[a] && in_step(
                    config,
                    p,
                    groups[tl].name@,
                    i,
                ) by {
            let i = choose|i: int|
                0 <= i < config.categories.values().len() && config.categories.keys()[i] == last[a] && in_step(
                    config,
                    p,
                    groups[tl].name@,
                    i,
                );
            lemma_position_of(config.categories.keys(), i);
            assert(group_of_key(config, last[a]) == groups[tl].name@);
            let s = step_of(groups, groups[tl].name@);
            assert(0 <= s < groups.len() && groups[s].name@ == groups[tl].name@);
            assert(names[s] == names[tl]);
        }
        assert forall|a: int|
            #![trigger v[a]]
            0 <= a < v.len() implies {
                let t = step_of(groups, group_of_key(config, v[a]));
                &&& 0 <= t < chosen.len()
                &&& groups[t].name@ == group_of_key(config, v[a])
                &&& exists|i: int|
                    0 <= i < config.categories.values().len() && config.categories.keys()[i] == v[a] && in_step(
                        config,
                        p,
                        groups[t].name@,
                        i,
                    )
            } by {
            if a < v0.len() {
                assert(v[a] == v0[a]);
            } else {
                assert(v[a] == last[a - v0.len()]);
                let i = choose|i: int|
                    0 <= i < config.categories.values().len() && config.categories.keys()[i] == last[a - v0.len()]
                        && in_step(config, p, groups[tl].name@, i);
                lemma_position_of(config.categories.keys(), i);
            }
        }
        assert forall|a: int, b: int|
            0 <= a < b < v.len() implies {
                let ta = step_of(groups, group_of_key(config, #[trigger] v[a]));
                let tb = step_of(groups, group_of_key(config, #[trigger] v[b]));
                ta < tb || (ta == tb && seq_lt(v[a], v[b]))
            } by {
            if b < v0.len() {
                assert(v[a] == v0[a] && v[b] == v0[b]);
            } else if a < v0.len() {
                assert(v[a] == v0[a]);
                assert(v[b] == last[b - v0.len()]);
            } else {
                assert(v[a] == last[a - v0.len()]);
                assert(v[b] == last[b - v0.len()]);
                assert(sorted_lt(last));
                assert(seq_lt(last[a - v0.len()], last[b - v0.len()]));
            }
        }
    }
}

/// The wizard hands over, across its steps, each category at most once: every
/// key it gives names a category supported on the platform, keys come step by
/// step in the wizard's order of steps (its preferred groups first, then the
/// other groups by name), and by name within a step. `finals` are the steps'
/// entries when each step ended (the keys of the entries `select_custom_categories`
/// built, the check marks as the user left them), and `chosen` what each step
/// gave (its checked keys, as `GroupSelection::handle_key` returns them on
/// Enter); the wizard's result is [`combined_selection`] of `chosen`.
pub proof fn law_combined_selection(
    config: Config,
    p: Platform,
    state: State,
    host: HostView,
    groups: Seq<CategoryGroup>,
    finals: Seq<Seq<CategorySelectOption>>,
    chosen: Seq<Seq<Seq<char>>>,
)
    requires
        keys_sorted(config.categories.keys()),
        wizard_steps(config, p, state, host, groups),
        finals.len() == groups.len(),
        chosen.len() == groups.len(),
        forall|t: int|
            0 <= t < groups.len() ==> {
                &&& (#[trigger] finals[t]).len() == groups[t].options@.len()
                &&& forall|j: int| 0 <= j < finals[t].len() ==> (#[trigger] finals[t][j]).key == groups[t].options@[j].key
                &&& chosen[t] == checked_keys(finals[t])
            },
    ensures
        ({
            let v = concat_all(chosen);
            &&& forall|a: int|
                0 <= a < v.len() ==> config.categories.contains(#[trigger] v[a]) && crate::installer::support(
                    config,
                    config.categories.lookup(v[a])->0,
                    p,
                ) == Some(true)
            &&& forall|a: int, b: int| 0 <= a < b < v.len() ==> #[trigger] v[a] != #[trigger] v[b]
            &&& forall|a: int, b: int|
                0 <= a < b < v.len() ==> {
                    let ta = step_of(groups, group_of_key(config, #[trigger] v[a]));
                    let tb = step_of(groups, group_of_key(config, #[trigger] v[b]));
                    ta < tb || (ta == tb && seq_lt(v[a], v[b]))
                }
        }),
{
    lemma_step_titles_distinct(groups.map_values(|g: CategoryGroup| g.name@), present_groups(config, p));
    assert forall|t: int| 0 <= t < chosen.len() implies step_choice_ok(config, p, groups[t].name@, #[trigger] chosen[t]) by {
        assert(finals[t].len() == groups[t].options@.len());
        lemma_step_choice(config, p, state, host, groups, t, finals[t]);
    }
    lemma_concat_ordered(config, p, groups, chosen);
    let v = concat_all(chosen);
    assert forall|a: int|
        0 <= a < v.len() implies config.categories.contains(#[trigger] v[a]) && crate::installer::support(
            config,
            config.categories.lookup(v[a])->0,
            p,
        ) == Some(true) by {
        let t = step_of(groups, group_of_key(config, v[a]));
        let i = choose|i: int|
            0 <= i < config.categories.values().len() && config.categories.keys()[i] == v[a] && in_step(
                config,
                p,
                groups[t].name@,
                i,
            );
        config.categories.lemma_lengths();
        lemma_position_of(config.categories.keys(), i);
        assert(config.categories.keys().contains(v[a]));
    }
    assert forall|a: int, b: int| 0 <= a < b < v.len() implies #[trigger] v[a] != #[trigger] v[b] by {
        let ta = step_of(groups, group_of_key(config, v[a]));
        let tb = step_of(groups, group_of_key(config, v[b]));
        if v[a] == v[b] {
            lemma_seq_lt_irreflexive(v[a]);
        }
    }
}

} // verus!
