//! Sorting and de-duplicating lists of strings in the order of `String`'s `Ord`.
use crate::text::{
    chars_lt, chars_of, lemma_seq_lt_asymmetric, lemma_seq_lt_irreflexive, lemma_seq_lt_total,
    lemma_seq_lt_transitive, seq_lt, str_eq, string_views,
};
use vstd::multiset::Multiset;
use vstd::prelude::*;

verus! {

broadcast use vstd::seq_lib::group_to_multiset_ensures;

/// Non-decreasing order (what `sort` leaves behind).
pub open spec fn sorted_le(s: Seq<Seq<char>>) -> bool {
    forall|i: int, j: int| 0 <= i < j < s.len() ==> !seq_lt(#[trigger] s[j], #[trigger] s[i])
}

/// Strictly increasing order (what `sort` followed by `dedup` leaves behind).
pub open spec fn sorted_lt(s: Seq<Seq<char>>) -> bool {
    forall|i: int, j: int| 0 <= i < j < s.len() ==> seq_lt(#[trigger] s[i], #[trigger] s[j])
}

/// Inserts `x` after every element that does not sort after it.
fn insert_sorted(r: &mut Vec<String>, x: String)
    requires
        sorted_le(string_views(old(r)@)),
    ensures
        sorted_le(string_views(final(r)@)),
        exists|p: int|
            0 <= p <= old(r)@.len() && string_views(final(r)@) == string_views(old(r)@).insert(
                p,
                x@,
            ),
{
    let ghost old_v = string_views(r@);
    let xv = chars_of(x.as_str());
    let mut p: usize = 0;
    while p < r.len()
        invariant
            p <= r@.len(),
            old_v == string_views(r@),
            xv@ == x@,
            forall|t: int| 0 <= t < p ==> !seq_lt(x@, #[trigger] old_v[t]),
        ensures
            p <= r@.len(),
            old_v == string_views(r@),
            forall|t: int| 0 <= t < p ==> !seq_lt(x@, #[trigger] old_v[t]),
            p < r@.len() ==> seq_lt(x@, old_v[p as int]),
        decreases r.len() - p,
    {
        let rv = chars_of(r[p].as_str());
        if chars_lt(xv.as_slice(), rv.as_slice()) {
            break;
        }
        p = p + 1;
    }
    proof {
        assert forall|t: int| p <= t < old_v.len() implies seq_lt(x@, #[trigger] old_v[t]) by {
            if t > p {
                lemma_seq_lt_total(old_v[p as int], old_v[t]);
                if seq_lt(old_v[p as int], old_v[t]) {
                    lemma_seq_lt_transitive(x@, old_v[p as int], old_v[t]);
                }
            }
        }
    }
    r.insert(p, x);
    let ghost nv = string_views(r@);
    assert(nv =~= old_v.insert(p as int, x@));
    assert forall|i: int, j: int| 0 <= i < j < nv.len() implies !seq_lt(
        #[trigger] nv[j],
        #[trigger] nv[i],
    ) by {
        if j < p {
        } else if i < p && j == p {
        } else if i < p && j > p {
            lemma_seq_lt_asymmetric(x@, old_v[j - 1]);
            lemma_seq_lt_total(x@, old_v[i]);
            if seq_lt(old_v[j - 1], old_v[i]) {
                lemma_seq_lt_transitive(x@, old_v[j - 1], old_v[i]);
            }
        } else if i == p {
            lemma_seq_lt_asymmetric(x@, old_v[j - 1]);
        } else {
        }
    }
}

/// The strings in non-decreasing order (`slice::sort`).
pub fn sort_strings(v: Vec<String>) -> (r: Vec<String>)
    ensures
        sorted_le(string_views(r@)),
        string_views(r@).to_multiset() == string_views(v@).to_multiset(),
{
    let mut r: Vec<String> = Vec::new();
    let mut v = v;
    let ghost orig = string_views(v@);
    proof {
        assert(Seq::<Seq<char>>::empty().to_multiset() =~= Multiset::<Seq<char>>::empty());
        assert(Multiset::<Seq<char>>::empty().add(orig.to_multiset()) =~= orig.to_multiset());
    }
    while v.len() > 0
        invariant
            sorted_le(string_views(r@)),
            string_views(r@).to_multiset().add(string_views(v@).to_multiset())
                == orig.to_multiset(),
        decreases v.len(),
    {
        let ghost before_v = string_views(v@);
        let ghost before_r = string_views(r@);
        let x = v.pop().unwrap();
        assert(before_v =~= string_views(v@).push(x@));
        insert_sorted(&mut r, x);
        assert(string_views(r@).to_multiset() =~= before_r.to_multiset().insert(x@));
        assert(string_views(r@).to_multiset().add(string_views(v@).to_multiset())
            =~= before_r.to_multiset().add(before_v.to_multiset()));
    }
    assert(string_views(v@) =~= Seq::<Seq<char>>::empty());
    assert(string_views(r@).to_multiset().add(string_views(v@).to_multiset())
        =~= string_views(r@).to_multiset());
    r
}

/// The strings in strictly increasing order with every duplicate dropped
/// (`slice::sort` followed by `Vec::dedup`).
pub fn sort_dedup_strings(v: Vec<String>) -> (r: Vec<String>)
    ensures
        sorted_lt(string_views(r@)),
        string_views(r@).to_set() == string_views(v@).to_set(),
{
    let s = sort_strings(v);
    let ghost sv = string_views(s@);
    let mut r: Vec<String> = Vec::new();
    let mut i: usize = 0;
    while i < s.len()
        invariant
            i <= s@.len(),
            sv == string_views(s@),
            sorted_le(sv),
            sorted_lt(string_views(r@)),
            string_views(r@).to_set() == sv.take(i as int).to_set(),
            i > 0 ==> r@.len() > 0 && string_views(r@).last() == sv[i - 1],
            i == 0 ==> r@.len() == 0,
        decreases s.len() - i,
    {
        let ghost rv = string_views(r@);
        let is_dup = r.len() > 0 && str_eq(r[r.len() - 1].as_str(), s[i].as_str());
        if !is_dup {
            let x = s[i].clone();
            r.push(x);
            let ghost nv = string_views(r@);
            assert(nv =~= rv.push(sv[i as int]));
            assert forall|a: int, b: int| 0 <= a < b < nv.len() implies seq_lt(
                #[trigger] nv[a],
                #[trigger] nv[b],
            ) by {
                if b == nv.len() - 1 && i > 0 {
                    lemma_seq_lt_total(sv[i - 1], sv[i as int]);
                    if a < b - 1 {
                        lemma_seq_lt_transitive(rv[a], rv.last(), sv[i as int]);
                    }
                }
            }
        }
        proof {
            assert(sv.take(i + 1) =~= sv.take(i as int).push(sv[i as int]));
            sv.take(i as int).lemma_push_to_set_commute(sv[i as int]);
            if !is_dup {
                rv.lemma_push_to_set_commute(sv[i as int]);
            } else {
                assert(rv.contains(sv[i as int])) by {
                    assert(rv[rv.len() - 1] == sv[i as int]);
                }
                assert(sv.take(i + 1).to_set() =~= sv.take(i as int).to_set());
            }
        }
        i = i + 1;
    }
    assert(sv.take(s@.len() as int) =~= sv);
    proof {
        lemma_multiset_to_set(string_views(s@), string_views(v@));
    }
    r
}

/// Sequences with the same multiset hold the same set of elements.
pub proof fn lemma_multiset_to_set(a: Seq<Seq<char>>, b: Seq<Seq<char>>)
    requires
        a.to_multiset() == b.to_multiset(),
    ensures
        a.to_set() == b.to_set(),
{
    assert forall|x: Seq<char>| a.to_set().contains(x) == b.to_set().contains(x) by {
        vstd::seq_lib::to_multiset_contains(a, x);
        vstd::seq_lib::to_multiset_contains(b, x);
    }
    assert(a.to_set() =~= b.to_set());
}

} // verus!
