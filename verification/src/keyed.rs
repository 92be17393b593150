//! A map from strings to values that keeps its entries ordered by key, as the
//! catalog and the state file need (the order in which `BTreeMap<String, _>`
//! and `BTreeSet<String>` hand out their entries).
use crate::text::{
    chars_lt, chars_of, lemma_seq_lt_irreflexive, lemma_seq_lt_total, lemma_seq_lt_transitive, seq_lt,
    slice_eq, str_eq,
};
use vstd::prelude::*;

verus! {

/// Keys in strictly increasing order (hence pairwise distinct).
pub open spec fn keys_sorted(k: Seq<Seq<char>>) -> bool {
    forall|i: int, j: int| 0 <= i < j < k.len() ==> seq_lt(#[trigger] k[i], #[trigger] k[j])
}

/// Position of `key` among `keys`, if present.
pub open spec fn position_of(keys: Seq<Seq<char>>, key: Seq<char>) -> Option<int> {
    if exists|i: int| 0 <= i < keys.len() && keys[i] == key {
        Some(choose|i: int| 0 <= i < keys.len() && keys[i] == key)
    } else {
        None
    }
}

/// In strictly increasing keys a key occurs once.
pub proof fn lemma_sorted_unique(k: Seq<Seq<char>>, i: int, j: int)
    requires
        keys_sorted(k),
        0 <= i < k.len(),
        0 <= j < k.len(),
        k[i] == k[j],
    ensures
        i == j,
{
    if i < j {
        lemma_seq_lt_irreflexive(k[i]);
    } else if j < i {
        lemma_seq_lt_irreflexive(k[j]);
    }
}

/// The position of a key of strictly increasing keys is where it stands.
pub proof fn lemma_position_of(k: Seq<Seq<char>>, i: int)
    requires
        keys_sorted(k),
        0 <= i < k.len(),
    ensures
        position_of(k, k[i]) == Some(i),
{
    assert(exists|j: int| 0 <= j < k.len() && k[j] == k[i]);
    let j = position_of(k, k[i])->0;
    lemma_sorted_unique(k, j, i);
}

/// Entries ordered by strictly increasing key.
#[derive(Debug)]
pub struct KeyedList<V> {
    entries: Vec<(String, V)>,
}

impl<V> KeyedList<V> {
    /// The keys, in increasing order.
    pub closed spec fn keys(self) -> Seq<Seq<char>> {
        self.entries@.map_values(|e: (String, V)| e.0@)
    }

    /// The values, in the order of their keys.
    pub closed spec fn values(self) -> Seq<V> {
        self.entries@.map_values(|e: (String, V)| e.1)
    }

    #[verifier::type_invariant]
    closed spec fn inv(self) -> bool {
        keys_sorted(self.keys())
    }

    /// The value stored under `key`, if any.
    pub open spec fn lookup(self, key: Seq<char>) -> Option<V> {
        match position_of(self.keys(), key) {
            Some(i) => Some(self.values()[i]),
            None => None,
        }
    }

    /// Whether `key` is one of the keys.
    pub open spec fn contains(self, key: Seq<char>) -> bool {
        self.keys().contains(key)
    }

    /// There are as many values as keys.
    pub proof fn lemma_lengths(self)
        ensures
            self.keys().len() == self.values().len(),
    {
    }

    /// An empty list.
    pub fn new() -> (r: Self)
        ensures
            r.keys() == Seq::<Seq<char>>::empty(),
            r.values() == Seq::<V>::empty(),
    {
        let r = KeyedList { entries: Vec::new() };
        assert(r.keys() =~= Seq::<Seq<char>>::empty());
        assert(r.values() =~= Seq::<V>::empty());
        r
    }

    /// The entries, in key order.
    pub fn into_entries(self) -> (r: Vec<(String, V)>)
        ensures
            r@.map_values(|e: (String, V)| e.0@) == self.keys(),
            r@.map_values(|e: (String, V)| e.1) == self.values(),
            keys_sorted(self.keys()),
    {
        proof {
            use_type_invariant(&self);
        }
        self.entries
    }

    /// The entries, in key order.
    pub fn entries(&self) -> (r: &Vec<(String, V)>)
        ensures
            r@.map_values(|e: (String, V)| e.0@) == self.keys(),
            r@.map_values(|e: (String, V)| e.1) == self.values(),
            keys_sorted(self.keys()),
    {
        proof {
            use_type_invariant(self);
        }
        &self.entries
    }

    /// Number of entries; the keys are strictly increasing.
    pub fn len(&self) -> (r: usize)
        ensures
            r == self.keys().len(),
            r == self.values().len(),
            keys_sorted(self.keys()),
    {
        proof {
            use_type_invariant(self);
        }
        self.entries.len()
    }

    /// The key of the `i`-th entry.
    pub fn key_at(&self, i: usize) -> (r: &String)
        requires
            i < self.keys().len(),
        ensures
            r@ == self.keys()[i as int],
    {
        &self.entries[i].0
    }

    /// The value of the `i`-th entry.
    pub fn value_at(&self, i: usize) -> (r: &V)
        requires
            i < self.values().len(),
        ensures
            *r == self.values()[i as int],
    {
        &self.entries[i].1
    }

    /// Position of `key`, if present.
    pub fn find(&self, key: &str) -> (r: Option<usize>)
        ensures
            match r {
                Some(i) => position_of(self.keys(), key@) == Some(i as int),
                None => position_of(self.keys(), key@) is None,
            },
            r matches Some(i) ==> i < self.keys().len() && self.keys()[i as int] == key@,
            r is None ==> !self.keys().contains(key@),
            keys_sorted(self.keys()),
    {
        proof {
            use_type_invariant(self);
        }
        let kv = chars_of(key);
        let mut i: usize = 0;
        while i < self.entries.len()
            invariant
                i <= self.entries@.len(),
                kv@ == key@,
                keys_sorted(self.keys()),
                self.keys().len() == self.entries@.len(),
                forall|j: int| 0 <= j < i ==> self.keys()[j] != key@,
            decreases self.entries.len() - i,
        {
            let ev = chars_of(self.entries[i].0.as_str());
            if slice_eq(ev.as_slice(), kv.as_slice()) {
                assert(self.keys()[i as int] == key@);
                proof {
                    let c = choose|t: int| 0 <= t < self.keys().len() && self.keys()[t] == key@;
                    lemma_sorted_unique(self.keys(), c, i as int);
                }
                return Some(i);
            }
            i = i + 1;
        }
        None
    }

    /// The value under `key`.
    pub fn get(&self, key: &str) -> (r: Option<&V>)
        ensures
            match r {
                Some(v) => self.lookup(key@) == Some(*v),
                None => self.lookup(key@) is None,
            },
            r is Some <==> self.contains(key@),
    {
        match self.find(key) {
            Some(i) => {
                assert(self.values()[i as int] == self.entries@[i as int].1);
                Some(&self.entries[i].1)
            },
            None => None,
        }
    }

    /// The stored key and value under `key`.
    pub fn get_key_value(&self, key: &str) -> (r: Option<(&String, &V)>)
        ensures
            match r {
                Some((k, v)) => k@ == key@ && self.lookup(key@) == Some(*v),
                None => self.lookup(key@) is None,
            },
            r is Some <==> self.contains(key@),
    {
        match self.find(key) {
            Some(i) => {
                assert(self.values()[i as int] == self.entries@[i as int].1);
                assert(self.keys()[i as int] == self.entries@[i as int].0@);
                Some((&self.entries[i].0, &self.entries[i].1))
            },
            None => None,
        }
    }

    /// Whether `key` is present.
    pub fn contains_key(&self, key: &str) -> (r: bool)
        ensures
            r == self.contains(key@),
    {
        self.find(key).is_some()
    }

    /// Index at which `key` belongs: every key before it is smaller, every key from
    /// it on is not smaller.
    fn insertion_point(&self, key: &Vec<char>) -> (r: usize)
        ensures
            r <= self.keys().len(),
            forall|j: int| 0 <= j < r ==> seq_lt(#[trigger] self.keys()[j], key@),
            forall|j: int| r <= j < self.keys().len() ==> !seq_lt(#[trigger] self.keys()[j], key@),
    {
        proof {
            use_type_invariant(self);
        }
        let mut i: usize = 0;
        while i < self.entries.len()
            invariant
                i <= self.entries@.len(),
                keys_sorted(self.keys()),
                self.keys().len() == self.entries@.len(),
                forall|j: int| 0 <= j < i ==> seq_lt(#[trigger] self.keys()[j], key@),
            decreases self.entries.len() - i,
        {
            let ev = chars_of(self.entries[i].0.as_str());
            if !chars_lt(ev.as_slice(), key.as_slice()) {
                assert forall|j: int| i <= j < self.keys().len() implies !seq_lt(
                    #[trigger] self.keys()[j],
                    key@,
                ) by {
                    if j > i && seq_lt(self.keys()[j], key@) {
                        lemma_seq_lt_transitive(self.keys()[i as int], self.keys()[j], key@);
                    }
                }
                return i;
            }
            i = i + 1;
        }
        i
    }

    /// Stores `value` under `key`, replacing the value already there; the entry
    /// keeps or takes its place in key order.
    pub fn insert(&mut self, key: String, value: V)
        ensures
            old(self).contains(key@) ==> exists|i: int|
                0 <= i < old(self).keys().len() && old(self).keys()[i] == key@ && final(self).keys()
                    == old(self).keys() && final(self).values() == old(self).values().update(
                    i,
                    value,
                ),
            !old(self).contains(key@) ==> exists|p: int|
                0 <= p <= old(self).keys().len() && final(self).keys() == old(self).keys().insert(
                    p,
                    key@,
                ) && final(self).values() == old(self).values().insert(p, value),
            final(self).lookup(key@) == Some(value),
            forall|k: Seq<char>| k != key@ ==> final(self).lookup(k) == old(self).lookup(k),
    {
        proof {
            use_type_invariant(&*self);
        }
        let kv = chars_of(key.as_str());
        let p = self.insertion_point(&kv);
        let ghost ok = self.keys();
        let ghost ov = self.values();
        if p < self.entries.len() && str_eq(self.entries[p].0.as_str(), key.as_str()) {
            let mut e: Vec<(String, V)> = Vec::new();
            std::mem::swap(&mut e, &mut self.entries);
            e.set(p, (key, value));
            proof {
                assert(e@.map_values(|x: (String, V)| x.0@) =~= ok);
            }
            *self = KeyedList { entries: e };
            assert(self.keys() =~= ok);
            assert(self.values() =~= ov.update(p as int, value));
            proof {
                self.lemma_lookup_after_update(ok, ov, p as int, value);
            }
        } else {
            proof {
                lemma_seq_lt_irreflexive(kv@);
                if p < ok.len() {
                    lemma_seq_lt_total(ok[p as int], kv@);
                }
            }
            assert forall|t: int| p <= t < ok.len() implies seq_lt(kv@, #[trigger] ok[t]) by {
                lemma_seq_lt_total(ok[p as int], kv@);
                if t > p {
                    lemma_seq_lt_transitive(kv@, ok[p as int], ok[t]);
                }
            }
            let mut e: Vec<(String, V)> = Vec::new();
            std::mem::swap(&mut e, &mut self.entries);
            e.insert(p, (key, value));
            let ghost nk = e@.map_values(|x: (String, V)| x.0@);
            assert(nk =~= ok.insert(p as int, kv@));
            proof {
                assert forall|i: int, j: int|
                    0 <= i < j < nk.len() implies seq_lt(
                    #[trigger] nk[i],
                    #[trigger] nk[j],
                ) by {
                    if j < p {
                    } else if i < p && j == p {
                    } else if i < p && j > p {
                        assert(seq_lt(kv@, ok[j - 1]));
                        lemma_seq_lt_transitive(ok[i], kv@, ok[j - 1]);
                    } else if i == p {
                        assert(seq_lt(kv@, ok[j - 1]));
                    } else {
                    }
                }
            }
            *self = KeyedList { entries: e };
            assert(self.keys() =~= ok.insert(p as int, kv@));
            assert(self.values() =~= ov.insert(p as int, value));
            proof {
                assert(!ok.contains(kv@)) by {
                    if ok.contains(kv@) {
                        let t = choose|t: int| 0 <= t < ok.len() && ok[t] == kv@;
                        if t < p {
                            lemma_seq_lt_irreflexive(kv@);
                        } else if t > p {
                            lemma_seq_lt_transitive(kv@, ok[p as int], ok[t]);
                            lemma_seq_lt_irreflexive(kv@);
                        }
                    }
                }
                self.lemma_lookup_after_insert(ok, ov, p as int, value);
            }
        }
    }

    proof fn lemma_lookup_after_update(self, ok: Seq<Seq<char>>, ov: Seq<V>, p: int, value: V)
        requires
            keys_sorted(ok),
            ok.len() == ov.len(),
            0 <= p < ok.len(),
            self.keys() == ok,
            self.values() == ov.update(p, value),
        ensures
            self.lookup(ok[p]) == Some(value),
            forall|k: Seq<char>|
                k != ok[p] ==> self.lookup(k) == match position_of(ok, k) {
                    Some(i) => Some(ov[i]),
                    None => None::<V>,
                },
    {
        let c = choose|t: int| 0 <= t < ok.len() && ok[t] == ok[p];
        lemma_sorted_unique(ok, c, p);
    }

    proof fn lemma_lookup_after_insert(self, ok: Seq<Seq<char>>, ov: Seq<V>, p: int, value: V)
        requires
            keys_sorted(self.keys()),
            ok.len() == ov.len(),
            0 <= p <= ok.len(),
            self.keys() == ok.insert(p, self.keys()[p]),
            self.values() == ov.insert(p, value),
        ensures
            self.lookup(self.keys()[p]) == Some(value),
            forall|k: Seq<char>|
                k != self.keys()[p] ==> self.lookup(k) == match position_of(ok, k) {
                    Some(i) => Some(ov[i]),
                    None => None::<V>,
                },
    {
        let nk = self.keys();
        let c = choose|t: int| 0 <= t < nk.len() && nk[t] == nk[p];
        lemma_sorted_unique(nk, c, p);
        assert forall|k: Seq<char>| k != nk[p] implies self.lookup(k) == match position_of(ok, k) {
            Some(i) => Some(ov[i]),
            None => None::<V>,
        } by {
            if exists|i: int| 0 <= i < ok.len() && ok[i] == k {
                let i = choose|i: int| 0 <= i < ok.len() && ok[i] == k;
                let ni = if i < p { i } else { i + 1 };
                assert(nk[ni] == k);
                let c2 = choose|t: int| 0 <= t < nk.len() && nk[t] == k;
                lemma_sorted_unique(nk, c2, ni);
            } else {
                if exists|t: int| 0 <= t < nk.len() && nk[t] == k {
                    let t = choose|t: int| 0 <= t < nk.len() && nk[t] == k;
                    if t < p {
                        assert(ok[t] == k);
                    } else if t > p {
                        assert(ok[t - 1] == k);
                    }
                }
            }
        }
    }

    /// Removes the entry under `key`, if any.
    pub fn remove(&mut self, key: &str)
        ensures
            !old(self).contains(key@) ==> final(self).keys() == old(self).keys()
                && final(self).values() == old(self).values(),
            old(self).contains(key@) ==> exists|i: int|
                0 <= i < old(self).keys().len() && old(self).keys()[i] == key@
                    && final(self).keys() == old(self).keys().remove(i)
                    && final(self).values() == old(self).values().remove(i),
            !final(self).contains(key@),
            forall|k: Seq<char>| k != key@ ==> final(self).lookup(k) == old(self).lookup(k),
    {
        proof {
            use_type_invariant(&*self);
        }
        let ghost ok = self.keys();
        let ghost ov = self.values();
        match self.find(key) {
            Some(i) => {
                let mut e: Vec<(String, V)> = Vec::new();
                std::mem::swap(&mut e, &mut self.entries);
                let _ = e.remove(i);
                let ghost nk = e@.map_values(|x: (String, V)| x.0@);
                assert(nk =~= ok.remove(i as int));
                proof {
                    assert forall|a: int, b: int|
                        0 <= a < b < nk.len() implies seq_lt(
                        #[trigger] nk[a],
                        #[trigger] nk[b],
                    ) by {
                        let oa = if a < i { a } else { a + 1 };
                        let ob = if b < i { b } else { b + 1 };
                        assert(nk[a] == ok[oa]);
                        assert(nk[b] == ok[ob]);
                    }
                }
                *self = KeyedList { entries: e };
                assert(self.keys() =~= ok.remove(i as int));
                assert(self.values() =~= ov.remove(i as int));
                proof {
                    assert(!self.keys().contains(key@)) by {
                        if self.keys().contains(key@) {
                            let t = choose|t: int| 0 <= t < self.keys().len() && self.keys()[t] == key@;
                            let ot = if t < i { t } else { t + 1 };
                            assert(ok[ot] == key@);
                            lemma_sorted_unique(ok, ot, i as int);
                        }
                    }
                    assert forall|k: Seq<char>| k != key@ implies self.lookup(k) == match position_of(ok, k) {
                        Some(j) => Some(ov[j]),
                        None => None::<V>,
                    } by {
                        let nk = self.keys();
                        if exists|j: int| 0 <= j < ok.len() && ok[j] == k {
                            let j = choose|j: int| 0 <= j < ok.len() && ok[j] == k;
                            assert(j != i);
                            let nj = if j < i { j } else { j - 1 };
                            assert(nk[nj] == k);
                            let c2 = choose|t: int| 0 <= t < nk.len() && nk[t] == k;
                            lemma_sorted_unique(nk, c2, nj);
                        } else {
                            if exists|t: int| 0 <= t < nk.len() && nk[t] == k {
                                let t = choose|t: int| 0 <= t < nk.len() && nk[t] == k;
                                let ot = if t < i { t } else { t + 1 };
                                assert(ok[ot] == k);
                            }
                        }
                    }
                }
            },
            None => {},
        }
    }
}

} // verus!
