//! The persistent map store: a mapping from `u64` key to a record, held as a
//! vector of entries kept strictly sorted by key, so that iteration visits
//! entries in key order.
//!
//! The view of a store is the sequence of `(key, record view)` pairs in key
//! order; [`seq_get`] reads that sequence as a partial map.

use vstd::prelude::*;
use vstd::pervasive::VecAdditionalExecFns;

verus! {

/// True when `s` holds an entry with key `k`.
pub open spec fn seq_contains_key<T>(s: Seq<(u64, T)>, k: u64) -> bool {
    exists|i: int| 0 <= i < s.len() && s[i].0 == k
}

/// The index of the entry with key `k`; meaningful when the key is present
/// and keys are unique.
pub open spec fn key_index<T>(s: Seq<(u64, T)>, k: u64) -> int {
    choose|i: int| 0 <= i < s.len() && s[i].0 == k
}

/// The record stored under key `k`, if any.
pub open spec fn seq_get<T>(s: Seq<(u64, T)>, k: u64) -> Option<T> {
    if seq_contains_key(s, k) {
        Some(s[key_index(s, k)].1)
    } else {
        None
    }
}

/// Keys strictly increase along the entry sequence: sorted, hence unique.
pub open spec fn sorted_keys<T>(s: Seq<(u64, T)>) -> bool {
    forall|i: int, j: int| 0 <= i < j < s.len() ==> s[i].0 < s[j].0
}

/// With sorted keys, an entry holding key `k` is the one `key_index` names.
pub proof fn lemma_key_index_unique<T>(s: Seq<(u64, T)>, i: int, k: u64)
    requires
        sorted_keys(s),
        0 <= i < s.len(),
        s[i].0 == k,
    ensures
        seq_contains_key(s, k),
        key_index(s, k) == i,
        seq_get(s, k) == Some(s[i].1),
{
    assert(seq_contains_key(s, k));
    let j = key_index(s, k);
    if j < i {
        assert(s[j].0 < s[i].0);
    } else if j > i {
        assert(s[i].0 < s[j].0);
    }
}

/// Replacing the record at index `i` (keeping its key) leaves every other
/// key's record unchanged.
pub proof fn lemma_update_preserves_others<T>(s: Seq<(u64, T)>, i: int, p: (u64, T))
    requires
        sorted_keys(s),
        0 <= i < s.len(),
        p.0 == s[i].0,
    ensures
        sorted_keys(s.update(i, p)),
        seq_get(s.update(i, p), p.0) == Some(p.1),
        forall|k2: u64| k2 != p.0 ==> seq_get(s.update(i, p), k2) == seq_get(s, k2),
{
    let t = s.update(i, p);
    assert(forall|j: int| 0 <= j < s.len() ==> t[j].0 == s[j].0);
    lemma_key_index_unique(t, i, p.0);
    assert forall|k2: u64| k2 != p.0 implies seq_get(t, k2) == seq_get(s, k2) by {
        if seq_contains_key(s, k2) {
            let j = key_index(s, k2);
            lemma_key_index_unique(s, j, k2);
            assert(t[j] == s[j]);
            lemma_key_index_unique(t, j, k2);
        } else {
            if seq_contains_key(t, k2) {
                let j = key_index(t, k2);
                assert(s[j].0 == k2);
            }
        }
    }
}

/// Inserting a fresh key at its sorted position leaves every other key's
/// record unchanged.
pub proof fn lemma_insert_preserves_others<T>(s: Seq<(u64, T)>, i: int, p: (u64, T))
    requires
        sorted_keys(s),
        0 <= i <= s.len(),
        forall|j: int| 0 <= j < i ==> s[j].0 < p.0,
        forall|j: int| i <= j < s.len() ==> s[j].0 > p.0,
    ensures
        sorted_keys(s.insert(i, p)),
        seq_get(s.insert(i, p), p.0) == Some(p.1),
        !seq_contains_key(s, p.0),
        forall|k2: u64| k2 != p.0 ==> seq_get(s.insert(i, p), k2) == seq_get(s, k2),
{
    let t = s.insert(i, p);
    assert(forall|j: int| 0 <= j < i ==> t[j] == s[j]);
    assert(forall|j: int| i < j < t.len() ==> t[j] == s[j - 1]);
    assert(t[i] == p);
    assert forall|a: int, b: int| 0 <= a < b < t.len() implies t[a].0 < t[b].0 by {
        if a < i && b > i {
            assert(t[a].0 < p.0 && t[b].0 == s[b - 1].0);
        }
    }
    lemma_key_index_unique(t, i, p.0);
    assert forall|k2: u64| k2 != p.0 implies seq_get(t, k2) == seq_get(s, k2) by {
        if seq_contains_key(s, k2) {
            let j = key_index(s, k2);
            lemma_key_index_unique(s, j, k2);
            let j2 = if j < i { j } else { j + 1 };
            assert(t[j2] == s[j]);
            lemma_key_index_unique(t, j2, k2);
        } else {
            if seq_contains_key(t, k2) {
                let j2 = key_index(t, k2);
                assert(j2 != i);
                let j = if j2 < i { j2 } else { j2 - 1 };
                assert(s[j].0 == k2);
            }
        }
    }
}

/// Removing the entry at index `i` leaves every other key's record unchanged.
pub proof fn lemma_remove_preserves_others<T>(s: Seq<(u64, T)>, i: int)
    requires
        sorted_keys(s),
        0 <= i < s.len(),
    ensures
        sorted_keys(s.remove(i)),
        !seq_contains_key(s.remove(i), s[i].0),
        forall|k2: u64| k2 != s[i].0 ==> seq_get(s.remove(i), k2) == seq_get(s, k2),
{
    let t = s.remove(i);
    assert(forall|j: int| 0 <= j < i ==> t[j] == s[j]);
    assert(forall|j: int| i <= j < t.len() ==> t[j] == s[j + 1]);
    assert forall|a: int, b: int| 0 <= a < b < t.len() implies t[a].0 < t[b].0 by {}
    if seq_contains_key(t, s[i].0) {
        let j2 = key_index(t, s[i].0);
        let j = if j2 < i { j2 } else { j2 + 1 };
        assert(s[j].0 == s[i].0 && j != i);
    }
    assert forall|k2: u64| k2 != s[i].0 implies seq_get(t, k2) == seq_get(s, k2) by {
        if seq_contains_key(s, k2) {
            let j = key_index(s, k2);
            lemma_key_index_unique(s, j, k2);
            let j2 = if j < i { j } else { j - 1 };
            assert(t[j2] == s[j]);
            lemma_key_index_unique(t, j2, k2);
        } else {
            if seq_contains_key(t, k2) {
                let j2 = key_index(t, k2);
                let j = if j2 < i { j2 } else { j2 + 1 };
                assert(s[j].0 == k2);
            }
        }
    }
}

/// The records of `s` that satisfy `p`, in key order.
pub open spec fn filtered_vals<T>(s: Seq<(u64, T)>, p: spec_fn(T) -> bool) -> Seq<T>
    decreases s.len(),
{
    if s.len() == 0 {
        Seq::empty()
    } else {
        let rest = filtered_vals(s.drop_last(), p);
        if p(s.last().1) {
            rest.push(s.last().1)
        } else {
            rest
        }
    }
}

/// A mapping from `u64` keys to records, iterated in key order.
///
/// Records are written by full replacement: `insert` stores a whole record
/// under its key and hands back the record it displaced, so no partial
/// in-place mutation is visible across operations. Inserting a record and
/// immediately getting its key returns that record; removing it and getting
/// again returns nothing.
pub struct StoreMap<V> {
    pub entries: Vec<(u64, V)>,
}

impl<V: View> View for StoreMap<V> {
    type V = Seq<(u64, V::V)>;

    open spec fn view(&self) -> Seq<(u64, V::V)> {
        Seq::new(self.entries@.len(), |i: int| (self.entries@[i].0, self.entries@[i].1@))
    }
}

impl<V: View> StoreMap<V> {
    /// Well-formed: entries are strictly sorted by key.
    pub open spec fn wf(&self) -> bool {
        sorted_keys(self@)
    }

    /// An empty store.
    pub fn new() -> (s: Self)
        ensures
            s@ =~= Seq::<(u64, V::V)>::empty(),
            s.wf(),
    {
        StoreMap { entries: Vec::new() }
    }

    /// How many records the store holds.
    pub fn len(&self) -> (n: usize)
        ensures
            n == self@.len(),
    {
        self.entries.len()
    }

    /// The key of the `i`-th entry in key order.
    pub fn key_at(&self, i: usize) -> (k: u64)
        requires
            i < self@.len(),
        ensures
            k == self@[i as int].0,
    {
        self.entries[i].0
    }

    /// The record of the `i`-th entry in key order.
    pub fn val_at(&self, i: usize) -> (v: &V)
        requires
            i < self@.len(),
        ensures
            v@ == self@[i as int].1,
    {
        &self.entries[i].1
    }

    /// The record stored under `key`, if any.
    pub fn get(&self, key: u64) -> (r: Option<&V>)
        requires
            self.wf(),
        ensures
            match r {
                Some(v) => seq_get(self@, key) == Some(v@),
                None => seq_get(self@, key) is None,
            },
    {
        let n = self.entries.len();
        let mut i: usize = 0;
        while i < n
            invariant
                n == self@.len(),
                i <= n,
                self.wf(),
                forall|j: int| 0 <= j < i ==> self@[j].0 != key,
            decreases n - i,
        {
            let entry = &self.entries[i];
            if entry.0 == key {
                proof {
                    lemma_key_index_unique(self@, i as int, key);
                }
                return Some(&entry.1);
            }
            i = i + 1;
        }
        proof {
            if seq_contains_key(self@, key) {
                let j = key_index(self@, key);
                assert(self@[j].0 == key);
            }
        }
        None
    }

    /// The index of the first entry whose key is not below `key`.
    fn lower_bound(&self, key: u64) -> (idx: usize)
        requires
            self.wf(),
        ensures
            idx <= self@.len(),
            forall|j: int| 0 <= j < idx ==> self@[j].0 < key,
            idx < self@.len() ==> self@[idx as int].0 >= key,
    {
        let n = self.entries.len();
        let mut i: usize = 0;
        while i < n && self.entries[i].0 < key
            invariant
                n == self@.len(),
                i <= n,
                forall|j: int| 0 <= j < i ==> self@[j].0 < key,
            decreases n - i,
        {
            i = i + 1;
        }
        i
    }

    /// Stores `value` under `key`, replacing and returning any record that
    /// was there. Afterwards `key` maps to `value` and every other key maps
    /// to what it mapped to before.
    pub fn insert(&mut self, key: u64, value: V) -> (prev: Option<V>)
        requires
            old(self).wf(),
        ensures
            final(self).wf(),
            seq_get(final(self)@, key) == Some(value@),
            forall|k2: u64| k2 != key ==> seq_get(final(self)@, k2) == seq_get(old(self)@, k2),
            match prev {
                Some(p) => {
                    &&& seq_get(old(self)@, key) == Some(p@)
                    &&& final(self)@ == old(self)@.update(key_index(old(self)@, key), (key, value@))
                },
                None => {
                    &&& seq_get(old(self)@, key) is None
                    &&& exists|i: int|
                        0 <= i <= old(self)@.len() && final(self)@ == old(self)@.insert(
                            i,
                            (key, value@),
                        )
                },
            },
            final(self)@.len() == old(self)@.len() + (
            if seq_contains_key(old(self)@, key) {
                0int
            } else {
                1int
            }),
    {
        let ghost s0 = self@;
        let idx = self.lower_bound(key);
        let n = self.entries.len();
        if idx < n && self.entries[idx].0 == key {
            let mut pair = (key, value);
            self.entries.set_and_swap(idx, &mut pair);
            proof {
                lemma_key_index_unique(s0, idx as int, key);
                lemma_update_preserves_others(s0, idx as int, (key, value@));
                assert(self@ =~= s0.update(idx as int, (key, value@)));
            }
            Some(pair.1)
        } else {
            self.entries.insert(idx, (key, value));
            proof {
                assert forall|j: int| idx <= j < s0.len() implies s0[j].0 > key by {
                    if j > idx {
                        assert(s0[idx as int].0 < s0[j].0);
                    }
                }
                lemma_insert_preserves_others(s0, idx as int, (key, value@));
                assert(self@ =~= s0.insert(idx as int, (key, value@)));
            }
            None
        }
    }

    /// Removes and returns the record stored under `key`, if any. Afterwards
    /// `key` maps to nothing and every other key maps to what it mapped to
    /// before.
    pub fn remove(&mut self, key: u64) -> (r: Option<V>)
        requires
            old(self).wf(),
        ensures
            final(self).wf(),
            seq_get(final(self)@, key) is None,
            forall|k2: u64| k2 != key ==> seq_get(final(self)@, k2) == seq_get(old(self)@, k2),
            match r {
                Some(v) => {
                    &&& seq_get(old(self)@, key) == Some(v@)
                    &&& final(self)@ == old(self)@.remove(key_index(old(self)@, key))
                },
                None => {
                    &&& seq_get(old(self)@, key) is None
                    &&& final(self)@ == old(self)@
                },
            },
            final(self)@.len() + (
            if seq_contains_key(old(self)@, key) {
                1int
            } else {
                0int
            }) == old(self)@.len(),
    {
        let ghost s0 = self@;
        let idx = self.lower_bound(key);
        let n = self.entries.len();
        if idx < n && self.entries[idx].0 == key {
            let (_, v) = self.entries.remove(idx);
            proof {
                lemma_key_index_unique(s0, idx as int, key);
                lemma_remove_preserves_others(s0, idx as int);
                assert(self@ =~= s0.remove(idx as int));
            }
            Some(v)
        } else {
            proof {
                if seq_contains_key(s0, key) {
                    let j = key_index(s0, key);
                    assert(s0[j].0 == key);
                    if j > idx {
                        assert(s0[idx as int].0 < s0[j].0);
                    }
                }
                assert(self@ =~= s0);
            }
            None
        }
    }

    /// Replaces the record of the `i`-th entry, keeping its key.
    pub fn update_at(&mut self, i: usize, value: V)
        requires
            old(self).wf(),
            i < old(self)@.len(),
        ensures
            final(self).wf(),
            final(self)@ == old(self)@.update(i as int, (old(self)@[i as int].0, value@)),
    {
        let ghost s0 = self@;
        let k = self.entries[i].0;
        self.entries.set(i, (k, value));
        proof {
            lemma_update_preserves_others(s0, i as int, (k, value@));
            assert(self@ =~= s0.update(i as int, (k, value@)));
        }
    }

    /// Removes the `i`-th entry, returning its record.
    pub fn remove_at(&mut self, i: usize) -> (r: V)
        requires
            old(self).wf(),
            i < old(self)@.len(),
        ensures
            final(self).wf(),
            final(self)@ == old(self)@.remove(i as int),
            r@ == old(self)@[i as int].1,
    {
        let ghost s0 = self@;
        let (_, v) = self.entries.remove(i);
        proof {
            lemma_remove_preserves_others(s0, i as int);
            assert(self@ =~= s0.remove(i as int));
        }
        v
    }
}

} // verus!
