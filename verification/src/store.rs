//! Sets and maps keyed by 32-byte values.
//!
//! Both keep their entries in insertion order and find a key by scanning, so
//! that what they hold can be stated and proved as a mathematical set or map.

use vstd::prelude::*;
use crate::bytes::{copy_hashes, hash_eq, lemma_views_push, views};

verus! {

/// A set of 32-byte values.
pub struct KeySet {
    items: Vec<[u8; 32]>,
}

impl View for KeySet {
    type V = Set<Seq<u8>>;

    closed spec fn view(&self) -> Set<Seq<u8>> {
        views(self.items@).to_set()
    }
}

impl KeySet {
    /// The empty set.
    pub fn new() -> (s: Self)
        ensures
            s@ == Set::<Seq<u8>>::empty(),
    {
        let s = KeySet { items: Vec::new() };
        assert(s@ =~= Set::<Seq<u8>>::empty());
        s
    }

    /// The set of the values of `items`.
    pub fn from_vec(items: Vec<[u8; 32]>) -> (s: Self)
        ensures
            s@ == views(items@).to_set(),
    {
        KeySet { items }
    }

    /// The values of the set, each at least once.
    pub fn to_vec(&self) -> (items: Vec<[u8; 32]>)
        ensures
            views(items@).to_set() == self@,
    {
        copy_hashes(&self.items)
    }

    /// Whether `key` is in the set.
    pub fn contains(&self, key: &[u8; 32]) -> (found: bool)
        ensures
            found == self@.contains(key@),
    {
        let mut i: usize = 0;
        while i < self.items.len()
            invariant
                i <= self.items@.len(),
                forall|j: int| 0 <= j < i ==> views(self.items@)[j] != key@,
            decreases self.items@.len() - i,
        {
            if hash_eq(&self.items[i], key) {
                assert(views(self.items@)[i as int] == key@);
                return true;
            }
            i += 1;
        }
        false
    }

    /// Adds `key` to the set.
    pub fn insert(&mut self, key: [u8; 32])
        ensures
            final(self)@ == old(self)@.insert(key@),
    {
        if self.contains(&key) {
            assert(self@ =~= self@.insert(key@));
        } else {
            let ghost before = self.items@;
            self.items.push(key);
            proof {
                lemma_views_push(before, key);
                let after = views(before).push(key@);
                assert forall|k: Seq<u8>| after.to_set().contains(k) <==> views(
                    before,
                ).to_set().insert(key@).contains(k) by {
                    if views(before).contains(k) {
                        let i = choose|i: int| 0 <= i < before.len() && views(before)[i] == k;
                        assert(after[i] == k);
                    }
                    if k == key@ {
                        assert(after[before.len() as int] == k);
                    }
                }
                assert(self@ =~= old(self)@.insert(key@));
            }
        }
    }
}

/// A map from 32-byte keys to values.
///
/// Of the entries held for one key the last counts.
pub struct KeyMap<V> {
    entries: Vec<([u8; 32], V)>,
}

/// The keys of a list of entries.
pub open spec fn entry_keys<V>(entries: Seq<([u8; 32], V)>) -> Seq<Seq<u8>> {
    Seq::new(entries.len(), |i: int| entries[i].0@)
}

/// Whether `i` is the last position of `k` in `keys`.
pub open spec fn is_last(keys: Seq<Seq<u8>>, k: Seq<u8>, i: int) -> bool {
    &&& 0 <= i < keys.len()
    &&& keys[i] == k
    &&& forall|j: int| i < j < keys.len() ==> keys[j] != k
}

/// The last position of `k` in `keys`.
pub open spec fn last_index(keys: Seq<Seq<u8>>, k: Seq<u8>) -> int {
    choose|i: int| is_last(keys, k, i)
}

proof fn lemma_last_exists(keys: Seq<Seq<u8>>, k: Seq<u8>)
    requires
        keys.contains(k),
    ensures
        is_last(keys, k, last_index(keys, k)),
    decreases keys.len(),
{
    let n = keys.len() as int;
    if keys[n - 1] == k {
        assert(is_last(keys, k, n - 1));
    } else {
        let shorter = keys.drop_last();
        let at = choose|i: int| 0 <= i < keys.len() && keys[i] == k;
        assert(shorter[at] == k);
        lemma_last_exists(shorter, k);
        let i = last_index(shorter, k);
        assert forall|j: int| i < j < keys.len() implies keys[j] != k by {
            if j < n - 1 {
                assert(shorter[j] == keys[j]);
            }
        }
        assert(keys[i] == shorter[i]);
        assert(is_last(keys, k, i));
    }
}

proof fn lemma_last_unique(keys: Seq<Seq<u8>>, k: Seq<u8>, i: int)
    requires
        is_last(keys, k, i),
    ensures
        last_index(keys, k) == i,
{
    let j = last_index(keys, k);
    assert(is_last(keys, k, j));
    if j < i {
    } else if i < j {
    }
}

/// The map that a list of entries stands for: it holds a value for every key
/// of the list, and for each key the value of its last entry.
pub open spec fn entries_map<V>(entries: Seq<([u8; 32], V)>) -> Map<Seq<u8>, V> {
    Map::new(
        |k: Seq<u8>| entry_keys(entries).contains(k),
        |k: Seq<u8>| entries[last_index(entry_keys(entries), k)].1,
    )
}

impl<V> View for KeyMap<V> {
    type V = Map<Seq<u8>, V>;

    closed spec fn view(&self) -> Map<Seq<u8>, V> {
        entries_map(self.entries@)
    }
}

impl<V> KeyMap<V> {
    /// The keys of the entries held, in the order they are held.
    pub closed spec fn keys(&self) -> Seq<Seq<u8>> {
        entry_keys(self.entries@)
    }

    /// The keys held are the keys of the map.
    pub proof fn lemma_keys(&self)
        ensures
            forall|k: Seq<u8>| self@.contains_key(k) <==> self.keys().contains(k),
    {
    }
}

impl<V: Copy> KeyMap<V> {
    /// The empty map.
    pub fn new() -> (m: Self)
        ensures
            m@ == Map::<Seq<u8>, V>::empty(),
    {
        let m = KeyMap { entries: Vec::new() };
        assert(m@ =~= Map::<Seq<u8>, V>::empty());
        m
    }

    /// The map that `entries` stand for.
    pub fn from_entries(entries: Vec<([u8; 32], V)>) -> (m: Self)
        ensures
            m@ == entries_map(entries@),
    {
        KeyMap { entries }
    }

    /// Entries that stand for the map.
    pub fn to_entries(&self) -> (entries: Vec<([u8; 32], V)>)
        ensures
            entries_map(entries@) == self@,
    {
        let mut out: Vec<([u8; 32], V)> = Vec::new();
        let mut i: usize = 0;
        while i < self.entries.len()
            invariant
                i <= self.entries@.len(),
                out@ == self.entries@.subrange(0, i as int),
            decreases self.entries@.len() - i,
        {
            out.push(self.entries[i]);
            assert(self.entries@.subrange(0, i + 1) =~= self.entries@.subrange(0, i as int).push(
                self.entries@[i as int],
            ));
            i += 1;
        }
        assert(self.entries@.subrange(0, i as int) =~= self.entries@);
        out
    }

    /// The number of entries held.
    pub fn len(&self) -> (n: usize)
        ensures
            n == self.keys().len(),
    {
        self.entries.len()
    }

    /// The key of entry `i`.
    pub fn key_at(&self, i: usize) -> (key: [u8; 32])
        requires
            i < self.keys().len(),
        ensures
            key@ == self.keys()[i as int],
    {
        self.entries[i].0
    }

    fn position(&self, key: &[u8; 32]) -> (at: Option<usize>)
        ensures
            match at {
                Some(i) => is_last(entry_keys(self.entries@), key@, i as int),
                None => !entry_keys(self.entries@).contains(key@),
            },
    {
        let mut i: usize = self.entries.len();
        while i > 0
            invariant
                i <= self.entries@.len(),
                forall|j: int|
                    i <= j < self.entries@.len() ==> entry_keys(self.entries@)[j] != key@,
            decreases i,
        {
            i -= 1;
            if hash_eq(&self.entries[i].0, key) {
                return Some(i);
            }
        }
        None
    }

    /// The value held for `key`, if any.
    pub fn get(&self, key: &[u8; 32]) -> (found: Option<V>)
        ensures
            found == (if self@.contains_key(key@) {
                Some(self@[key@])
            } else {
                None
            }),
    {
        match self.position(key) {
            Some(i) => {
                proof {
                    let ks = entry_keys(self.entries@);
                    assert(ks[i as int] == key@);
                    lemma_last_unique(ks, key@, i as int);
                }
                Some(self.entries[i].1)
            },
            None => None,
        }
    }

    /// Whether a value is held for `key`.
    pub fn contains_key(&self, key: &[u8; 32]) -> (found: bool)
        ensures
            found == self@.contains_key(key@),
    {
        match self.position(key) {
            Some(i) => {
                assert(entry_keys(self.entries@)[i as int] == key@);
                true
            },
            None => false,
        }
    }

    /// Holds `value` for `key` from now on, whatever was held before.
    pub fn insert(&mut self, key: [u8; 32], value: V)
        ensures
            final(self)@ == old(self)@.insert(key@, value),
    {
        let ghost ks = entry_keys(self.entries@);
        let ghost es = self.entries@;
        match self.position(&key) {
            Some(i) => {
                self.entries[i] = (key, value);
                proof {
                    let ks2 = entry_keys(self.entries@);
                    assert(ks[i as int] == key@);
                    assert(ks2 =~= ks);
                    assert forall|k: Seq<u8>| ks.contains(k) implies #[trigger] self@[k] == old(self)@.insert(key@, value)[k] by {
                        lemma_last_exists(ks, k);
                        if k == key@ {
                            lemma_last_unique(ks, k, i as int);
                        }
                    }
                    assert(self@ =~= old(self)@.insert(key@, value));
                }
            },
            None => {
                self.entries.push((key, value));
                proof {
                    let n = ks.len() as int;
                    let ks2 = entry_keys(self.entries@);
                    assert(ks2 =~= ks.push(key@));
                    assert forall|k: Seq<u8>| ks2.contains(k) <==> (ks.contains(k) || k == key@) by {
                        if ks.contains(k) {
                            let at = choose|i: int| 0 <= i < ks.len() && ks[i] == k;
                            assert(ks2[at] == k);
                        }
                        if k == key@ {
                            assert(ks2[n] == k);
                        }
                    }
                    assert forall|k: Seq<u8>| ks2.contains(k) implies #[trigger] self@[k] == old(self)@.insert(key@, value)[k] by {
                        if k == key@ {
                            assert(is_last(ks2, k, n));
                            lemma_last_unique(ks2, k, n);
                        } else {
                            lemma_last_exists(ks, k);
                            let at = last_index(ks, k);
                            assert(is_last(ks2, k, at));
                            lemma_last_unique(ks2, k, at);
                        }
                    }
                    assert(self@ =~= old(self)@.insert(key@, value));
                }
            },
        }
    }
}

} // verus!
