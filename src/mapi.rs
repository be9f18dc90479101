//! An in-memory ordered map with the same calls as the persistent map, for
//! tests and prototypes that need no disk.
use vstd::prelude::*;
use std::collections::BTreeMap;

use crate::codec::keys_ascending;
use crate::error::StoreError;
use crate::guard::{Entry, ValueMut};
use vstd::std_specs::btree::increasing_seq;
use vstd::std_specs::iter::IteratorSpec;
use vstd::std_specs::cmp::OrdSpec;

verus! {

broadcast use vstd::std_specs::btree::group_btree_axioms, vstd::laws_cmp::group_laws_cmp;

/// A map from keys to byte-string values, held in memory.
pub struct Mapi {
    inner: BTreeMap<u64, Vec<u8>>,
}

impl View for Mapi {
    type V = Map<u64, Seq<u8>>;

    closed spec fn view(&self) -> Map<u64, Seq<u8>> {
        self.inner@.map_values(|v: Vec<u8>| v@)
    }
}

impl Mapi {
    /// A map holds finitely many keys.
    pub proof fn lemma_dom_finite(&self)
        ensures
            self@.dom().finite(),
    {
        assert(self@.dom() =~= self.inner@.dom());
    }

    /// The entries in ascending key order.
    pub fn iter(&self) -> (r: Vec<(u64, Vec<u8>)>)
        ensures
            keys_ascending(r@),
            r@.len() == self@.dom().len(),
            forall|i: int|
                0 <= i < r@.len() ==> self@.contains_key((#[trigger] r@[i]).0) && self@[r@[i].0]
                    == r@[i].1@,
            forall|k: u64| #[trigger]
                self@.contains_key(k) ==> exists|i: int| 0 <= i < r@.len() && (#[trigger] r@[i]).0 == k,
    {
        let mut out: Vec<(u64, Vec<u8>)> = Vec::new();
        let entries = self.inner.iter();
        let ghost rem = entries.remaining();
        proof {
            assert(increasing_seq(rem.map_values(|kv: (&u64, &Vec<u8>)| *kv.0)));
            assert(rem.len() == self.inner@.dom().len());
        }
        for kv in it: entries
            invariant
                it.seq() == rem,
                out@.len() == it.index(),
                forall|j: int|
                    0 <= j < out@.len() ==> (#[trigger] out@[j]).0 == *it.seq()[j].0 && out@[j].1@
                        == it.seq()[j].1@,
        {
            let v = kv.1.clone();
            assert(v@ =~= kv.1@);
            out.push((*kv.0, v));
        }
        proof {
            assert(self@.dom() =~= self.inner@.dom());
            let keys = rem.map_values(|kv: (&u64, &Vec<u8>)| *kv.0);
            assert forall|i: int, j: int| 0 <= i < j < out@.len() implies (#[trigger] out@[i]).0
                < (#[trigger] out@[j]).0 by {
                assert(keys[i] == out@[i].0 && keys[j] == out@[j].0);
                assert(keys[i].cmp_spec(&keys[j]) is Less);
            }
            assert forall|k: u64| #[trigger] self@.contains_key(k) implies exists|i: int|
                0 <= i < out@.len() && (#[trigger] out@[i]).0 == k by {
                assert(rem.contains((&k, &self.inner@[k])));
                let i = choose|i: int| 0 <= i < rem.len() && rem[i] == (&k, &self.inner@[k]);
                assert(out@[i].0 == k);
            }
        }
        out
    }

    /// An empty map; the path is ignored, as nothing is stored on disk.
    pub fn new(_path: &str) -> (r: Result<Self, StoreError>)
        ensures
            r is Ok,
            r->Ok_0@ == Map::<u64, Seq<u8>>::empty(),
    {
        let inner: BTreeMap<u64, Vec<u8>> = BTreeMap::new();
        let r = Mapi { inner };
        assert(r@ =~= Map::<u64, Seq<u8>>::empty());
        Ok(r)
    }

    /// A copy of the value under `key`.
    pub fn get(&self, key: &u64) -> (r: Option<Vec<u8>>)
        ensures
            r is Some <==> self@.contains_key(*key),
            r is Some ==> r->Some_0@ == self@[*key],
    {
        match self.inner.get(key) {
            Some(v) => {
                let c = v.clone();
                assert(c@ =~= v@);
                Some(c)
            },
            None => None,
        }
    }

    pub fn contains_key(&self, key: &u64) -> (r: bool)
        ensures
            r == self@.contains_key(*key),
    {
        self.inner.contains_key(key)
    }

    /// The number of keys that hold a value.
    pub fn len(&self) -> (r: usize)
        ensures
            self@.dom().finite(),
            r == self@.len(),
    {
        assert(self@.dom() =~= self.inner@.dom());
        self.inner.len()
    }

    pub fn is_empty(&self) -> (r: bool)
        ensures
            self@.dom().finite(),
            r == (self@.len() == 0),
    {
        assert(self@.dom() =~= self.inner@.dom());
        self.inner.is_empty()
    }

    /// Puts `value` under `key` and returns the value it replaced.
    pub fn insert(&mut self, key: u64, value: Vec<u8>) -> (r: Option<Vec<u8>>)
        ensures
            final(self)@ == old(self)@.insert(key, value@),
            final(self)@.len() == old(self)@.len() + if old(self)@.contains_key(key) {
                0nat
            } else {
                1nat
            },
            r is Some <==> old(self)@.contains_key(key),
            r is Some ==> r->Some_0@ == old(self)@[key],
    {
        let ghost v = value@;
        let r = self.inner.insert(key, value);
        assert(self@ =~= old(self)@.insert(key, v));
        proof {
            old(self).lemma_dom_finite();
            lemma_len_tracks_keys(old(self)@, key, v);
        }
        r
    }

    /// Puts `value` under `key`, dropping what it replaced.
    pub fn set_value(&mut self, key: u64, value: Vec<u8>)
        ensures
            final(self)@ == old(self)@.insert(key, value@),
            final(self)@.len() == old(self)@.len() + if old(self)@.contains_key(key) {
                0nat
            } else {
                1nat
            },
    {
        self.insert(key, value);
    }

    /// Takes the value under `key` out of the map.
    pub fn remove(&mut self, key: &u64) -> (r: Option<Vec<u8>>)
        ensures
            final(self)@ == old(self)@.remove(*key),
            final(self)@.len() == old(self)@.len() - if old(self)@.contains_key(*key) {
                1int
            } else {
                0int
            },
            r is Some <==> old(self)@.contains_key(*key),
            r is Some ==> r->Some_0@ == old(self)@[*key],
    {
        let r = self.inner.remove(key);
        assert(self@ =~= old(self)@.remove(*key));
        proof {
            old(self).lemma_dom_finite();
            lemma_len_tracks_keys(old(self)@, *key, seq![]);
        }
        r
    }

    /// Deletes `key` and its value.
    pub fn unset_value(&mut self, key: &u64)
        ensures
            final(self)@ == old(self)@.remove(*key),
            final(self)@.len() == old(self)@.len() - if old(self)@.contains_key(*key) {
                1int
            } else {
                0int
            },
    {
        self.remove(key);
    }

    /// A guard over a copy of the value under `key`, if there is one.
    pub fn get_mut(&self, key: &u64) -> (r: Option<ValueMut>)
        ensures
            r is Some <==> self@.contains_key(*key),
            r is Some ==> r->Some_0.key() == *key && r->Some_0.value() == self@[*key],
    {
        match self.get(key) {
            Some(v) => Some(ValueMut::new(*key, v)),
            None => None,
        }
    }

    /// Hands a guard in: its value goes back under its key.
    pub fn write_back(&mut self, guard: ValueMut)
        ensures
            final(self)@ == old(self)@.insert(guard.key(), guard.value()),
    {
        let (k, v) = guard.into_parts();
        self.set_value(k, v);
    }

    /// The entry of `key`, for a conditional insert.
    pub fn entry(&self, key: u64) -> (r: Entry)
        ensures
            r.key() == key,
    {
        Entry::new(key)
    }

    /// The entry with the smallest key at or above `key`.
    pub fn get_closest_larger(&self, key: &u64) -> (r: Option<(u64, Vec<u8>)>)
        ensures
            r is None <==> forall|k: u64| #[trigger] self@.contains_key(k) ==> k < *key,
            r is Some ==> {
                let (k, v) = r->Some_0;
                &&& k >= *key
                &&& self@.contains_key(k)
                &&& self@[k] == v@
                &&& forall|j: u64| #[trigger] self@.contains_key(j) && j >= *key ==> k <= j
            },
    {
        let mut es = self.iter();
        let n = es.len();
        let mut i: usize = 0;
        while i < n && es[i].0 < *key
            invariant
                n == es@.len(),
                i <= n,
                keys_ascending(es@),
                forall|j: int| 0 <= j < i ==> (#[trigger] es@[j]).0 < *key,
            decreases n - i,
        {
            i = i + 1;
        }
        if i == n {
            proof {
                assert forall|k: u64| #[trigger] self@.contains_key(k) implies k < *key by {
                    let j = choose|j: int| 0 <= j < es@.len() && (#[trigger] es@[j]).0 == k;
                }
            }
            None
        } else {
            let ghost all = es@;
            let (k, v) = es.swap_remove(i);
            proof {
                assert forall|j: u64| #[trigger] self@.contains_key(j) && j >= *key implies k <= j by {
                    let t = choose|t: int| 0 <= t < all.len() && (#[trigger] all[t]).0 == j;
                    if t > i as int {
                        assert(all[i as int].0 < all[t].0);
                    }
                }
            }
            Some((k, v))
        }
    }

    /// The entries with keys from `start` up to, not including, `end`, in
    /// ascending key order.
    pub fn range(&self, start: u64, end: u64) -> (r: Vec<(u64, Vec<u8>)>)
        ensures
            keys_ascending(r@),
            forall|i: int|
                0 <= i < r@.len() ==> start <= (#[trigger] r@[i]).0 < end && self@.contains_key(
                    r@[i].0,
                ) && self@[r@[i].0] == r@[i].1@,
            forall|k: u64| #[trigger]
                self@.contains_key(k) && start <= k < end ==> exists|i: int|
                    0 <= i < r@.len() && (#[trigger] r@[i]).0 == k,
    {
        if end == 0 {
            Vec::new()
        } else {
            self.range_inclusive(start, end - 1)
        }
    }

    /// The entries with keys from `start` up to and including `end`, in
    /// ascending key order.
    #[verifier::rlimit(100)]
    pub fn range_inclusive(&self, start: u64, end: u64) -> (r: Vec<(u64, Vec<u8>)>)
        ensures
            keys_ascending(r@),
            forall|i: int|
                0 <= i < r@.len() ==> start <= (#[trigger] r@[i]).0 <= end && self@.contains_key(
                    r@[i].0,
                ) && self@[r@[i].0] == r@[i].1@,
            forall|k: u64| #[trigger]
                self@.contains_key(k) && start <= k <= end ==> exists|i: int|
                    0 <= i < r@.len() && (#[trigger] r@[i]).0 == k,
    {
        let mut es = self.iter();
        let ghost all = es@;
        let mut out: Vec<(u64, Vec<u8>)> = Vec::new();
        let n = es.len();
        let mut i: usize = 0;
        while i < n
            invariant
                n == all.len(),
                es@.len() == n,
                i <= n,
                forall|j: int| i <= j < n ==> #[trigger] es@[j] == all[j],
                keys_ascending(all),
                keys_ascending(out@),
                forall|j: int| 0 <= j < out@.len() ==> start <= (#[trigger] out@[j]).0 <= end,
                out@.len() > 0 ==> (i > 0 && out@.last().0 <= all[i - 1].0),
                forall|j: int|
                    0 <= j < out@.len() ==> exists|t: int|
                        0 <= t < i && all[t].0 == (#[trigger] out@[j]).0 && all[t].1@ == out@[j].1@,
                forall|t: int|
                    0 <= t < i && start <= (#[trigger] all[t]).0 <= end ==> exists|j: int|
                        0 <= j < out@.len() && (#[trigger] out@[j]).0 == all[t].0,
            decreases n - i,
        {
            let k = es[i].0;
            if start <= k && k <= end {
                let mut v: Vec<u8> = Vec::new();
                std::mem::swap(&mut v, &mut es[i].1);
                proof {
                    assert(v@ == all[i as int].1@);
                }
                let ghost before = out@;
                out.push((k, v));
                proof {
                    assert(out@[before.len() as int].0 == all[i as int].0);
                    assert forall|a: int, b: int| 0 <= a < b < out@.len() implies (#[trigger] out@[a]).0
                        < (#[trigger] out@[b]).0 by {
                        if b == before.len() && a < b {
                            let t = choose|t: int|
                                0 <= t < i && all[t].0 == (#[trigger] before[a]).0 && all[t].1@
                                    == before[a].1@;
                            assert(all[t].0 < all[i as int].0);
                        }
                    }
                    assert forall|j: int| 0 <= j < out@.len() implies exists|t: int|
                        0 <= t < i + 1 && all[t].0 == (#[trigger] out@[j]).0 && all[t].1@
                            == out@[j].1@ by {
                        if j < before.len() {
                            let t = choose|t: int|
                                0 <= t < i && all[t].0 == (#[trigger] before[j]).0 && all[t].1@
                                    == before[j].1@;
                        } else {
                            assert(all[i as int].0 == out@[j].0);
                        }
                    }
                    assert forall|t: int| 0 <= t < i + 1 && start <= (#[trigger] all[t]).0 <= end
                        implies exists|j: int| 0 <= j < out@.len() && (#[trigger] out@[j]).0 == all[t].0 by {
                        if t < i {
                            let j = choose|j: int| 0 <= j < before.len() && (#[trigger] before[j]).0 == all[t].0;
                            assert(out@[j] == before[j]);
                        } else {
                            assert(out@[before.len() as int].0 == all[t].0);
                        }
                    }
                }
            }
            i = i + 1;
        }
        proof {
            assert forall|i: int| 0 <= i < out@.len() implies self@.contains_key((#[trigger] out@[i]).0)
                && self@[out@[i].0] == out@[i].1@ by {
                let t = choose|t: int|
                    0 <= t < n && all[t].0 == (#[trigger] out@[i]).0 && all[t].1@ == out@[i].1@;
            }
            assert forall|k: u64| #[trigger] self@.contains_key(k) && start <= k <= end implies exists|i: int|
                0 <= i < out@.len() && (#[trigger] out@[i]).0 == k by {
                let t = choose|t: int| 0 <= t < all.len() && (#[trigger] all[t]).0 == k;
            }
        }
        out
    }

    /// The entry with the largest key below `key`.
    pub fn get_closest_smaller(&self, key: &u64) -> (r: Option<(u64, Vec<u8>)>)
        ensures
            r is None <==> forall|k: u64| #[trigger] self@.contains_key(k) ==> k >= *key,
            r is Some ==> {
                let (k, v) = r->Some_0;
                &&& k < *key
                &&& self@.contains_key(k)
                &&& self@[k] == v@
                &&& forall|j: u64| #[trigger] self@.contains_key(j) && j < *key ==> j <= k
            },
    {
        let mut es = self.iter();
        let n = es.len();
        let mut i: usize = 0;
        while i < n && es[i].0 < *key
            invariant
                n == es@.len(),
                i <= n,
                keys_ascending(es@),
                forall|j: int| 0 <= j < i ==> (#[trigger] es@[j]).0 < *key,
            decreases n - i,
        {
            i = i + 1;
        }
        if i == 0 {
            proof {
                assert forall|k: u64| #[trigger] self@.contains_key(k) implies k >= *key by {
                    let j = choose|j: int| 0 <= j < es@.len() && (#[trigger] es@[j]).0 == k;
                    if j > 0 {
                        assert(es@[0].0 < es@[j].0);
                    }
                }
            }
            None
        } else {
            let ghost all = es@;
            let (k, v) = es.swap_remove(i - 1);
            proof {
                assert(k == all[i - 1].0 && v@ == all[i - 1].1@);
                assert forall|j: u64| #[trigger] self@.contains_key(j) && j < *key implies j <= k by {
                    let t = choose|t: int| 0 <= t < all.len() && (#[trigger] all[t]).0 == j;
                    if t > i as int {
                        assert(all[i as int].0 < all[t].0);
                    } else if t < i - 1 {
                        assert(all[t].0 < all[i - 1].0);
                    }
                }
            }
            Some((k, v))
        }
    }
}

impl ValueMut {
    /// Commits the guard to `map`, its value going back under its key, and
    /// returns a copy of that value.
    pub fn clone_inner(self, map: &mut Mapi) -> (r: Vec<u8>)
        ensures
            r@ == self.value(),
            final(map)@ == old(map)@.insert(self.key(), self.value()),
    {
        let (k, v) = self.into_parts();
        let c = v.clone();
        assert(c@ =~= v@);
        map.set_value(k, v);
        c
    }
}

impl Entry {
    /// Inserts `default` under this entry's key where it holds no value, then
    /// returns a guard over the key's value; a value already there is kept
    /// and `default` dropped.
    pub fn or_insert(self, map: &mut Mapi, default: Vec<u8>) -> (r: ValueMut)
        ensures
            old(map)@.contains_key(self.key()) ==> final(map)@ == old(map)@,
            !old(map)@.contains_key(self.key()) ==> final(map)@ == old(map)@.insert(
                self.key(),
                default@,
            ),
            final(map)@.len() == old(map)@.len() + if old(map)@.contains_key(self.key()) {
                0nat
            } else {
                1nat
            },
            r.key() == self.key(),
            r.value() == final(map)@[self.key()],
    {
        let current = map.get(&self.key_of());
        let (write, guard) = self.settle(current, default);
        if let Some(v) = write {
            map.set_value(guard.key_of(), v);
        }
        guard
    }

    /// As `or_insert`, with the default made by `make`, which is called
    /// only where the key holds no value.
    pub fn or_insert_with<F: FnOnce() -> Vec<u8>>(self, map: &mut Mapi, make: F) -> (r: ValueMut)
        requires
            make.requires(()),
        ensures
            old(map)@.contains_key(self.key()) ==> final(map)@ == old(map)@,
            !old(map)@.contains_key(self.key()) ==> exists|d: Vec<u8>|
                make.ensures((), d) && final(map)@ == old(map)@.insert(self.key(), d@),
            final(map)@.len() == old(map)@.len() + if old(map)@.contains_key(self.key()) {
                0nat
            } else {
                1nat
            },
            r.key() == self.key(),
            r.value() == final(map)@[self.key()],
    {
        let current = map.get(&self.key_of());
        let (write, guard) = self.settle_with(current, make);
        if let Some(v) = write {
            map.set_value(guard.key_of(), v);
        }
        guard
    }
}

/// Length law: a key that holds no value adds one to the length when it is
/// inserted, an overwrite keeps the length, removing a key that holds a
/// value takes one away, and removing an absent key changes nothing. So
/// after any run of inserts and removes from an empty map, the length is the
/// number of distinct keys that hold a value.
pub proof fn lemma_len_tracks_keys(m: Map<u64, Seq<u8>>, k: u64, v: Seq<u8>)
    requires
        m.dom().finite(),
    ensures
        m.insert(k, v).dom().finite(),
        m.remove(k).dom().finite(),
        m.contains_key(k) ==> m.insert(k, v).len() == m.len(),
        !m.contains_key(k) ==> m.insert(k, v).len() == m.len() + 1,
        m.contains_key(k) ==> m.remove(k).len() == m.len() - 1,
        !m.contains_key(k) ==> m.remove(k).len() == m.len(),
{
    if m.contains_key(k) {
        assert(m.insert(k, v).dom() =~= m.dom());
    } else {
        assert(m.remove(k) =~= m);
    }
}

} // verus!
