//! Building a map from many values, and the standard ways to make one:
//! the default map and the clone.

use crate::key::{key_model, ExtractKey};
use crate::map::ExtractMap;
use crate::model::{inserted, inserted_each, Slot};
use crate::table::MAX_LEN;
use core::hash::{BuildHasher, Hash};
use vstd::pervasive::cloned;
use vstd::prelude::*;

verus! {

impl<K: Hash + Eq, V: ExtractKey<K>, S: BuildHasher> ExtractMap<K, V, S> {
    /// Inserts each of `items` in turn: a later value takes the place of an
    /// earlier one with the same key.
    pub fn extend(&mut self, items: Vec<V>)
        requires
            old(self).wf(),
            old(self)@.len() + items@.len() <= MAX_LEN,
        ensures
            final(self).wf(),
            final(self).hasher() == old(self).hasher(),
            old(self)@.len() <= final(self)@.len() <= old(self)@.len() + items@.len(),
            old(self).keyed() ==> final(self).keyed() && exists|hashes: Seq<u64>|
                hashes.len() == items@.len() && final(self)@ == inserted_each(
                    old(self)@,
                    items@,
                    hashes,
                ),
    {
        let ghost mut hashes = Seq::<u64>::empty();
        let ghost all = items@;
        for value in iter: items.into_iter()
            invariant
                iter.seq() == all,
                self.wf(),
                self.hasher() == old(self).hasher(),
                old(self)@.len() + all.len() <= MAX_LEN,
                old(self)@.len() <= self@.len() <= old(self)@.len() + iter.index(),
                hashes.len() == iter.index(),
                old(self).keyed() ==> self.keyed() && self@ == inserted_each(
                    old(self)@,
                    all.take(iter.index() as int),
                    hashes,
                ),
        {
            let ghost before = self@;
            let ghost done = iter.index() as int;
            self.insert(value);
            proof {
                let hash = if old(self).keyed() {
                    choose|hash: u64| self@ == inserted(before, hash, value)
                } else {
                    0u64
                };
                assert(all.take(done + 1).drop_last() =~= all.take(done));
                assert(hashes.push(hash).drop_last() =~= hashes);
                hashes = hashes.push(hash);
            }
        }
        assert(all.take(all.len() as int) =~= all);
    }
}

impl<K: Hash + Eq, V: ExtractKey<K>, S: BuildHasher + Default> ExtractMap<K, V, S> {
    /// A map with a default hasher that holds `items`, inserted in turn: a
    /// later value takes the place of an earlier one with the same key.
    pub fn from_iter(items: Vec<V>) -> (map: Self)
        requires
            items@.len() <= MAX_LEN,
        ensures
            map.wf(),
            map@.len() <= items@.len(),
            key_model::<K, V>() ==> map.keyed() && exists|hashes: Seq<u64>|
                hashes.len() == items@.len() && map@ == inserted_each(
                    Seq::<Slot<V>>::empty(),
                    items@,
                    hashes,
                ),
    {
        let mut map = Self::with_capacity_and_hasher(items.len(), S::default());
        map.extend(items);
        map
    }
}

impl<K, V, S: Default> Default for ExtractMap<K, V, S> {
    /// An empty map with a default hasher.
    fn default() -> (map: Self)
        ensures
            map.wf(),
            map@ == Seq::<Slot<V>>::empty(),
    {
        Self::with_hasher(S::default())
    }
}

impl<K: Hash + Eq, V: ExtractKey<K> + Clone, S: Clone> Clone for ExtractMap<K, V, S> {
    /// A map with a clone of each value, in the same order and under the
    /// same hashes. It is keyed if this one is and each clone has the key of
    /// the value it was cloned from.
    fn clone(&self) -> (copy: Self)
        ensures
            self.wf() ==> copy.wf(),
            copy@.len() == self@.len(),
            forall|i: int|
                0 <= i < self@.len() ==> (#[trigger] copy@[i]).hash == self@[i].hash && cloned(
                    self@[i].value,
                    copy@[i].value,
                ),
            self.keyed() && (forall|i: int|
                0 <= i < self@.len() ==> (#[trigger] copy@[i]).value.key() == self@[i].value.key())
                ==> copy.keyed(),
    {
        let copy = self.duplicate();
        proof {
            if self.keyed() && (forall|i: int|
                0 <= i < self@.len() ==> (#[trigger] copy@[i]).value.key()
                    == self@[i].value.key()) {
                assert forall|i: int, j: int|
                    0 <= i < copy@.len() && 0 <= j < copy@.len() && copy@[i].hash == copy@[j].hash
                        && copy@[i].value.key() == copy@[j].value.key() implies i == j by {
                    assert(self@[i].hash == copy@[i].hash);
                    assert(self@[j].hash == copy@[j].hash);
                }
            }
        }
        copy
    }
}

} // verus!
