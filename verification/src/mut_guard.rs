//! The guard that lends a stored value out for mutation.
//!
//! A guard holds a value that was taken out of the map, and the map. While
//! it is held the map does not contain the value. Releasing the guard stores
//! the value again, under the key it has then, so a change of the key moves
//! the value to its new place.

use crate::hashing::hash_one;
use crate::key::ExtractKey;
use crate::map::ExtractMap;
use crate::model::{inserted, lookup, removed};
use crate::table::MAX_LEN;
use core::hash::{BuildHasher, Hash};
use core::ops::{Deref, DerefMut};
use vstd::prelude::*;

verus! {

/// A value taken out of a map for mutation, together with the map it goes
/// back into.
///
/// A guard that is dropped without `release` takes its value with it: the
/// map has lost the entry.
#[must_use]
pub struct MutGuard<'a, K, V, S> {
    pub value: V,
    pub map: &'a mut ExtractMap<K, V, S>,
}

impl<'a, K, V, S> MutGuard<'a, K, V, S> {
    /// The map is well formed and has room for the value.
    pub open spec fn wf(&self) -> bool {
        self.map.wf() && self.map@.len() < MAX_LEN
    }
}

impl<'a, K: Hash + Eq, V: ExtractKey<K>, S> MutGuard<'a, K, V, S> {
    /// Stores the value in the map again, under `hash` and the key it has
    /// now.
    pub fn release_hashed(self, hash: u64)
        requires
            self.wf(),
        ensures
            final(self.map).wf(),
            final(self.map).hasher() == old(self.map).hasher(),
            old(self.map)@.len() <= final(self.map)@.len() <= old(self.map)@.len() + 1,
            old(self.map).keyed() ==> final(self.map).keyed() && final(self.map)@ == inserted(
                old(self.map)@,
                hash,
                self.value,
            ),
    {
        let MutGuard { value, map } = self;
        map.insert_hashed(hash, value);
    }
}

impl<'a, K: Hash + Eq, V: ExtractKey<K>, S: BuildHasher> MutGuard<'a, K, V, S> {
    /// Stores the value in the map again, under the key it has now.
    ///
    /// The key is hashed with the map's hasher; whatever hash comes back,
    /// the value is stored under it as `release_hashed` says.
    pub fn release(self)
        requires
            self.wf(),
        ensures
            final(self.map).wf(),
            final(self.map).hasher() == old(self.map).hasher(),
            old(self.map)@.len() <= final(self.map)@.len() <= old(self.map)@.len() + 1,
            old(self.map).keyed() ==> final(self.map).keyed() && exists|hash: u64|
                final(self.map)@ == inserted(old(self.map)@, hash, self.value),
    {
        let MutGuard { value, map } = self;
        map.insert(value);
    }
}

impl<'a, K, V, S> Deref for MutGuard<'a, K, V, S> {
    type Target = V;

    fn deref(&self) -> (value: &V)
        ensures
            *value == self.value,
    {
        &self.value
    }
}

impl<'a, K, V, S> DerefMut for MutGuard<'a, K, V, S> {
    fn deref_mut(&mut self) -> (value: &mut V)
        ensures
            *value == old(self).value,
            final(self).value == *final(value),
            *final(self).map == *old(self).map,
            *final(final(self).map) == *final(old(self).map),
    {
        &mut self.value
    }
}

impl<K: Hash + Eq, V: ExtractKey<K>, S> ExtractMap<K, V, S> {
    /// Takes the value stored under `(hash, key)` out of the map and lends
    /// it in a guard.
    pub fn get_mut_hashed<'a>(&'a mut self, hash: u64, key: &K) -> (guard: Option<
        MutGuard<'a, K, V, S>,
    >)
        requires
            old(self).wf(),
        ensures
            match guard {
                Some(g) => {
                    &&& g.wf()
                    &&& *final(self) == *final(g.map)
                    &&& g.map.hasher() == old(self).hasher()
                    &&& g.map@.len() == old(self)@.len() - 1
                    &&& old(self).keyed() ==> g.map.keyed() && lookup(old(self)@, hash, *key)
                        == Some(g.value) && g.map@ == removed(old(self)@, hash, *key)
                },
                None => {
                    &&& final(self).wf()
                    &&& final(self).hasher() == old(self).hasher()
                    &&& final(self)@ == old(self)@
                    &&& old(self).keyed() ==> lookup(old(self)@, hash, *key) == None::<V>
                },
            },
    {
        match self.remove_hashed(hash, key) {
            Some(value) => Some(MutGuard { value, map: self }),
            None => None,
        }
    }
}

impl<K: Hash + Eq, V: ExtractKey<K>, S: BuildHasher> ExtractMap<K, V, S> {
    /// Takes the value with the given key out of the map and lends it in a
    /// guard.
    ///
    /// The value is out of the map while the guard is held; `release` puts
    /// it back under the key it has then. The key is hashed with the map's
    /// hasher; whatever hash comes back, the value is looked for under it as
    /// `get_mut_hashed` says.
    pub fn get_mut<'a>(&'a mut self, key: &K) -> (guard: Option<MutGuard<'a, K, V, S>>)
        requires
            old(self).wf(),
        ensures
            match guard {
                Some(g) => {
                    &&& g.wf()
                    &&& *final(self) == *final(g.map)
                    &&& g.map.hasher() == old(self).hasher()
                    &&& g.map@.len() == old(self)@.len() - 1
                    &&& old(self).keyed() ==> g.map.keyed() && exists|hash: u64|
                        lookup(old(self)@, hash, *key) == Some(g.value) && g.map@ == removed(
                            old(self)@,
                            hash,
                            *key,
                        )
                },
                None => {
                    &&& final(self).wf()
                    &&& final(self).hasher() == old(self).hasher()
                    &&& final(self)@ == old(self)@
                    &&& old(self).keyed() ==> exists|hash: u64|
                        lookup(old(self)@, hash, *key) == None::<V>
                },
            },
    {
        let hash = hash_one(self.build_hasher(), key);
        self.get_mut_hashed(hash, key)
    }
}

} // verus!
