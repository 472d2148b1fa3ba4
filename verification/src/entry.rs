//! The entry API: one search, then work on the slot it found or on the
//! vacancy it proved.
//!
//! An occupied entry remembers the position of its slot; a vacant entry
//! remembers the hash that was searched, so that an insert needs neither a
//! second hash nor a second comparison of keys.
//!
//! Writing through an entry changes the map where it stands: an occupied
//! slot keeps its hash and its place, and a vacancy is filled under the hash
//! that was searched. The map stays keyed if the value that is written has
//! the key that the entry was found by, and the contracts say so; they say
//! nothing of a map whose value was given another key in place. To change
//! the key of a stored value, take it out with `ExtractMap::get_mut`.

use crate::hashing::hash_one;
use crate::key::{key_model, ExtractKey};
use crate::laws::lemma_remove_then_get;
use crate::map::ExtractMap;
use crate::model::{
    distinct, lemma_position_none, lemma_position_unique, lemma_rewritten_distinct,
    lemma_vacated_distinct, position, present, rewritten, slot_has, vacated, Slot,
};
use crate::table::MAX_LEN;
use core::hash::{BuildHasher, Hash};
use vstd::prelude::*;

verus! {

/// A view into an occupied entry of an [`ExtractMap`].
pub struct OccupiedEntry<'a, K, V, S> {
    pub map: &'a mut ExtractMap<K, V, S>,
    pub index: usize,
}

/// A view into a vacant entry of an [`ExtractMap`]: a hash and a key that
/// name no slot. The entry keeps the hash.
pub struct VacantEntry<'a, K, V, S> {
    pub map: &'a mut ExtractMap<K, V, S>,
    pub hash: u64,
}

/// A view into a single entry of a map, which is either occupied or vacant.
///
/// It is made by [`ExtractMap::entry`].
pub enum Entry<'a, K, V, S> {
    /// An occupied entry.
    Occupied(OccupiedEntry<'a, K, V, S>),
    /// A vacant entry.
    Vacant(VacantEntry<'a, K, V, S>),
}

/// Writing `value` over the value at `i` keeps the slots distinct if it has
/// the key of the value it replaces.
proof fn lemma_rewrite_keeps_keyed<K: Hash + Eq, V: ExtractKey<K>>(slots: Seq<Slot<V>>, i: int)
    requires
        0 <= i < slots.len(),
    ensures
        forall|value: V|
            distinct::<K, V>(slots) && value.key() == slots[i].value.key() ==> #[trigger] distinct::<
                K,
                V,
            >(rewritten(slots, i, value)),
{
    assert forall|value: V|
        distinct::<K, V>(slots) && value.key() == slots[i].value.key() implies #[trigger] distinct::<
        K,
        V,
    >(rewritten(slots, i, value)) by {
        lemma_rewritten_distinct::<K, V>(slots, i, value);
    }
}

/// Putting a slot at the end keeps the slots distinct if no slot has its
/// hash and key.
proof fn lemma_push_keeps_keyed<K: Hash + Eq, V: ExtractKey<K>>(
    slots: Seq<Slot<V>>,
    hash: u64,
    value: V,
)
    requires
        distinct::<K, V>(slots),
        !present(slots, hash, value.key()),
    ensures
        distinct::<K, V>(slots.push(Slot { hash, value })),
{
    let after = slots.push(Slot { hash, value });
    assert forall|i: int, j: int|
        0 <= i < after.len() && 0 <= j < after.len() && after[i].hash == after[j].hash
            && after[i].value.key() == after[j].value.key() implies i == j by {
        if i < slots.len() && j == slots.len() {
            assert(slot_has(slots[i], hash, value.key()));
        }
        if j < slots.len() && i == slots.len() {
            assert(slot_has(slots[j], hash, value.key()));
        }
    }
}

impl<'a, K, V, S> OccupiedEntry<'a, K, V, S> {
    /// The map is well formed and the entry names one of its slots.
    pub open spec fn wf(&self) -> bool {
        self.map.wf() && self.index < self.map@.len()
    }

    /// The slot of the entry.
    pub open spec fn slot(&self) -> Slot<V> {
        self.map@[self.index as int]
    }

    /// The value of the entry.
    pub open spec fn value(&self) -> V {
        self.map@[self.index as int].value
    }

    /// Gets a reference to the value in the map.
    pub fn get(&self) -> (value: &V)
        requires
            self.wf(),
        ensures
            *value == self.value(),
    {
        self.map.value_at(self.index)
    }
}

impl<'a, K: Hash + Eq, V: ExtractKey<K>, S> OccupiedEntry<'a, K, V, S> {
    /// Removes the value from the map, and returns it with the vacant entry
    /// it leaves: the map and the hash that the value was stored under, for
    /// a value with its key to be put in again. The last value of the map
    /// moves into the place of the one removed.
    pub fn remove(self) -> (taken: (V, VacantEntry<'a, K, V, S>))
        requires
            self.wf(),
        ensures
            taken.0 == self.value(),
            taken.1.wf(),
            taken.1.has_room(),
            taken.1.hash == self.slot().hash,
            taken.1.map@ == vacated(old(self.map)@, self.index as int),
            taken.1.map.hasher() == old(self.map).hasher(),
            old(self.map).keyed() ==> taken.1.map.keyed() && !present(
                taken.1.map@,
                self.slot().hash,
                self.value().key(),
            ),
            *final(taken.1.map) == *final(self.map),
    {
        proof {
            if self.map.keyed() {
                lemma_vacated_distinct::<K, V>(self.map@, self.index as int);
                lemma_position_unique(
                    self.map@,
                    self.index as int,
                    self.slot().hash,
                    self.value().key(),
                );
                lemma_remove_then_get(self.map@, self.slot().hash, self.value().key());
            }
        }
        let OccupiedEntry { map, index } = self;
        let slot = map.take_slot(index);
        (slot.value, VacantEntry { map, hash: slot.hash })
    }

    /// Gets a mutable reference to the value in the map.
    ///
    /// What is written stays in the slot of the entry. The map stays keyed
    /// if the value has kept its key.
    pub fn get_mut(&mut self) -> (value: &mut V)
        requires
            old(self).wf(),
        ensures
            *value == old(self).value(),
            final(self).wf(),
            final(self).index == old(self).index,
            final(self).map@ == rewritten(old(self).map@, old(self).index as int, *final(value)),
            final(self).map.hasher() == old(self).map.hasher(),
            old(self).map.keyed() && final(value).key() == value.key() ==> final(self).map.keyed(),
            *final(final(self).map) == *final(old(self).map),
    {
        proof {
            lemma_rewrite_keeps_keyed::<K, V>(self.map@, self.index as int);
        }
        self.map.value_at_mut(self.index)
    }

    /// Converts the entry into a mutable reference to the value, which
    /// lives as long as the borrow of the map.
    ///
    /// What is written stays in the slot of the entry. The map stays keyed
    /// if the value has kept its key.
    pub fn into_mut(self) -> (value: &'a mut V)
        requires
            self.wf(),
        ensures
            *value == self.value(),
            final(self.map).wf(),
            final(self.map)@ == rewritten(old(self.map)@, self.index as int, *final(value)),
            final(self.map).hasher() == old(self.map).hasher(),
            old(self.map).keyed() && final(value).key() == value.key() ==> final(self.map).keyed(),
    {
        proof {
            lemma_rewrite_keeps_keyed::<K, V>(self.map@, self.index as int);
        }
        let OccupiedEntry { map, index } = self;
        map.value_at_mut(index)
    }

    /// Sets the value of the entry, and returns the entry's old value.
    ///
    /// The new value stands in the slot of the old one. The map stays keyed
    /// if it has the key of the old one.
    pub fn insert(&mut self, value: V) -> (previous: V)
        requires
            old(self).wf(),
        ensures
            previous == old(self).value(),
            final(self).wf(),
            final(self).index == old(self).index,
            final(self).map@ == rewritten(old(self).map@, old(self).index as int, value),
            final(self).map.hasher() == old(self).map.hasher(),
            old(self).map.keyed() && value.key() == old(self).value().key()
                ==> final(self).map.keyed(),
            *final(final(self).map) == *final(old(self).map),
    {
        let mut held = value;
        core::mem::swap(self.get_mut(), &mut held);
        held
    }
}

impl<'a, K, V, S> VacantEntry<'a, K, V, S> {
    /// The map is well formed.
    pub open spec fn wf(&self) -> bool {
        self.map.wf()
    }

    /// The map has room for one more value.
    pub open spec fn has_room(&self) -> bool {
        self.map@.len() < MAX_LEN
    }
}

impl<'a, K: Hash + Eq, V: ExtractKey<K>, S> VacantEntry<'a, K, V, S> {
    /// Puts `value` at the end of the map, under the hash of the entry, and
    /// returns the entry that it occupies.
    ///
    /// The map stays keyed if `value` has the key that the entry was found
    /// vacant for.
    pub fn insert(self, value: V) -> (entry: OccupiedEntry<'a, K, V, S>)
        requires
            self.wf(),
            self.has_room(),
        ensures
            entry.wf(),
            entry.index == old(self.map)@.len(),
            entry.map@ == old(self.map)@.push(Slot { hash: self.hash, value }),
            entry.map.hasher() == old(self.map).hasher(),
            old(self.map).keyed() && !present(old(self.map)@, self.hash, value.key())
                ==> entry.map.keyed(),
            *final(entry.map) == *final(self.map),
    {
        proof {
            if self.map.keyed() && !present(self.map@, self.hash, value.key()) {
                lemma_push_keeps_keyed::<K, V>(self.map@, self.hash, value);
            }
        }
        let VacantEntry { map, hash } = self;
        let index = map.len();
        map.push_slot(hash, value);
        OccupiedEntry { map, index }
    }
}

impl<'a, K, V, S> Entry<'a, K, V, S> {
    /// The entry is well formed, whichever it is.
    pub open spec fn wf(&self) -> bool {
        match self {
            Entry::Occupied(entry) => entry.wf(),
            Entry::Vacant(entry) => entry.wf(),
        }
    }

    /// The entry is occupied, or its map has room for one more value: a
    /// value can be put into it.
    pub open spec fn has_room(&self) -> bool {
        match self {
            Entry::Occupied(_) => true,
            Entry::Vacant(entry) => entry.has_room(),
        }
    }
}

impl<'a, K: Hash + Eq, V: ExtractKey<K>, S> Entry<'a, K, V, S> {
    /// Sets the value of the entry, replacing any existing value, and
    /// returns the entry that it occupies.
    ///
    /// The map stays keyed if `value` has the key of the entry.
    pub fn insert(self, value: V) -> (entry: OccupiedEntry<'a, K, V, S>)
        requires
            self.wf(),
            self.has_room(),
        ensures
            entry.wf(),
            match self {
                Entry::Occupied(occupied) => {
                    &&& entry.index == occupied.index
                    &&& entry.map@ == rewritten(occupied.map@, occupied.index as int, value)
                    &&& entry.map.hasher() == occupied.map.hasher()
                    &&& occupied.map.keyed() && value.key() == occupied.value().key()
                        ==> entry.map.keyed()
                    &&& *final(entry.map) == *final(occupied.map)
                },
                Entry::Vacant(vacant) => {
                    &&& entry.index == vacant.map@.len()
                    &&& entry.map@ == vacant.map@.push(Slot { hash: vacant.hash, value })
                    &&& entry.map.hasher() == vacant.map.hasher()
                    &&& vacant.map.keyed() && !present(vacant.map@, vacant.hash, value.key())
                        ==> entry.map.keyed()
                    &&& *final(entry.map) == *final(vacant.map)
                },
            },
    {
        match self {
            Entry::Occupied(mut occupied) => {
                occupied.insert(value);
                occupied
            },
            Entry::Vacant(vacant) => vacant.insert(value),
        }
    }

    /// Ensures a value is in the entry by inserting `default` if it was
    /// vacant.
    ///
    /// The map stays keyed if `default` has the key of the entry.
    pub fn or_insert(self, default: V) -> (entry: OccupiedEntry<'a, K, V, S>)
        requires
            self.wf(),
            self.has_room(),
        ensures
            entry.wf(),
            match self {
                Entry::Occupied(occupied) => {
                    &&& entry.index == occupied.index
                    &&& *entry.map == *occupied.map
                    &&& *final(entry.map) == *final(occupied.map)
                },
                Entry::Vacant(vacant) => {
                    &&& entry.index == vacant.map@.len()
                    &&& entry.map@ == vacant.map@.push(Slot { hash: vacant.hash, value: default })
                    &&& entry.map.hasher() == vacant.map.hasher()
                    &&& vacant.map.keyed() && !present(vacant.map@, vacant.hash, default.key())
                        ==> entry.map.keyed()
                    &&& *final(entry.map) == *final(vacant.map)
                },
            },
    {
        match self {
            Entry::Occupied(occupied) => occupied,
            Entry::Vacant(vacant) => vacant.insert(default),
        }
    }

    /// Ensures a value is in the entry by inserting the result of `default`
    /// if it was vacant. An occupied entry does not call `default`.
    ///
    /// The map stays keyed if what `default` returns has the key of the
    /// entry.
    pub fn or_insert_with<F: FnOnce() -> V>(self, default: F) -> (entry: OccupiedEntry<'a, K, V, S>)
        requires
            self.wf(),
            self.has_room(),
            self is Vacant ==> call_requires(default, ()),
        ensures
            entry.wf(),
            match self {
                Entry::Occupied(occupied) => {
                    &&& entry.index == occupied.index
                    &&& *entry.map == *occupied.map
                    &&& *final(entry.map) == *final(occupied.map)
                },
                Entry::Vacant(vacant) => {
                    &&& entry.index == vacant.map@.len()
                    &&& exists|value: V|
                        {
                            &&& #[trigger] call_ensures(default, (), value)
                            &&& entry.map@ == vacant.map@.push(Slot { hash: vacant.hash, value })
                            &&& vacant.map.keyed() && !present(
                                vacant.map@,
                                vacant.hash,
                                value.key(),
                            ) ==> entry.map.keyed()
                        }
                    &&& entry.map.hasher() == vacant.map.hasher()
                    &&& *final(entry.map) == *final(vacant.map)
                },
            },
    {
        match self {
            Entry::Occupied(occupied) => occupied,
            Entry::Vacant(vacant) => vacant.insert(default()),
        }
    }

    /// Provides in-place mutable access to an occupied entry, and does
    /// nothing for a vacant one.
    ///
    /// The map stays keyed if `f` leaves the key of the value as it is.
    pub fn and_modify<F: FnOnce(&mut V)>(self, f: F) -> (entry: Self)
        requires
            self.wf(),
            self matches Entry::Occupied(occupied) ==> forall|value: &mut V|
                *value == occupied.value() ==> call_requires(f, (value,)),
        ensures
            entry.wf(),
            match self {
                Entry::Occupied(occupied) => {
                    &&& entry matches Entry::Occupied(modified)
                    &&& modified.index == occupied.index
                    &&& modified.map.hasher() == occupied.map.hasher()
                    &&& *final(modified.map) == *final(occupied.map)
                    &&& exists|value: &mut V|
                        {
                            &&& *value == occupied.value()
                            &&& #[trigger] call_ensures(f, (value,), ())
                            &&& modified.map@ == rewritten(
                                occupied.map@,
                                occupied.index as int,
                                *final(value),
                            )
                            &&& occupied.map.keyed() && final(value).key() == value.key()
                                ==> modified.map.keyed()
                        }
                },
                Entry::Vacant(vacant) => {
                    &&& entry matches Entry::Vacant(same)
                    &&& same.hash == vacant.hash
                    &&& *same.map == *vacant.map
                    &&& *final(same.map) == *final(vacant.map)
                },
            },
    {
        match self {
            Entry::Occupied(mut occupied) => {
                f(occupied.get_mut());
                Entry::Occupied(occupied)
            },
            Entry::Vacant(vacant) => Entry::Vacant(vacant),
        }
    }
}

impl<K: Hash + Eq, V: ExtractKey<K>, S> ExtractMap<K, V, S> {
    /// The entry of `(hash, key)`, for in-place manipulation: occupied if
    /// a value is stored under them, vacant if none is.
    pub fn entry_hashed<'a>(&'a mut self, hash: u64, key: &K) -> (entry: Entry<'a, K, V, S>)
        requires
            old(self).wf(),
        ensures
            entry.wf(),
            match entry {
                Entry::Occupied(occupied) => {
                    &&& *occupied.map == *old(self)
                    &&& *final(self) == *final(occupied.map)
                    &&& key_model::<K, V>() ==> slot_has(occupied.slot(), hash, *key)
                    &&& old(self).keyed() ==> position(old(self)@, hash, *key) == Some(
                        occupied.index as int,
                    )
                },
                Entry::Vacant(vacant) => {
                    &&& *vacant.map == *old(self)
                    &&& *final(self) == *final(vacant.map)
                    &&& vacant.hash == hash
                    &&& key_model::<K, V>() ==> !present(old(self)@, hash, *key)
                    &&& old(self).keyed() ==> position(old(self)@, hash, *key) == None::<int>
                },
            },
    {
        match self.find_index(hash, key) {
            Some(index) => {
                proof {
                    if self.keyed() {
                        lemma_position_unique(self@, index as int, hash, *key);
                    }
                }
                Entry::Occupied(OccupiedEntry { map: self, index })
            },
            None => {
                proof {
                    if self.keyed() {
                        lemma_position_none(self@, hash, *key);
                    }
                }
                Entry::Vacant(VacantEntry { map: self, hash })
            },
        }
    }
}

impl<K: Hash + Eq, V: ExtractKey<K>, S: BuildHasher> ExtractMap<K, V, S> {
    /// Gets the entry of the given key in the map, for in-place
    /// manipulation.
    ///
    /// The key is hashed with the map's hasher; whatever hash comes back,
    /// the entry is the one that `entry_hashed` gives for it.
    pub fn entry<'a>(&'a mut self, key: &K) -> (entry: Entry<'a, K, V, S>)
        requires
            old(self).wf(),
        ensures
            entry.wf(),
            match entry {
                Entry::Occupied(occupied) => {
                    &&& *occupied.map == *old(self)
                    &&& *final(self) == *final(occupied.map)
                    &&& key_model::<K, V>() ==> occupied.value().key() == *key
                    &&& old(self).keyed() ==> exists|hash: u64|
                        position(old(self)@, hash, *key) == Some(occupied.index as int)
                },
                Entry::Vacant(vacant) => {
                    &&& *vacant.map == *old(self)
                    &&& *final(self) == *final(vacant.map)
                    &&& key_model::<K, V>() ==> !present(old(self)@, vacant.hash, *key)
                    &&& old(self).keyed() ==> position(old(self)@, vacant.hash, *key) == None::<
                        int,
                    >
                },
            },
    {
        let hash = hash_one(self.build_hasher(), key);
        self.entry_hashed(hash, key)
    }
}

} // verus!
