//! The map itself: its invariant, its constructors, and the operations that
//! find, store and take out one value.

use crate::hashing::{fresh_random_state, hash_one};
use crate::key::{key_model, key_of, ExtractKey};
use crate::link::{lemma_linked_len, lemma_vacated_linked, linked, relinked};
use crate::model::{
    distinct, inserted, lemma_inserted_distinct, lemma_position_none, lemma_position_unique,
    lemma_vacated_distinct, lookup, present, removed, rewritten, slot_has, vacated, Slot,
};
use crate::table::{table_items, table_room, IndexTable, MAX_LEN};
use core::hash::{BuildHasher, Hash};
use core::marker::PhantomData;
use std::collections::hash_map::RandomState;
use vstd::laws_eq::obeys_concrete_eq;
use vstd::pervasive::cloned;
use vstd::prelude::*;

verus! {

/// A hash map for memory efficient storage of values which contain their own
/// keys.
///
/// The values stand in a dense vector, each with the hash it was stored
/// under; a table of positions finds the slot of a hash and key. The view of
/// the map is that vector.
///
/// Two conditions are told apart. `wf` says that the table and the vector
/// fit together; every operation asks for it and keeps it, whatever the
/// values are. `keyed` says that no two slots have the same hash and key;
/// the operations keep it too, and say exactly what they do to a map that
/// is keyed. Only writing to a value in place, through an entry, can end
/// it: by giving the value another key.
pub struct ExtractMap<K, V, S = RandomState> {
    table: IndexTable,
    slots: Vec<Slot<V>>,
    build_hasher: S,
    phantom: PhantomData<K>,
}

impl<K, V, S> View for ExtractMap<K, V, S> {
    type V = Seq<Slot<V>>;

    closed spec fn view(&self) -> Seq<Slot<V>> {
        self.slots@
    }
}

impl<K, V, S> ExtractMap<K, V, S> {
    /// The hasher the map was made with.
    pub closed spec fn hasher(&self) -> S {
        self.build_hasher
    }

    /// The table of positions finds exactly the slots of the view.
    pub closed spec fn table_linked(&self) -> bool {
        linked(table_items(self.table), self.slots@)
    }

    /// The room of the map: how many values its table of positions can hold
    /// before it grows.
    pub closed spec fn room(&self) -> nat {
        table_room(self.table)
    }

    /// The table and the slots fit together, and the slots are no more than
    /// the table can hold.
    pub open spec fn wf(&self) -> bool {
        self.table_linked() && self@.len() <= MAX_LEN
    }

    /// The number of values in the map.
    pub fn len(&self) -> (n: usize)
        ensures
            n == self@.len(),
    {
        self.slots.len()
    }

    /// Whether the map holds no value.
    pub fn is_empty(&self) -> (empty: bool)
        ensures
            empty == (self@.len() == 0),
    {
        self.slots.len() == 0
    }

    /// The number of values the table of positions can hold before it
    /// grows: the room of the map, which is never less than the number of
    /// values it holds.
    pub fn capacity(&self) -> (capacity: usize)
        requires
            self.wf(),
        ensures
            capacity == self.room(),
            capacity >= self@.len(),
    {
        proof {
            lemma_linked_len(table_items(self.table), self.slots@);
        }
        self.table.capacity()
    }

    /// The memory the table of positions has allocated, in bytes.
    ///
    /// The number is informational only; it is meant for memory profiling.
    pub fn allocation_size(&self) -> (bytes: usize) {
        self.table.allocation_size()
    }

    /// Creates a new, empty map with the provided hasher.
    pub fn with_hasher(hash_builder: S) -> (map: Self)
        ensures
            map.wf(),
            map@ == Seq::<Slot<V>>::empty(),
            map.hasher() == hash_builder,
    {
        ExtractMap {
            table: IndexTable::new(),
            slots: Vec::new(),
            build_hasher: hash_builder,
            phantom: PhantomData,
        }
    }

    /// Creates a new map with the provided hasher and room for `capacity`
    /// values.
    pub fn with_capacity_and_hasher(capacity: usize, hash_builder: S) -> (map: Self)
        requires
            capacity <= MAX_LEN,
        ensures
            map.wf(),
            map@ == Seq::<Slot<V>>::empty(),
            map.hasher() == hash_builder,
            map.room() >= capacity,
    {
        ExtractMap {
            table: IndexTable::with_capacity(capacity),
            slots: Vec::with_capacity(capacity),
            build_hasher: hash_builder,
            phantom: PhantomData,
        }
    }

    /// The hasher of the map.
    pub(crate) fn build_hasher(&self) -> (build_hasher: &S)
        ensures
            *build_hasher == self.hasher(),
    {
        &self.build_hasher
    }

    /// The slots of the map.
    pub(crate) fn slots(&self) -> (slots: &Vec<Slot<V>>)
        ensures
            slots@ == self@,
    {
        &self.slots
    }

    /// The slots of the map, which is given up.
    pub(crate) fn into_slots(self) -> (slots: Vec<Slot<V>>)
        ensures
            slots@ == self@,
    {
        let ExtractMap { table: _, slots, build_hasher: _, phantom: _ } = self;
        slots
    }

    /// The value in the slot at `index`.
    pub(crate) fn value_at(&self, index: usize) -> (value: &V)
        requires
            index < self@.len(),
        ensures
            *value == self@[index as int].value,
    {
        &self.slots[index].value
    }

    /// The value in the slot at `index`, for writing. The slot keeps its
    /// hash and its place.
    pub(crate) fn value_at_mut(&mut self, index: usize) -> (value: &mut V)
        requires
            old(self).wf(),
            index < old(self)@.len(),
        ensures
            *value == old(self)@[index as int].value,
            final(self)@ == rewritten(old(self)@, index as int, *final(value)),
            final(self).wf(),
            final(self).hasher() == old(self).hasher(),
    {
        &mut self.slots[index].value
    }

    /// Puts a new slot at the end.
    pub(crate) fn push_slot(&mut self, hash: u64, value: V)
        requires
            old(self).wf(),
            old(self)@.len() < MAX_LEN,
        ensures
            final(self).wf(),
            final(self).hasher() == old(self).hasher(),
            final(self)@ == old(self)@.push(Slot { hash, value }),
    {
        let index: usize = self.slots.len();
        let slots = &self.slots;
        let hasher = |i: usize| -> (h: u64)
            requires
                i < slots@.len(),
            ensures
                h == slots@[i as int].hash,
            { slots[i].hash };
        proof {
            lemma_linked_len(table_items(self.table), self.slots@);
        }
        self.table.insert_unique(hash, index, hasher);
        self.slots.push(Slot { hash, value });
    }

    /// Takes the slot at `index` out; the last slot moves into its place.
    pub(crate) fn take_slot(&mut self, index: usize) -> (slot: Slot<V>)
        requires
            old(self).wf(),
            index < old(self)@.len(),
        ensures
            final(self).wf(),
            final(self).hasher() == old(self).hasher(),
            final(self)@ == vacated(old(self)@, index as int),
            slot == old(self)@[index as int],
    {
        let last: usize = self.slots.len() - 1;
        let hash = self.slots[index].hash;
        let at_index = |i: usize| -> (b: bool)
            ensures
                b == (i == index),
            { i == index };
        assert(table_items(self.table).count((hash, index)) == 1);
        let taken = self.table.take(hash, at_index);
        assert(taken == Some(index));
        let ghost unlinked = table_items(self.table);
        assert(unlinked == table_items(old(self).table).remove((hash, index))) by {
            let h = choose|h: u64|
                table_items(old(self).table).count((h, index)) > 0 && unlinked == table_items(
                    old(self).table,
                ).remove((h, index));
            assert(h == hash);
        }
        if index != last {
            let last_hash = self.slots[last].hash;
            let at_last = |i: usize| -> (b: bool)
                ensures
                    b == (i == last),
                { i == last };
            assert(unlinked.count((last_hash, last)) == 1);
            match self.table.find_mut(last_hash, at_last) {
                Some(item) => {
                    *item = index;
                },
                None => {},
            }
            assert(table_items(self.table) == unlinked.remove((last_hash, last)).insert(
                (last_hash, index),
            ));
        }
        let slot = self.slots.swap_remove(index);
        proof {
            lemma_vacated_linked(table_items(old(self).table), old(self)@, index as int);
            assert(table_items(self.table) =~= relinked(
                table_items(old(self).table),
                old(self)@,
                index as int,
            ));
        }
        slot
    }

    /// A copy of the map: the table, the hasher, and the slots with each
    /// value cloned.
    pub(crate) fn duplicate(&self) -> (copy: Self) where V: Clone, S: Clone
        ensures
            copy.table_linked() == self.table_linked(),
            copy@.len() == self@.len(),
            forall|i: int|
                0 <= i < self@.len() ==> (#[trigger] copy@[i]).hash == self@[i].hash && cloned(
                    self@[i].value,
                    copy@[i].value,
                ),
    {
        let mut slots: Vec<Slot<V>> = Vec::new();
        let mut i: usize = 0;
        while i < self.slots.len()
            invariant
                i <= self.slots@.len(),
                slots@.len() == i,
                forall|j: int|
                    0 <= j < i ==> (#[trigger] slots@[j]).hash == self.slots@[j].hash && cloned(
                        self.slots@[j].value,
                        slots@[j].value,
                    ),
            decreases self.slots@.len() - i,
        {
            slots.push(Slot { hash: self.slots[i].hash, value: self.slots[i].value.clone() });
            i = i + 1;
        }
        ExtractMap {
            table: self.table.duplicate(),
            slots,
            build_hasher: self.build_hasher.clone(),
            phantom: PhantomData,
        }
    }
}

impl<K, V> ExtractMap<K, V, RandomState> {
    /// Creates a new, empty map with a `RandomState` hasher.
    pub fn new() -> (map: Self)
        ensures
            map.wf(),
            map@ == Seq::<Slot<V>>::empty(),
    {
        Self::with_hasher(fresh_random_state())
    }

    /// Creates a new map with a `RandomState` hasher and room for
    /// `capacity` values.
    pub fn with_capacity(capacity: usize) -> (map: Self)
        requires
            capacity <= MAX_LEN,
        ensures
            map.wf(),
            map@ == Seq::<Slot<V>>::empty(),
            map.room() >= capacity,
    {
        Self::with_capacity_and_hasher(capacity, fresh_random_state())
    }
}

impl<K: Hash + Eq, V: ExtractKey<K>, S> ExtractMap<K, V, S> {
    /// The keys obey the key model, and no two slots have the same hash and
    /// key: each pair of a hash and a key names at most one value. An empty
    /// map is keyed, where the keys obey the key model.
    pub open spec fn keyed(&self) -> bool {
        key_model::<K, V>() && distinct::<K, V>(self@)
    }

    /// The position of a slot that `(hash, key)` names.
    pub(crate) fn find_index(&self, hash: u64, key: &K) -> (found: Option<usize>)
        requires
            self.wf(),
        ensures
            found matches Some(i) ==> i < self@.len(),
            key_model::<K, V>() ==> match found {
                Some(i) => slot_has(self@[i as int], hash, *key),
                None => !present(self@, hash, *key),
            },
    {
        let slots = &self.slots;
        let eq = |i: usize| -> (b: bool)
            requires
                i < slots@.len(),
            ensures
                key_model::<K, V>() ==> b == slot_has(slots@[i as int], hash, *key),
            {
                proof {
                    reveal(obeys_concrete_eq);
                }
                slots[i].hash == hash && *key_of(&slots[i].value) == *key
            };
        let found = self.table.find(hash, eq);
        proof {
            if key_model::<K, V>() && found is None {
                assert forall|i: int| 0 <= i < self@.len() implies !slot_has(
                    #[trigger] self@[i],
                    hash,
                    *key,
                ) by {
                    if self@[i].hash == hash {
                        assert(table_items(self.table).count((hash, i as usize)) == 1);
                    }
                }
            }
        }
        found
    }

    /// Stores `value` under `hash`, in place of the value with the same hash
    /// and key if there is one, which is returned.
    pub fn insert_hashed(&mut self, hash: u64, value: V) -> (previous: Option<V>)
        requires
            old(self).wf(),
            old(self)@.len() < MAX_LEN,
        ensures
            final(self).wf(),
            final(self).hasher() == old(self).hasher(),
            final(self)@.len() == old(self)@.len() + if previous is None { 1int } else { 0int },
            old(self).keyed() ==> final(self).keyed() && final(self)@ == inserted(
                old(self)@,
                hash,
                value,
            ) && previous == lookup(old(self)@, hash, value.key()),
    {
        proof {
            if self.keyed() {
                lemma_inserted_distinct(self@, hash, value);
            }
        }
        match self.find_index(hash, key_of(&value)) {
            Some(i) => {
                proof {
                    if self.keyed() {
                        lemma_position_unique(self@, i as int, hash, value.key());
                    }
                }
                let mut held = value;
                core::mem::swap(self.value_at_mut(i), &mut held);
                assert(old(self).keyed() ==> self@ =~= inserted(old(self)@, hash, value));
                Some(held)
            },
            None => {
                proof {
                    if self.keyed() {
                        lemma_position_none(self@, hash, value.key());
                    }
                }
                self.push_slot(hash, value);
                None
            },
        }
    }

    /// Takes the value stored under `(hash, key)` out of the map.
    pub fn remove_hashed(&mut self, hash: u64, key: &K) -> (taken: Option<V>)
        requires
            old(self).wf(),
        ensures
            final(self).wf(),
            final(self).hasher() == old(self).hasher(),
            final(self)@.len() == old(self)@.len() - if taken is Some { 1int } else { 0int },
            taken is None ==> final(self)@ == old(self)@,
            old(self).keyed() ==> final(self).keyed() && final(self)@ == removed(
                old(self)@,
                hash,
                *key,
            ) && taken == lookup(old(self)@, hash, *key),
    {
        match self.find_index(hash, key) {
            Some(i) => {
                proof {
                    if self.keyed() {
                        lemma_position_unique(self@, i as int, hash, *key);
                        lemma_vacated_distinct::<K, V>(self@, i as int);
                    }
                }
                Some(self.take_slot(i).value)
            },
            None => {
                proof {
                    if self.keyed() {
                        lemma_position_none(self@, hash, *key);
                    }
                }
                None
            },
        }
    }

    /// The value stored under `(hash, key)`.
    pub fn get_hashed(&self, hash: u64, key: &K) -> (found: Option<&V>)
        requires
            self.wf(),
        ensures
            self.keyed() ==> match found {
                Some(v) => lookup(self@, hash, *key) == Some(*v),
                None => lookup(self@, hash, *key) == None::<V>,
            },
    {
        match self.find_index(hash, key) {
            Some(i) => {
                proof {
                    if self.keyed() {
                        lemma_position_unique(self@, i as int, hash, *key);
                    }
                }
                Some(self.value_at(i))
            },
            None => {
                proof {
                    if self.keyed() {
                        lemma_position_none(self@, hash, *key);
                    }
                }
                None
            },
        }
    }

    /// Whether a value is stored under `(hash, key)`: whether `get_hashed`
    /// finds one.
    pub fn contains_key_hashed(&self, hash: u64, key: &K) -> (found: bool)
        requires
            self.wf(),
        ensures
            self.keyed() ==> found == present(self@, hash, *key) && found == (lookup(
                self@,
                hash,
                *key,
            ) is Some),
    {
        self.get_hashed(hash, key).is_some()
    }
}

impl<K: Hash + Eq, V: ExtractKey<K>, S: BuildHasher> ExtractMap<K, V, S> {
    /// The hash of `key` under the map's hasher.
    pub fn hash_key(&self, key: &K) -> (hash: u64) {
        hash_one(&self.build_hasher, key)
    }

    /// Inserts a value into the map, under the key it contains, and returns
    /// the value it took the place of.
    ///
    /// The key is hashed with the map's hasher; whatever hash comes back,
    /// the value is stored under it as `insert_hashed` says.
    pub fn insert(&mut self, value: V) -> (previous: Option<V>)
        requires
            old(self).wf(),
            old(self)@.len() < MAX_LEN,
        ensures
            final(self).wf(),
            final(self).hasher() == old(self).hasher(),
            final(self)@.len() == old(self)@.len() + if previous is None { 1int } else { 0int },
            old(self).keyed() ==> final(self).keyed() && exists|hash: u64|
                final(self)@ == inserted(old(self)@, hash, value) && previous == lookup(
                    old(self)@,
                    hash,
                    value.key(),
                ),
    {
        let hash = hash_one(&self.build_hasher, key_of(&value));
        self.insert_hashed(hash, value)
    }

    /// Removes the value with the given key from the map, and returns it.
    ///
    /// The key is hashed with the map's hasher; whatever hash comes back,
    /// the value is looked for under it as `remove_hashed` says.
    pub fn remove(&mut self, key: &K) -> (taken: Option<V>)
        requires
            old(self).wf(),
        ensures
            final(self).wf(),
            final(self).hasher() == old(self).hasher(),
            final(self)@.len() == old(self)@.len() - if taken is Some { 1int } else { 0int },
            taken is None ==> final(self)@ == old(self)@,
            old(self).keyed() ==> final(self).keyed() && exists|hash: u64|
                final(self)@ == removed(old(self)@, hash, *key) && taken == lookup(
                    old(self)@,
                    hash,
                    *key,
                ),
    {
        let hash = hash_one(&self.build_hasher, key);
        self.remove_hashed(hash, key)
    }

    /// Retrieves the value with the given key.
    ///
    /// The key is hashed with the map's hasher; whatever hash comes back,
    /// the value is looked for under it as `get_hashed` says.
    pub fn get(&self, key: &K) -> (found: Option<&V>)
        requires
            self.wf(),
        ensures
            self.keyed() ==> exists|hash: u64|
                match found {
                    Some(v) => lookup(self@, hash, *key) == Some(*v),
                    None => lookup(self@, hash, *key) == None::<V>,
                },
    {
        let hash = hash_one(&self.build_hasher, key);
        self.get_hashed(hash, key)
    }

    /// Checks if a value with the given key is in the map: whether `get`
    /// finds one.
    ///
    /// The key is hashed with the map's hasher; whatever hash comes back,
    /// the answer is the one that `contains_key_hashed` gives for it.
    pub fn contains_key(&self, key: &K) -> (found: bool)
        requires
            self.wf(),
        ensures
            self.keyed() ==> exists|hash: u64|
                found == present(self@, hash, *key) && found == (lookup(self@, hash, *key)
                    is Some),
    {
        self.get(key).is_some()
    }
}

} // verus!
