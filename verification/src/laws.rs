//! What holds of the map's operations, stated over the model and proved.
//!
//! The operations of [`crate::map::ExtractMap`] are specified by `inserted`,
//! `removed` and `lookup`; the laws here are about those. A law that speaks
//! of keys alone takes a function from keys to hashes: it holds of a map
//! whose hasher returns, for each key, the same hash every time.

use crate::key::ExtractKey;
use crate::model::{
    distinct, inserted, inserted_each, lemma_inserted_distinct, lemma_position_none, lemma_position_unique,
    lemma_vacated_distinct, lookup, position, present, removed, slot_has, vacated, values, Slot,
};
use core::hash::Hash;
use vstd::prelude::*;

verus! {

/// Every slot is stored under the hash that `hasher` gives for its key.
pub open spec fn hashed_by<K: Hash + Eq, V: ExtractKey<K>>(
    slots: Seq<Slot<V>>,
    hasher: spec_fn(K) -> u64,
) -> bool {
    forall|i: int| 0 <= i < slots.len() ==> (#[trigger] slots[i]).hash == hasher(slots[i].value.key())
}

/// The keys of the slots, in their order.
pub open spec fn keys<K: Hash + Eq, V: ExtractKey<K>>(slots: Seq<Slot<V>>) -> Seq<K> {
    slots.map_values(|slot: Slot<V>| slot.value.key())
}

/// The keys of the values, in their order.
pub open spec fn keys_of<K: Hash + Eq, V: ExtractKey<K>>(items: Seq<V>) -> Seq<K> {
    items.map_values(|value: V| value.key())
}

/// The slots after each of `items` was inserted in turn, each under the hash
/// that `hasher` gives for its key.
pub open spec fn inserted_all<K: Hash + Eq, V: ExtractKey<K>>(
    slots: Seq<Slot<V>>,
    items: Seq<V>,
    hasher: spec_fn(K) -> u64,
) -> Seq<Slot<V>>
    decreases items.len(),
{
    if items.len() == 0 {
        slots
    } else {
        inserted(
            inserted_all(slots, items.drop_last(), hasher),
            hasher(items.last().key()),
            items.last(),
        )
    }
}

/// The hashes that `hasher` gives for the keys of the values, in their
/// order.
pub open spec fn hashes_of<K: Hash + Eq, V: ExtractKey<K>>(
    items: Seq<V>,
    hasher: spec_fn(K) -> u64,
) -> Seq<u64> {
    items.map_values(|value: V| hasher(value.key()))
}

/// Every value of `a` is found in `b` under its key, and the two are
/// equally long: the two hold the same values, in whatever order.
pub open spec fn same_values<K: Hash + Eq, V: ExtractKey<K>>(
    a: Seq<Slot<V>>,
    b: Seq<Slot<V>>,
    hasher_of_b: spec_fn(K) -> u64,
) -> bool {
    &&& a.len() == b.len()
    &&& forall|i: int|
        0 <= i < a.len() ==> lookup(b, hasher_of_b((#[trigger] a[i]).value.key()), a[i].value.key())
            == Some(a[i].value)
}

/// What is found under a hash and a key is a value of the map that has that
/// key and is stored under that hash.
pub proof fn lemma_found_is_stored<K: Hash + Eq, V: ExtractKey<K>>(
    slots: Seq<Slot<V>>,
    hash: u64,
    key: K,
)
    requires
        lookup(slots, hash, key) is Some,
    ensures
        exists|i: int|
            0 <= i < slots.len() && #[trigger] slots[i].value == lookup(slots, hash, key)->Some_0
                && slots[i].hash == hash && slots[i].value.key() == key,
{
    let i = position(slots, hash, key)->Some_0;
    assert(slot_has(slots[i], hash, key));
}

/// Where no value has the key, nothing is found under it and nothing is
/// removed by it, whatever the hash: the slots, and with them their number,
/// stay as they were.
pub proof fn lemma_absent_key<K: Hash + Eq, V: ExtractKey<K>>(
    slots: Seq<Slot<V>>,
    hash: u64,
    key: K,
)
    requires
        forall|i: int| 0 <= i < slots.len() ==> (#[trigger] slots[i]).value.key() != key,
    ensures
        lookup(slots, hash, key) == None::<V>,
        !present(slots, hash, key),
        removed(slots, hash, key) == slots,
{
    lemma_position_none(slots, hash, key);
}

/// A value that was inserted is found under its hash and key.
pub proof fn lemma_insert_then_get<K: Hash + Eq, V: ExtractKey<K>>(
    slots: Seq<Slot<V>>,
    hash: u64,
    value: V,
)
    requires
        distinct::<K, V>(slots),
    ensures
        lookup(inserted(slots, hash, value), hash, value.key()) == Some(value),
        present(inserted(slots, hash, value), hash, value.key()),
{
    let after = inserted(slots, hash, value);
    lemma_inserted_distinct(slots, hash, value);
    match position(slots, hash, value.key()) {
        Some(i) => {
            lemma_position_unique(after, i, hash, value.key());
        },
        None => {
            lemma_position_unique(after, slots.len() as int, hash, value.key());
        },
    }
}

/// An insert leaves what is stored under another hash or key as it was.
pub proof fn lemma_insert_keeps_others<K: Hash + Eq, V: ExtractKey<K>>(
    slots: Seq<Slot<V>>,
    hash: u64,
    value: V,
    other_hash: u64,
    other_key: K,
)
    requires
        distinct::<K, V>(slots),
        other_hash != hash || other_key != value.key(),
    ensures
        lookup(inserted(slots, hash, value), other_hash, other_key) == lookup(
            slots,
            other_hash,
            other_key,
        ),
{
    let after = inserted(slots, hash, value);
    lemma_inserted_distinct(slots, hash, value);
    if present(slots, other_hash, other_key) {
        let j = position(slots, other_hash, other_key)->Some_0;
        assert(slot_has(slots[j], other_hash, other_key));
        assert(after[j] == slots[j]);
        lemma_position_unique(after, j, other_hash, other_key);
        lemma_position_unique(slots, j, other_hash, other_key);
    } else {
        assert forall|i: int| 0 <= i < after.len() implies !slot_has(
            #[trigger] after[i],
            other_hash,
            other_key,
        ) by {
            if i < slots.len() && after[i] == slots[i] {
                assert(!slot_has(slots[i], other_hash, other_key));
            }
        }
        lemma_position_none(after, other_hash, other_key);
        lemma_position_none(slots, other_hash, other_key);
    }
}

/// After a removal nothing is found under the hash and key that were
/// removed.
pub proof fn lemma_remove_then_get<K: Hash + Eq, V: ExtractKey<K>>(
    slots: Seq<Slot<V>>,
    hash: u64,
    key: K,
)
    requires
        distinct::<K, V>(slots),
    ensures
        lookup(removed(slots, hash, key), hash, key) == None::<V>,
        !present(removed(slots, hash, key), hash, key),
{
    let after = removed(slots, hash, key);
    match position(slots, hash, key) {
        Some(p) => {
            assert(slot_has(slots[p], hash, key));
            assert forall|i: int| 0 <= i < after.len() implies !slot_has(
                #[trigger] after[i],
                hash,
                key,
            ) by {
                let from = if i == p {
                    slots.len() - 1
                } else {
                    i
                };
                assert(after[i] == slots[from]);
            }
        },
        None => {
            assert forall|i: int| 0 <= i < after.len() implies !slot_has(
                #[trigger] after[i],
                hash,
                key,
            ) by {}
        },
    }
    lemma_position_none(after, hash, key);
}

/// Removing what is not there changes nothing: the slots, and with them
/// their number, stay as they were.
pub proof fn lemma_remove_absent<K: Hash + Eq, V: ExtractKey<K>>(
    slots: Seq<Slot<V>>,
    hash: u64,
    key: K,
)
    requires
        lookup(slots, hash, key) == None::<V>,
    ensures
        removed(slots, hash, key) == slots,
        removed(slots, hash, key).len() == slots.len(),
{
}

/// Removing what is there makes the slots one fewer.
pub proof fn lemma_remove_present<K: Hash + Eq, V: ExtractKey<K>>(
    slots: Seq<Slot<V>>,
    hash: u64,
    key: K,
)
    requires
        present(slots, hash, key),
    ensures
        removed(slots, hash, key).len() == slots.len() - 1,
{
}

/// A removal leaves what is stored under another hash or key as it was.
pub proof fn lemma_remove_keeps_others<K: Hash + Eq, V: ExtractKey<K>>(
    slots: Seq<Slot<V>>,
    hash: u64,
    key: K,
    other_hash: u64,
    other_key: K,
)
    requires
        distinct::<K, V>(slots),
        other_hash != hash || other_key != key,
    ensures
        lookup(removed(slots, hash, key), other_hash, other_key) == lookup(
            slots,
            other_hash,
            other_key,
        ),
{
    let after = removed(slots, hash, key);
    match position(slots, hash, key) {
        Some(p) => {
            assert(slot_has(slots[p], hash, key));
            lemma_vacated_distinct::<K, V>(slots, p);
            let last = slots.len() - 1;
            if present(slots, other_hash, other_key) {
                let j = position(slots, other_hash, other_key)->Some_0;
                assert(slot_has(slots[j], other_hash, other_key));
                let to = if j == last {
                    p
                } else {
                    j
                };
                assert(after[to] == slots[j]);
                lemma_position_unique(after, to, other_hash, other_key);
                lemma_position_unique(slots, j, other_hash, other_key);
            } else {
                assert forall|i: int| 0 <= i < after.len() implies !slot_has(
                    #[trigger] after[i],
                    other_hash,
                    other_key,
                ) by {
                    let from = if i == p {
                        last
                    } else {
                        i
                    };
                    assert(after[i] == slots[from]);
                    assert(!slot_has(slots[from], other_hash, other_key));
                }
                lemma_position_none(after, other_hash, other_key);
                lemma_position_none(slots, other_hash, other_key);
            }
        },
        None => {},
    }
}

/// While a value is held outside the map, nothing is found under its hash
/// and key; once it is stored again with the key it had, it is found again.
pub proof fn lemma_guard_hides_then_restores<K: Hash + Eq, V: ExtractKey<K>>(
    slots: Seq<Slot<V>>,
    hash: u64,
    key: K,
    released: V,
)
    requires
        distinct::<K, V>(slots),
        present(slots, hash, key),
        released.key() == key,
    ensures
        lookup(removed(slots, hash, key), hash, key) == None::<V>,
        !present(removed(slots, hash, key), hash, key),
        lookup(inserted(removed(slots, hash, key), hash, released), hash, key) == Some(released),
        present(inserted(removed(slots, hash, key), hash, released), hash, key),
        inserted(removed(slots, hash, key), hash, released).len() == slots.len(),
{
    let held = removed(slots, hash, key);
    let p = position(slots, hash, key)->Some_0;
    lemma_vacated_distinct::<K, V>(slots, p);
    lemma_remove_then_get(slots, hash, key);
    lemma_insert_then_get(held, hash, released);
}

/// A value that was taken out, changed without a change of its key, and
/// stored again is what is found under that key.
pub proof fn lemma_guard_same_key<K: Hash + Eq, V: ExtractKey<K>>(
    slots: Seq<Slot<V>>,
    hash: u64,
    key: K,
    changed: V,
)
    requires
        distinct::<K, V>(slots),
        changed.key() == key,
    ensures
        lookup(inserted(removed(slots, hash, key), hash, changed), hash, key) == Some(changed),
{
    let held = removed(slots, hash, key);
    match position(slots, hash, key) {
        Some(p) => {
            lemma_vacated_distinct::<K, V>(slots, p);
        },
        None => {},
    }
    lemma_insert_then_get(held, hash, changed);
}

/// A value that was taken out, given another key, and stored again is found
/// under the new key, and nothing is found under the old one.
pub proof fn lemma_guard_new_key<K: Hash + Eq, V: ExtractKey<K>>(
    slots: Seq<Slot<V>>,
    hasher: spec_fn(K) -> u64,
    key: K,
    changed: V,
)
    requires
        distinct::<K, V>(slots),
        changed.key() != key,
    ensures
        lookup(
            inserted(removed(slots, hasher(key), key), hasher(changed.key()), changed),
            hasher(key),
            key,
        ) == None::<V>,
        lookup(
            inserted(removed(slots, hasher(key), key), hasher(changed.key()), changed),
            hasher(changed.key()),
            changed.key(),
        ) == Some(changed),
{
    let held = removed(slots, hasher(key), key);
    match position(slots, hasher(key), key) {
        Some(p) => {
            lemma_vacated_distinct::<K, V>(slots, p);
        },
        None => {},
    }
    lemma_remove_then_get(slots, hasher(key), key);
    lemma_insert_then_get(held, hasher(changed.key()), changed);
    lemma_insert_keeps_others(held, hasher(changed.key()), changed, hasher(key), key);
}

/// In slots that are distinct and hashed by one function no key occurs
/// twice.
pub proof fn lemma_keys_no_duplicates<K: Hash + Eq, V: ExtractKey<K>>(
    slots: Seq<Slot<V>>,
    hasher: spec_fn(K) -> u64,
)
    requires
        distinct::<K, V>(slots),
        hashed_by(slots, hasher),
    ensures
        keys::<K, V>(slots).no_duplicates(),
        keys::<K, V>(slots).to_set().len() == slots.len(),
{
    let ks = keys::<K, V>(slots);
    assert forall|i: int, j: int| 0 <= i < ks.len() && 0 <= j < ks.len() && i != j implies ks[i]
        != ks[j] by {
        assert(slots[i].hash == hasher(slots[i].value.key()));
        assert(slots[j].hash == hasher(slots[j].value.key()));
    }
    ks.unique_seq_to_set();
}

/// Inserting values under the hashes of one function keeps the slots
/// distinct and hashed by it, and adds exactly their keys.
pub proof fn lemma_inserted_all<K: Hash + Eq, V: ExtractKey<K>>(
    slots: Seq<Slot<V>>,
    items: Seq<V>,
    hasher: spec_fn(K) -> u64,
)
    requires
        distinct::<K, V>(slots),
        hashed_by(slots, hasher),
    ensures
        distinct::<K, V>(inserted_all(slots, items, hasher)),
        hashed_by(inserted_all(slots, items, hasher), hasher),
        keys::<K, V>(inserted_all(slots, items, hasher)).to_set() == keys::<K, V>(
            slots,
        ).to_set().union(keys_of::<K, V>(items).to_set()),
    decreases items.len(),
{
    let after = inserted_all(slots, items, hasher);
    if items.len() == 0 {
        assert(keys_of::<K, V>(items).to_set() =~= Set::<K>::empty());
        assert(keys::<K, V>(after).to_set() =~= keys::<K, V>(slots).to_set().union(
            keys_of::<K, V>(items).to_set(),
        ));
    } else {
        let before = inserted_all(slots, items.drop_last(), hasher);
        let value = items.last();
        let hash = hasher(value.key());
        lemma_inserted_all(slots, items.drop_last(), hasher);
        lemma_inserted_distinct(before, hash, value);
        lemma_insert_adds_key(before, value, hasher);
        assert(keys_of::<K, V>(items) =~= keys_of::<K, V>(items.drop_last()).push(value.key()));
        lemma_push_to_set(keys_of::<K, V>(items.drop_last()), value.key());
        assert(keys::<K, V>(after).to_set() =~= keys::<K, V>(slots).to_set().union(
            keys_of::<K, V>(items).to_set(),
        ));
    }
}

/// The elements of a sequence with one more at its end are those of the
/// sequence and that one.
pub proof fn lemma_push_to_set<A>(s: Seq<A>, a: A)
    ensures
        s.push(a).to_set() == s.to_set().insert(a),
{
    assert forall|x: A| s.push(a).to_set().contains(x) <==> s.to_set().insert(a).contains(x) by {
        if s.push(a).to_set().contains(x) {
            let i = choose|i: int| 0 <= i < s.push(a).len() && s.push(a)[i] == x;
            if i < s.len() {
                assert(s[i] == x);
            }
        }
        if s.to_set().contains(x) {
            let i = choose|i: int| 0 <= i < s.len() && s[i] == x;
            assert(s.push(a)[i] == x);
        }
        if x == a {
            assert(s.push(a)[s.len() as int] == a);
        }
    }
    assert(s.push(a).to_set() =~= s.to_set().insert(a));
}

/// One insert under the hash of a function keeps the slots hashed by it and
/// adds the key of the value to their keys.
pub proof fn lemma_insert_adds_key<K: Hash + Eq, V: ExtractKey<K>>(
    slots: Seq<Slot<V>>,
    value: V,
    hasher: spec_fn(K) -> u64,
)
    requires
        distinct::<K, V>(slots),
        hashed_by(slots, hasher),
    ensures
        hashed_by(inserted(slots, hasher(value.key()), value), hasher),
        keys::<K, V>(inserted(slots, hasher(value.key()), value)).to_set() == keys::<K, V>(
            slots,
        ).to_set().insert(value.key()),
{
    let hash = hasher(value.key());
    let after = inserted(slots, hash, value);
    match position(slots, hash, value.key()) {
        Some(p) => {
            assert(slot_has(slots[p], hash, value.key()));
            assert(keys::<K, V>(after) =~= keys::<K, V>(slots));
            assert(keys::<K, V>(slots)[p] == value.key());
            assert(keys::<K, V>(slots).to_set().contains(value.key()));
            assert(keys::<K, V>(slots).to_set().insert(value.key()) =~= keys::<K, V>(
                slots,
            ).to_set());
        },
        None => {
            assert(keys::<K, V>(after) =~= keys::<K, V>(slots).push(value.key()));
            lemma_push_to_set(keys::<K, V>(slots), value.key());
        },
    }
}

/// Inserting each value under the hash that one function gives for its key
/// is `inserted_all` for that function.
pub proof fn lemma_inserted_each_by_hasher<K: Hash + Eq, V: ExtractKey<K>>(
    slots: Seq<Slot<V>>,
    items: Seq<V>,
    hasher: spec_fn(K) -> u64,
)
    ensures
        inserted_each(slots, items, hashes_of(items, hasher)) == inserted_all(slots, items, hasher),
    decreases items.len(),
{
    if items.len() > 0 {
        assert(hashes_of(items, hasher).drop_last() =~= hashes_of(items.drop_last(), hasher));
        lemma_inserted_each_by_hasher(slots, items.drop_last(), hasher);
    }
}

/// After any sequence of inserts into an empty map there are as many slots
/// as there are distinct keys among the values inserted.
pub proof fn lemma_len_counts_distinct_keys<K: Hash + Eq, V: ExtractKey<K>>(
    items: Seq<V>,
    hasher: spec_fn(K) -> u64,
)
    ensures
        inserted_all(Seq::<Slot<V>>::empty(), items, hasher).len() == keys_of::<K, V>(
            items,
        ).to_set().len(),
{
    let empty = Seq::<Slot<V>>::empty();
    let after = inserted_all(empty, items, hasher);
    lemma_inserted_all(empty, items, hasher);
    lemma_keys_no_duplicates(after, hasher);
    assert(keys::<K, V>(empty).to_set() =~= Set::<K>::empty());
    assert(keys::<K, V>(after).to_set() =~= keys_of::<K, V>(items).to_set());
}

/// After any sequence of inserts, the value found under a key is the last
/// one that was inserted with it.
pub proof fn lemma_last_insert_wins<K: Hash + Eq, V: ExtractKey<K>>(
    slots: Seq<Slot<V>>,
    items: Seq<V>,
    hasher: spec_fn(K) -> u64,
    i: int,
)
    requires
        distinct::<K, V>(slots),
        hashed_by(slots, hasher),
        0 <= i < items.len(),
        forall|j: int| i < j < items.len() ==> items[j].key() != items[i].key(),
    ensures
        lookup(inserted_all(slots, items, hasher), hasher(items[i].key()), items[i].key()) == Some(
            items[i],
        ),
    decreases items.len(),
{
    let before = inserted_all(slots, items.drop_last(), hasher);
    let last = items.last();
    lemma_inserted_all(slots, items.drop_last(), hasher);
    if i == items.len() - 1 {
        lemma_insert_then_get(before, hasher(last.key()), last);
    } else {
        assert(items.drop_last()[i] == items[i]);
        assert forall|j: int| i < j < items.drop_last().len() implies items.drop_last()[j].key()
            != items.drop_last()[i].key() by {
            assert(items.drop_last()[j] == items[j]);
        }
        lemma_last_insert_wins(slots, items.drop_last(), hasher, i);
        lemma_insert_keeps_others(
            before,
            hasher(last.key()),
            last,
            hasher(items[i].key()),
            items[i].key(),
        );
    }
}

/// Collecting the values of a map into an empty one gives the same slots
/// again, where both maps hash by the same function.
pub proof fn lemma_collect_same_hasher<K: Hash + Eq, V: ExtractKey<K>>(
    slots: Seq<Slot<V>>,
    hasher: spec_fn(K) -> u64,
)
    requires
        distinct::<K, V>(slots),
        hashed_by(slots, hasher),
    ensures
        inserted_all(Seq::<Slot<V>>::empty(), values(slots), hasher) == slots,
    decreases slots.len(),
{
    let empty = Seq::<Slot<V>>::empty();
    if slots.len() == 0 {
        assert(values(slots) =~= Seq::<V>::empty());
        assert(inserted_all(empty, values(slots), hasher) =~= slots);
    } else {
        let front = slots.drop_last();
        let last = slots.last();
        assert(values(slots).drop_last() =~= values(front));
        assert(values(slots).last() == last.value);
        lemma_collect_same_hasher::<K, V>(front, hasher);
        assert forall|i: int| 0 <= i < front.len() implies !slot_has(
            #[trigger] front[i],
            last.hash,
            last.value.key(),
        ) by {
            assert(front[i] == slots[i]);
        }
        lemma_position_none(front, last.hash, last.value.key());
        assert(inserted(front, last.hash, last.value) =~= slots);
    }
}

/// Collecting the values of a map into an empty one gives a map that holds
/// the same values, whatever function either of them hashes by.
pub proof fn lemma_collect_round_trip<K: Hash + Eq, V: ExtractKey<K>>(
    slots: Seq<Slot<V>>,
    hasher: spec_fn(K) -> u64,
    fresh_hasher: spec_fn(K) -> u64,
)
    requires
        distinct::<K, V>(slots),
        hashed_by(slots, hasher),
    ensures
        same_values(
            slots,
            inserted_all(Seq::<Slot<V>>::empty(), values(slots), fresh_hasher),
            fresh_hasher,
        ),
        same_values(
            inserted_all(Seq::<Slot<V>>::empty(), values(slots), fresh_hasher),
            slots,
            hasher,
        ),
{
    let empty = Seq::<Slot<V>>::empty();
    let items = values(slots);
    let fresh = inserted_all(empty, items, fresh_hasher);
    lemma_inserted_all(empty, items, fresh_hasher);
    lemma_keys_no_duplicates(slots, hasher);
    lemma_keys_no_duplicates(fresh, fresh_hasher);
    assert(keys_of::<K, V>(items) =~= keys::<K, V>(slots));
    assert(keys::<K, V>(empty).to_set() =~= Set::<K>::empty());
    assert(keys::<K, V>(fresh).to_set() =~= keys::<K, V>(slots).to_set());
    assert forall|i: int| 0 <= i < slots.len() implies lookup(
        fresh,
        fresh_hasher((#[trigger] slots[i]).value.key()),
        slots[i].value.key(),
    ) == Some(slots[i].value) by {
        assert forall|j: int| i < j < items.len() implies items[j].key() != items[i].key() by {
            assert(keys::<K, V>(slots)[i] == items[i].key());
            assert(keys::<K, V>(slots)[j] == items[j].key());
        }
        lemma_last_insert_wins(empty, items, fresh_hasher, i);
    }
    assert forall|i: int| 0 <= i < fresh.len() implies lookup(
        slots,
        hasher((#[trigger] fresh[i]).value.key()),
        fresh[i].value.key(),
    ) == Some(fresh[i].value) by {
        let key = fresh[i].value.key();
        assert(keys::<K, V>(fresh)[i] == key);
        assert(keys::<K, V>(fresh).to_set().contains(key));
        assert(keys::<K, V>(slots).to_set().contains(key));
        let j = choose|j: int| 0 <= j < slots.len() && keys::<K, V>(slots)[j] == key;
        assert(slots[j].hash == hasher(key));
        lemma_position_unique(slots, j, hasher(key), key);
        assert(lookup(fresh, fresh_hasher(key), key) == Some(slots[j].value));
        assert(fresh[i].hash == fresh_hasher(key));
        lemma_position_unique(fresh, i, fresh_hasher(key), key);
    }
}

} // verus!
