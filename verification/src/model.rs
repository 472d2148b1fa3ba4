//! The mathematical model of the map: a sequence of slots, each a value
//! together with the hash it was stored under.
//!
//! A slot is found by the pair of its hash and its key. In a sequence that is
//! `distinct` no two slots share that pair, so `position` names at most one
//! slot and `inserted`, `removed` and `lookup` are the usual map operations,
//! keyed by `(hash, key)`.

use crate::key::ExtractKey;
use core::hash::Hash;
use vstd::prelude::*;

verus! {

/// One stored value and the hash it was stored under.
pub struct Slot<V> {
    pub hash: u64,
    pub value: V,
}

/// The values of the slots, in their order.
pub open spec fn values<V>(slots: Seq<Slot<V>>) -> Seq<V> {
    slots.map_values(|slot: Slot<V>| slot.value)
}

/// Whether `slot` is the one that `(hash, key)` names.
pub open spec fn slot_has<K: Hash + Eq, V: ExtractKey<K>>(slot: Slot<V>, hash: u64, key: K) -> bool {
    slot.hash == hash && slot.value.key() == key
}

/// No two slots have the same hash and the same key.
pub open spec fn distinct<K: Hash + Eq, V: ExtractKey<K>>(slots: Seq<Slot<V>>) -> bool {
    forall|i: int, j: int|
        0 <= i < slots.len() && 0 <= j < slots.len() && slots[i].hash == slots[j].hash
            && slots[i].value.key() == slots[j].value.key() ==> i == j
}

/// Whether some slot is named by `(hash, key)`.
pub open spec fn present<K: Hash + Eq, V: ExtractKey<K>>(
    slots: Seq<Slot<V>>,
    hash: u64,
    key: K,
) -> bool {
    exists|i: int| 0 <= i < slots.len() && slot_has(#[trigger] slots[i], hash, key)
}

/// The position of the slot that `(hash, key)` names, if there is one.
pub open spec fn position<K: Hash + Eq, V: ExtractKey<K>>(
    slots: Seq<Slot<V>>,
    hash: u64,
    key: K,
) -> Option<int> {
    if present(slots, hash, key) {
        Some(choose|i: int| 0 <= i < slots.len() && slot_has(#[trigger] slots[i], hash, key))
    } else {
        None
    }
}

/// The value stored under `(hash, key)`, if there is one.
pub open spec fn lookup<K: Hash + Eq, V: ExtractKey<K>>(
    slots: Seq<Slot<V>>,
    hash: u64,
    key: K,
) -> Option<V> {
    match position(slots, hash, key) {
        Some(i) => Some(slots[i].value),
        None => None,
    }
}

/// The slots after `value` was stored under `hash`: it takes the place of the
/// slot with the same hash and key, or goes to the end.
pub open spec fn inserted<K: Hash + Eq, V: ExtractKey<K>>(
    slots: Seq<Slot<V>>,
    hash: u64,
    value: V,
) -> Seq<Slot<V>> {
    match position(slots, hash, value.key()) {
        Some(i) => slots.update(i, Slot { hash, value }),
        None => slots.push(Slot { hash, value }),
    }
}

/// The slots after each of `items` was stored in turn, the one at `i` under
/// the hash at `i`.
pub open spec fn inserted_each<K: Hash + Eq, V: ExtractKey<K>>(
    slots: Seq<Slot<V>>,
    items: Seq<V>,
    hashes: Seq<u64>,
) -> Seq<Slot<V>>
    decreases items.len(),
{
    if items.len() == 0 || hashes.len() != items.len() {
        slots
    } else {
        inserted(
            inserted_each(slots, items.drop_last(), hashes.drop_last()),
            hashes.last(),
            items.last(),
        )
    }
}

/// The slots after each of `keys` was visited in turn: at step `i` the value
/// under `(found[i], keys[i])` was taken out, and `after[i]` was stored
/// under `stored[i]`.
pub open spec fn visited<K: Hash + Eq, V: ExtractKey<K>>(
    slots: Seq<Slot<V>>,
    keys: Seq<K>,
    found: Seq<u64>,
    stored: Seq<u64>,
    after: Seq<V>,
) -> Seq<Slot<V>>
    decreases keys.len(),
{
    if keys.len() == 0 || found.len() != keys.len() || stored.len() != keys.len() || after.len()
        != keys.len() {
        slots
    } else {
        inserted(
            removed(
                visited(
                    slots,
                    keys.drop_last(),
                    found.drop_last(),
                    stored.drop_last(),
                    after.drop_last(),
                ),
                found.last(),
                keys.last(),
            ),
            stored.last(),
            after.last(),
        )
    }
}

/// The value that step `i` of a visit finds: what is stored under
/// `(found[i], keys[i])` after the steps before it.
pub open spec fn visit_finds<K: Hash + Eq, V: ExtractKey<K>>(
    slots: Seq<Slot<V>>,
    keys: Seq<K>,
    found: Seq<u64>,
    stored: Seq<u64>,
    after: Seq<V>,
    i: int,
) -> Option<V> {
    lookup(
        visited(slots, keys.take(i), found.take(i), stored.take(i), after.take(i)),
        found[i],
        keys[i],
    )
}

/// One more step of a visit: the value under `(hash, key)` is taken out of
/// what the steps before left, and `value` is stored under `store`.
pub proof fn lemma_visited_push<K: Hash + Eq, V: ExtractKey<K>>(
    slots: Seq<Slot<V>>,
    keys: Seq<K>,
    found: Seq<u64>,
    stored: Seq<u64>,
    after: Seq<V>,
    hash: u64,
    store: u64,
    value: V,
)
    requires
        found.len() == after.len(),
        stored.len() == after.len(),
        after.len() < keys.len(),
    ensures
        visited(
            slots,
            keys.take(after.len() as int + 1),
            found.push(hash),
            stored.push(store),
            after.push(value),
        ) == inserted(
            removed(
                visited(slots, keys.take(after.len() as int), found, stored, after),
                hash,
                keys[after.len() as int],
            ),
            store,
            value,
        ),
{
    let n = after.len() as int;
    assert(keys.take(n + 1).drop_last() =~= keys.take(n));
    assert(found.push(hash).drop_last() =~= found);
    assert(stored.push(store).drop_last() =~= stored);
    assert(after.push(value).drop_last() =~= after);
}

/// A step more at the end of a visit changes nothing of what the steps
/// before it found, and finds what is stored under its hash and key in
/// what they left.
pub proof fn lemma_visit_finds_push<K: Hash + Eq, V: ExtractKey<K>>(
    slots: Seq<Slot<V>>,
    keys: Seq<K>,
    found: Seq<u64>,
    stored: Seq<u64>,
    after: Seq<V>,
    hash: u64,
    store: u64,
    value: V,
    i: int,
)
    requires
        found.len() == after.len(),
        stored.len() == after.len(),
        after.len() < keys.len(),
        0 <= i <= after.len(),
    ensures
        i < after.len() ==> visit_finds(
            slots,
            keys,
            found.push(hash),
            stored.push(store),
            after.push(value),
            i,
        ) == visit_finds(slots, keys, found, stored, after, i),
        i == after.len() ==> visit_finds(
            slots,
            keys,
            found.push(hash),
            stored.push(store),
            after.push(value),
            i,
        ) == lookup(visited(slots, keys.take(i), found, stored, after), hash, keys[i]),
{
    assert(found.push(hash).take(i) =~= found.take(i));
    assert(stored.push(store).take(i) =~= stored.take(i));
    assert(after.push(value).take(i) =~= after.take(i));
    if i == after.len() {
        assert(found.take(i) =~= found);
        assert(stored.take(i) =~= stored);
        assert(after.take(i) =~= after);
    }
}

/// The slots after position `i` was vacated: the last slot moves into it.
pub open spec fn vacated<V>(slots: Seq<Slot<V>>, i: int) -> Seq<Slot<V>> {
    slots.update(i, slots.last()).drop_last()
}

/// The slots after the one named by `(hash, key)` was taken out.
pub open spec fn removed<K: Hash + Eq, V: ExtractKey<K>>(
    slots: Seq<Slot<V>>,
    hash: u64,
    key: K,
) -> Seq<Slot<V>> {
    match position(slots, hash, key) {
        Some(i) => vacated(slots, i),
        None => slots,
    }
}

/// In a distinct sequence the slot at `i` is the one its own hash and key name.
pub proof fn lemma_position_unique<K: Hash + Eq, V: ExtractKey<K>>(
    slots: Seq<Slot<V>>,
    i: int,
    hash: u64,
    key: K,
)
    requires
        distinct::<K, V>(slots),
        0 <= i < slots.len(),
        slot_has(slots[i], hash, key),
    ensures
        present(slots, hash, key),
        position(slots, hash, key) == Some(i),
        lookup(slots, hash, key) == Some(slots[i].value),
{
}

/// Where no slot matches, nothing is found.
pub proof fn lemma_position_none<K: Hash + Eq, V: ExtractKey<K>>(
    slots: Seq<Slot<V>>,
    hash: u64,
    key: K,
)
    requires
        forall|i: int| 0 <= i < slots.len() ==> !slot_has(#[trigger] slots[i], hash, key),
    ensures
        !present(slots, hash, key),
        position(slots, hash, key) == None::<int>,
        lookup(slots, hash, key) == None::<V>,
{
}

/// Storing a value keeps the sequence distinct.
pub proof fn lemma_inserted_distinct<K: Hash + Eq, V: ExtractKey<K>>(
    slots: Seq<Slot<V>>,
    hash: u64,
    value: V,
)
    requires
        distinct::<K, V>(slots),
    ensures
        distinct::<K, V>(inserted(slots, hash, value)),
{
    let after = inserted(slots, hash, value);
    match position(slots, hash, value.key()) {
        Some(p) => {
            assert forall|i: int, j: int|
                0 <= i < after.len() && 0 <= j < after.len() && after[i].hash == after[j].hash
                    && after[i].value.key() == after[j].value.key() implies i == j by {
                assert(slot_has(slots[i], after[i].hash, after[i].value.key()));
                assert(slot_has(slots[j], after[j].hash, after[j].value.key()));
            }
        },
        None => {
            assert forall|i: int, j: int|
                0 <= i < after.len() && 0 <= j < after.len() && after[i].hash == after[j].hash
                    && after[i].value.key() == after[j].value.key() implies i == j by {
                if i < slots.len() && j == slots.len() {
                    assert(slot_has(slots[i], hash, value.key()));
                }
                if j < slots.len() && i == slots.len() {
                    assert(slot_has(slots[j], hash, value.key()));
                }
            }
        },
    }
}

/// The slots after the value at `i` was overwritten in place.
pub open spec fn rewritten<V>(slots: Seq<Slot<V>>, i: int, value: V) -> Seq<Slot<V>> {
    slots.update(i, Slot { hash: slots[i].hash, value })
}

/// Overwriting a value by one with the same key keeps the sequence distinct.
pub proof fn lemma_rewritten_distinct<K: Hash + Eq, V: ExtractKey<K>>(
    slots: Seq<Slot<V>>,
    i: int,
    value: V,
)
    requires
        distinct::<K, V>(slots),
        0 <= i < slots.len(),
        value.key() == slots[i].value.key(),
    ensures
        distinct::<K, V>(rewritten(slots, i, value)),
{
    let after = rewritten(slots, i, value);
    assert forall|a: int, b: int|
        0 <= a < after.len() && 0 <= b < after.len() && after[a].hash == after[b].hash
            && after[a].value.key() == after[b].value.key() implies a == b by {
        assert(slots[a].hash == after[a].hash && slots[a].value.key() == after[a].value.key());
        assert(slots[b].hash == after[b].hash && slots[b].value.key() == after[b].value.key());
    }
}

/// Vacating a position keeps the sequence distinct.
pub proof fn lemma_vacated_distinct<K: Hash + Eq, V: ExtractKey<K>>(slots: Seq<Slot<V>>, i: int)
    requires
        distinct::<K, V>(slots),
        0 <= i < slots.len(),
    ensures
        distinct::<K, V>(vacated(slots, i)),
{
    let after = vacated(slots, i);
    let last = slots.len() - 1;
    assert forall|a: int, b: int|
        0 <= a < after.len() && 0 <= b < after.len() && after[a].hash == after[b].hash
            && after[a].value.key() == after[b].value.key() implies a == b by {
        let sa = if a == i { last } else { a };
        let sb = if b == i { last } else { b };
        assert(after[a] == slots[sa]);
        assert(after[b] == slots[sb]);
    }
}

} // verus!
