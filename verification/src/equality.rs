//! Equality of two maps: the same values, in whatever order.

use crate::hashing::hash_one;
use crate::key::{key_of, ExtractKey};
use crate::laws::same_values;
use crate::map::ExtractMap;
use crate::model::{lookup, Slot};
use core::hash::{BuildHasher, Hash};
use vstd::prelude::*;
use vstd::std_specs::cmp::PartialEqSpec;

verus! {

/// Whether `slots` hold, under `hash` and the key of `value`, a value that
/// `value` is `==` to.
pub open spec fn holds_equal<K: Hash + Eq, V: ExtractKey<K> + PartialEq>(
    slots: Seq<Slot<V>>,
    hash: u64,
    value: V,
) -> bool {
    match lookup(slots, hash, value.key()) {
        Some(held) => value.eq_spec(&held),
        None => false,
    }
}

/// Whether `slots` hold a value that `value` is `==` to, under the key of
/// `value` and some hash.
pub open spec fn holds_equal_somewhere<K: Hash + Eq, V: ExtractKey<K> + PartialEq>(
    slots: Seq<Slot<V>>,
    value: V,
) -> bool {
    exists|hash: u64| #[trigger] holds_equal(slots, hash, value)
}

/// Whether some hash finds in `slots` no value that `value` is `==` to.
pub open spec fn misses_equal_somewhere<K: Hash + Eq, V: ExtractKey<K> + PartialEq>(
    slots: Seq<Slot<V>>,
    value: V,
) -> bool {
    exists|hash: u64| !#[trigger] holds_equal(slots, hash, value)
}

/// Slots that hold the same values as others hold, for each of their
/// values, one that it is `==` to, where `==` holds between a value and
/// itself.
pub proof fn lemma_same_values_hold_equal<K: Hash + Eq, V: ExtractKey<K> + PartialEq>(
    a: Seq<Slot<V>>,
    b: Seq<Slot<V>>,
    hasher_of_b: spec_fn(K) -> u64,
)
    requires
        same_values(a, b, hasher_of_b),
        forall|value: V| #[trigger] value.eq_spec(&value),
    ensures
        a.len() == b.len(),
        forall|i: int| 0 <= i < a.len() ==> holds_equal_somewhere(b, (#[trigger] a[i]).value),
{
    assert forall|i: int| 0 <= i < a.len() implies holds_equal_somewhere(
        b,
        (#[trigger] a[i]).value,
    ) by {
        assert(holds_equal(b, hasher_of_b(a[i].value.key()), a[i].value));
    }
}

impl<K: Hash + Eq, V: ExtractKey<K> + PartialEq, S> ExtractMap<K, V, S> {
    /// Whether the map holds, under `hash` and the key of `value`, a value
    /// that `value` is `==` to.
    pub fn contains_equal_hashed(&self, hash: u64, value: &V) -> (found: bool)
        requires
            self.wf(),
        ensures
            self.keyed() && V::obeys_eq_spec() ==> found == holds_equal(self@, hash, *value),
    {
        match self.get_hashed(hash, key_of(value)) {
            Some(held) => *value == *held,
            None => false,
        }
    }
}

impl<K: Hash + Eq, V: ExtractKey<K> + PartialEq, S> ExtractMap<K, V, S> {
    /// Whether the two maps hold the same values, where the value at
    /// position `i` of this map is looked for in `other` under `hashes[i]`:
    /// the maps are equally long, there is a hash for each value, and each
    /// value is `==` to what `other` holds under its hash and key.
    pub fn equals_hashed(&self, other: &Self, hashes: &Vec<u64>) -> (equal: bool)
        requires
            self.wf(),
            other.wf(),
        ensures
            other.keyed() && V::obeys_eq_spec() ==> equal == {
                &&& self@.len() == other@.len()
                &&& hashes@.len() == self@.len()
                &&& forall|i: int|
                    0 <= i < self@.len() ==> holds_equal(
                        other@,
                        #[trigger] hashes@[i],
                        self@[i].value,
                    )
            },
    {
        if self.len() != other.len() || hashes.len() != self.len() {
            return false;
        }
        let mut i: usize = 0;
        while i < self.len()
            invariant
                self.wf(),
                other.wf(),
                i <= self@.len(),
                hashes@.len() == self@.len(),
                other.keyed() && V::obeys_eq_spec() ==> forall|j: int|
                    0 <= j < i ==> holds_equal(other@, #[trigger] hashes@[j], self@[j].value),
            decreases self@.len() - i,
        {
            if !other.contains_equal_hashed(hashes[i], self.value_at(i)) {
                return false;
            }
            i = i + 1;
        }
        true
    }
}

impl<K: Hash + Eq, V: ExtractKey<K> + PartialEq, S: BuildHasher> ExtractMap<K, V, S> {
    /// Whether the two maps hold the same values: they are equally long,
    /// and each value of this map is `==` to the value that `other` holds
    /// under its key. The order of the values plays no part, nor do the
    /// hashers.
    ///
    /// Each key is hashed with the hasher of `other`; the result is as
    /// `equals_hashed` and `contains_equal_hashed` say for the hashes that
    /// came back.
    pub fn equals(&self, other: &Self) -> (equal: bool)
        requires
            self.wf(),
            other.wf(),
        ensures
            equal ==> self@.len() == other@.len(),
            other.keyed() && V::obeys_eq_spec() && equal ==> forall|i: int|
                0 <= i < self@.len() ==> #[trigger] holds_equal_somewhere(other@, self@[i].value),
            other.keyed() && V::obeys_eq_spec() && !equal ==> self@.len() != other@.len()
                || exists|i: int|
                0 <= i < self@.len() && #[trigger] misses_equal_somewhere(
                    other@,
                    self@[i].value,
                ),
    {
        if self.len() != other.len() {
            return false;
        }
        let mut i: usize = 0;
        while i < self.len()
            invariant
                self.wf(),
                other.wf(),
                i <= self@.len(),
                other.keyed() && V::obeys_eq_spec() ==> forall|j: int|
                    0 <= j < i ==> #[trigger] holds_equal_somewhere(other@, self@[j].value),
            decreases self@.len() - i,
        {
            let value = self.value_at(i);
            let hash = hash_one(other.build_hasher(), key_of(value));
            if !other.contains_equal_hashed(hash, value) {
                assert(other.keyed() && V::obeys_eq_spec() ==> misses_equal_somewhere(
                    other@,
                    self@[i as int].value,
                )) by {
                    if other.keyed() && V::obeys_eq_spec() {
                        assert(!holds_equal(other@, hash, self@[i as int].value));
                    }
                }
                return false;
            }
            assert(other.keyed() && V::obeys_eq_spec() ==> holds_equal_somewhere(
                other@,
                self@[i as int].value,
            )) by {
                if other.keyed() && V::obeys_eq_spec() {
                    assert(holds_equal(other@, hash, self@[i as int].value));
                }
            }
            i = i + 1;
        }
        true
    }
}

} // verus!
