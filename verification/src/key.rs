//! The capability a stored value must offer: hand out its own key.

use core::hash::Hash;
use vstd::laws_eq::obeys_concrete_eq;
use vstd::prelude::*;

verus! {

/// A value that contains the key it is stored under.
///
/// The map relies on `extract_key` in the same way as it relies on `Hash`
/// and `Eq` of the key: it must read a field of the value and nothing else.
pub trait ExtractKey<K: Hash + Eq> {
    /// The key of this value, as the contracts see it: what `extract_key`
    /// returns for it. A verified implementation states it outright.
    open spec fn key(&self) -> K {
        choose|key: K| call_ensures(Self::extract_key, (self,), &key)
    }

    /// Extracts the key that this value is referred to with.
    fn extract_key(&self) -> &K;
}

/// `extract_key` returns the key of the value, each time it is asked.
pub open spec fn obeys_extract_key<K: Hash + Eq, V: ExtractKey<K>>() -> bool {
    forall|value: V, key: K| #[trigger]
        call_ensures(V::extract_key, (&value,), &key) ==> key == value.key()
}

/// What the map asks of its keys: `==` on them is equality, and
/// `extract_key` is a function of the value. The contracts of the map say
/// what it holds under this condition.
pub open spec fn key_model<K: Hash + Eq, V: ExtractKey<K>>() -> bool {
    obeys_concrete_eq::<K>() && obeys_extract_key::<K, V>()
}

/// The key of a value, read out of it.
pub fn key_of<K: Hash + Eq, V: ExtractKey<K>>(value: &V) -> (key: &K)
    ensures
        obeys_extract_key::<K, V>() ==> *key == value.key(),
{
    value.extract_key()
}

} // verus!
