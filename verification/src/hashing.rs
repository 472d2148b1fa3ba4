//! Hashing a key with a caller-supplied `BuildHasher`.

use core::hash::{BuildHasher, Hash, Hasher};
use std::collections::hash_map::RandomState;
use vstd::prelude::*;

verus! {

/// `RandomState::new`: a hasher builder with keys of its own. Nothing is
/// claimed of them.
#[verifier::external_body]
pub(crate) fn fresh_random_state() -> (state: RandomState) {
    RandomState::new()
}

/// `BuildHasher::build_hasher`: a fresh hasher of the builder. Nothing is
/// claimed of its state.
#[verifier::external_body]
fn fresh_hasher<S: BuildHasher>(build_hasher: &S) -> (state: S::Hasher) {
    build_hasher.build_hasher()
}

/// `Hash::hash`: feeds `val` into `state`. Nothing is claimed of the state
/// afterwards.
#[verifier::external_body]
fn feed<H: Hash, W: Hasher>(val: &H, state: &mut W) {
    val.hash(state)
}

/// `Hasher::finish`: the digest of what was fed so far. Nothing is claimed
/// of its value.
#[verifier::external_body]
fn digest<W: Hasher>(state: &W) -> (hash: u64) {
    state.finish()
}

/// Hashes `val` with a fresh hasher of `build_hasher`.
///
/// The result is whatever the hasher computes: the map is correct for every
/// value of it, so nothing is promised here.
pub fn hash_one<S: BuildHasher, H: Hash>(build_hasher: &S, val: H) -> (hash: u64) {
    let mut hasher = fresh_hasher(build_hasher);
    feed(&val, &mut hasher);
    digest(&hasher)
}

} // verus!
