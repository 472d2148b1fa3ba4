//! A hash map for values that carry their own key.
//!
//! [`ExtractMap`] stores each value once and finds it again by the key that
//! [`ExtractKey::extract_key`] reads out of it. The values stand in a dense
//! vector of [`Slot`]s, each with the hash it was stored under; a
//! `hashbrown` table of positions finds the slot of a hash and a key.
//!
//! # Hashes
//!
//! Nothing is known of what a hasher returns, so the map is proved for
//! every hash. Its model, in [`model`], is a sequence of slots in which a
//! value is found by the pair of its hash and its key. Every operation that
//! needs a hash comes in two forms. The form whose name ends in `_hashed`
//! takes the hash as an argument, and its contract says exactly what it
//! does. The short form asks the map's hasher for the hash of the key and
//! hands it on: its contract says that it does what the other form does for
//! some hash.
//!
//! With a hasher that gives each key the same hash every time, the pairs
//! are as good as the keys alone, and the map is the map from keys to
//! values that it looks like. [`laws`] states what then holds of it.
//!
//! # Invariants
//!
//! [`ExtractMap::wf`] says that the table of positions and the slots fit
//! together. Every operation asks for it and keeps it. `ExtractMap::keyed`
//! says that each pair of a hash and a key names at most one value; the
//! operations keep that too, except where a caller writes another key into
//! a value in place, through an [`entry::Entry`].
//!
//! # Mutation
//!
//! A stored value is changed either in place, through an entry, which must
//! leave its key alone, or through a [`MutGuard`], which takes the value out
//! of the map and stores it again on `release`, under the key it has then.

pub mod collect;
pub mod doc_examples;
pub mod entry;
pub mod equality;
pub mod hashing;
pub mod iter;
pub mod key;
pub mod laws;
pub mod link;
pub mod map;
pub mod model;
pub mod mut_guard;
pub mod table;

pub use crate::hashing::hash_one;
pub use crate::key::ExtractKey;
pub use crate::map::ExtractMap;
pub use crate::model::Slot;
pub use crate::mut_guard::MutGuard;
pub use crate::table::MAX_LEN;
