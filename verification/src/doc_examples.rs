//! A small record type that shows how a value carries its key.

use crate::key::{key_model, ExtractKey};
use vstd::prelude::*;
use vstd::std_specs::cmp::PartialEqSpecImpl;

verus! {

/// A user record, keyed by `id`.
#[derive(Debug, Clone)]
pub struct User {
    pub id: u64,
    pub name: &'static str,
}

impl PartialEq for User {
    /// Two users are equal if they have the same id and the same name.
    fn eq(&self, other: &Self) -> (equal: bool) {
        self.id == other.id && self.name.to_owned() == other.name.to_owned()
    }
}

impl PartialEqSpecImpl for User {
    open spec fn obeys_eq_spec() -> bool {
        true
    }

    open spec fn eq_spec(&self, other: &Self) -> bool {
        self.id == other.id && self.name@ == other.name@
    }
}

impl ExtractKey<u64> for User {
    open spec fn key(&self) -> u64 {
        self.id
    }

    fn extract_key(&self) -> (k: &u64)
        ensures
            *k == self.id,
    {
        &self.id
    }
}

/// A `User` obeys the key model: its key is its `id`.
pub proof fn lemma_user_key_model()
    ensures
        key_model::<u64, User>(),
{
}

} // verus!
