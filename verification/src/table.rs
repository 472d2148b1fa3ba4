//! The probing table: a `hashbrown::HashTable` of positions.
//!
//! The table is told the hash of every position it stores and an equality
//! test for every search; it never looks into a value itself. Verus takes the
//! contracts in this file on trust: they restate what `hashbrown` documents.

use vstd::multiset::Multiset;
use vstd::prelude::*;

verus! {

/// The largest number of positions the table is asked to hold.
///
/// `hashbrown` panics with a capacity overflow when the buckets it needs, at
/// the size of a position and a control byte each, would take more than
/// `isize::MAX` bytes. For room for `n` positions it takes fewer than
/// `16 * n / 7` buckets, and when it grows it makes room for at most twice
/// the positions it is about to hold. Up to this bound that stays below
/// `usize::MAX / 56` buckets, far from the overflow.
pub const MAX_LEN: usize = usize::MAX / 256;

/// A `hashbrown::HashTable<usize>`.
#[verifier::external_body]
pub struct IndexTable {
    inner: hashbrown::HashTable<usize>,
}

/// What the table holds: each position, paired with the hash it was
/// inserted with.
pub uninterp spec fn table_items(table: IndexTable) -> Multiset<(u64, usize)>;

/// The room of the table: how many positions it can hold before it grows.
/// It is what `HashTable::capacity` returns.
pub uninterp spec fn table_room(table: IndexTable) -> nat;

impl IndexTable {
    /// `HashTable::new`: an empty table.
    #[verifier::external_body]
    pub(crate) fn new() -> (table: IndexTable)
        ensures
            table_items(table) == Multiset::<(u64, usize)>::empty(),
    {
        IndexTable { inner: hashbrown::HashTable::new() }
    }

    /// `HashTable::with_capacity`: an empty table that can hold at least
    /// `capacity` positions before it grows. It panics on a capacity that
    /// overflows its size computation, so the capacity is bounded.
    #[verifier::external_body]
    pub(crate) fn with_capacity(capacity: usize) -> (table: IndexTable)
        requires
            capacity <= MAX_LEN,
        ensures
            table_items(table) == Multiset::<(u64, usize)>::empty(),
            table_room(table) >= capacity,
    {
        IndexTable { inner: hashbrown::HashTable::with_capacity(capacity) }
    }

    /// `HashTable::find`: searches for a position that `eq` accepts. The
    /// table calls `eq` on every position stored under `hash` until one is
    /// accepted, and possibly on others; it returns the accepted one.
    #[verifier::external_body]
    pub(crate) fn find<F: Fn(usize) -> bool>(&self, hash: u64, eq: F) -> (found: Option<usize>)
        requires
            forall|h: u64, i: usize|
                table_items(*self).count((h, i)) > 0 ==> call_requires(eq, (i,)),
        ensures
            match found {
                Some(i) => call_ensures(eq, (i,), true) && exists|h: u64|
                    table_items(*self).count((h, i)) > 0,
                None => forall|i: usize|
                    table_items(*self).count((hash, i)) > 0 ==> call_ensures(eq, (i,), false),
            },
    {
        self.inner.find(hash, |i| eq(*i)).copied()
    }

    /// `HashTable::find_mut`: as `find`, but hands out the stored position
    /// for writing. What is written stays stored under the hash that the old
    /// position was inserted with.
    #[verifier::external_body]
    pub(crate) fn find_mut<F: Fn(usize) -> bool>(&mut self, hash: u64, eq: F) -> (found: Option<
        &mut usize,
    >)
        requires
            forall|h: u64, i: usize|
                table_items(*old(self)).count((h, i)) > 0 ==> call_requires(eq, (i,)),
        ensures
            match found {
                Some(item) => call_ensures(eq, (*item,), true) && exists|h: u64|
                    table_items(*old(self)).count((h, *item)) > 0 && table_items(*final(self))
                        == table_items(*old(self)).remove((h, *item)).insert((h, *final(item))),
                None => table_items(*final(self)) == table_items(*old(self)) && forall|i: usize|
                    table_items(*old(self)).count((hash, i)) > 0 ==> call_ensures(
                        eq,
                        (i,),
                        false,
                    ),
            },
    {
        self.inner.find_mut(hash, |i| eq(*i))
    }

    /// `HashTable::find_entry` and `OccupiedEntry::remove`: searches as
    /// `find` does and takes the accepted position out of the table.
    #[verifier::external_body]
    pub(crate) fn take<F: Fn(usize) -> bool>(&mut self, hash: u64, eq: F) -> (found: Option<usize>)
        requires
            forall|h: u64, i: usize|
                table_items(*old(self)).count((h, i)) > 0 ==> call_requires(eq, (i,)),
        ensures
            match found {
                Some(i) => call_ensures(eq, (i,), true) && exists|h: u64|
                    table_items(*old(self)).count((h, i)) > 0 && table_items(*final(self))
                        == table_items(*old(self)).remove((h, i)),
                None => table_items(*final(self)) == table_items(*old(self)) && forall|i: usize|
                    table_items(*old(self)).count((hash, i)) > 0 ==> call_ensures(
                        eq,
                        (i,),
                        false,
                    ),
            },
    {
        match self.inner.find_entry(hash, |i| eq(*i)) {
            Ok(entry) => Some(entry.remove().0),
            Err(_) => None,
        }
    }

    /// `HashTable::insert_unique`: stores `item` under `hash` without
    /// searching for it. When the table grows it asks `hasher` for the hash
    /// of each stored position, which must be the hash it was inserted with.
    /// It panics when growing overflows its size computation, so the number
    /// of positions is bounded.
    #[verifier::external_body]
    pub(crate) fn insert_unique<F: Fn(usize) -> u64>(&mut self, hash: u64, item: usize, hasher: F)
        requires
            table_items(*old(self)).len() < MAX_LEN,
            forall|h: u64, i: usize|
                table_items(*old(self)).count((h, i)) > 0 ==> call_requires(hasher, (i,)),
            forall|h: u64, i: usize, r: u64|
                table_items(*old(self)).count((h, i)) > 0 && call_ensures(hasher, (i,), r) ==> r
                    == h,
        ensures
            table_items(*final(self)) == table_items(*old(self)).insert((hash, item)),
    {
        self.inner.insert_unique(hash, item, |i| hasher(*i));
    }

    /// `HashTable::capacity`: the room of the table, which is never less
    /// than the number of positions it holds.
    #[verifier::external_body]
    pub(crate) fn capacity(&self) -> (capacity: usize)
        ensures
            capacity == table_room(*self),
            capacity >= table_items(*self).len(),
    {
        self.inner.capacity()
    }

    /// `HashTable::allocation_size`: the bytes the table has allocated. The
    /// number is informational; nothing is claimed of it.
    #[verifier::external_body]
    pub(crate) fn allocation_size(&self) -> (bytes: usize) {
        self.inner.allocation_size()
    }

    /// `HashTable::clone`: a table that holds the same positions under the
    /// same hashes.
    #[verifier::external_body]
    pub(crate) fn duplicate(&self) -> (table: IndexTable)
        ensures
            table_items(table) == table_items(*self),
    {
        IndexTable { inner: self.inner.clone() }
    }
}

} // verus!
