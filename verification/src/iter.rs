//! Traversals of a map: borrowed, owned, and one value at a time for
//! mutation.
//!
//! The borrowed and the owned traversal visit the values in the order of
//! the map's view.

use crate::key::{key_of, obeys_extract_key, ExtractKey};
use crate::map::ExtractMap;
use crate::model::{
    inserted, lemma_visit_finds_push, lemma_visited_push, lookup, removed, values, visit_finds,
    visited, Slot,
};
use crate::mut_guard::MutGuard;
use core::hash::{BuildHasher, Hash};
use std::collections::VecDeque;
use vstd::pervasive::cloned;
use vstd::prelude::*;

verus! {

/// A traversal of the values of a map, by reference.
#[must_use]
pub struct Iter<'a, V> {
    slots: &'a Vec<Slot<V>>,
    next: usize,
}

impl<'a, V> Iter<'a, V> {
    /// The traversal never runs past the end.
    #[verifier::type_invariant]
    spec fn in_range(&self) -> bool {
        self.next <= self.slots@.len()
    }

    /// The values that are still to come.
    pub closed spec fn remaining(&self) -> Seq<V> {
        values(self.slots@).skip(self.next as int)
    }

    /// The next value, if there is one.
    pub fn next(&mut self) -> (value: Option<&'a V>)
        ensures
            match value {
                Some(v) => old(self).remaining().len() > 0 && *v == old(self).remaining()[0]
                    && final(self).remaining() == old(self).remaining().skip(1),
                None => old(self).remaining().len() == 0 && final(self).remaining() == old(
                    self,
                ).remaining(),
            },
    {
        proof {
            use_type_invariant(&*self);
        }
        if self.next < self.slots.len() {
            let value = &self.slots[self.next].value;
            self.next = self.next + 1;
            Some(value)
        } else {
            None
        }
    }

    /// How many values are still to come.
    pub fn len(&self) -> (n: usize)
        ensures
            n == self.remaining().len(),
    {
        proof {
            use_type_invariant(self);
        }
        self.slots.len() - self.next
    }

    /// The bounds on the number of values still to come: both are that
    /// number.
    pub fn size_hint(&self) -> (hint: (usize, Option<usize>))
        ensures
            hint.0 == self.remaining().len(),
            hint.1 == Some(hint.0),
    {
        let n = self.len();
        (n, Some(n))
    }
}

/// A traversal of the values of a map, by value.
#[must_use]
pub struct IntoIter<V> {
    rest: Vec<Slot<V>>,
}

impl<V> IntoIter<V> {
    /// The values that are still to come. They are held last first.
    pub closed spec fn remaining(&self) -> Seq<V> {
        values(self.rest@).reverse()
    }

    /// The next value, if there is one.
    pub fn next(&mut self) -> (value: Option<V>)
        ensures
            match value {
                Some(v) => old(self).remaining().len() > 0 && v == old(self).remaining()[0]
                    && final(self).remaining() == old(self).remaining().skip(1),
                None => old(self).remaining().len() == 0 && final(self).remaining() == old(
                    self,
                ).remaining(),
            },
    {
        match self.rest.pop() {
            Some(slot) => {
                assert(self.remaining() =~= old(self).remaining().skip(1));
                Some(slot.value)
            },
            None => None,
        }
    }

    /// How many values are still to come.
    pub fn len(&self) -> (n: usize)
        ensures
            n == self.remaining().len(),
    {
        self.rest.len()
    }

    /// The bounds on the number of values still to come: both are that
    /// number.
    pub fn size_hint(&self) -> (hint: (usize, Option<usize>))
        ensures
            hint.0 == self.remaining().len(),
            hint.1 == Some(hint.0),
    {
        let n = self.len();
        (n, Some(n))
    }
}

impl<K, V, S> ExtractMap<K, V, S> {
    /// A traversal of the values, by reference, in the order of the view.
    pub fn iter(&self) -> (iter: Iter<'_, V>)
        ensures
            iter.remaining() == values(self@),
    {
        Iter { slots: self.slots(), next: 0 }
    }

    /// A traversal of the values, by value, in the order of the view. The
    /// map is given up.
    pub fn into_iter(self) -> (iter: IntoIter<V>)
        ensures
            iter.remaining() == values(self@),
    {
        let mut slots = self.into_slots();
        let mut rest: Vec<Slot<V>> = Vec::new();
        let ghost all = slots@;
        while slots.len() > 0
            invariant
                slots@.len() + rest@.len() == all.len(),
                slots@ == all.take(slots@.len() as int),
                forall|i: int| 0 <= i < rest@.len() ==> rest@[i] == all[all.len() - 1 - i],
            decreases slots@.len(),
        {
            match slots.pop() {
                Some(slot) => {
                    rest.push(slot);
                },
                None => {},
            }
        }
        assert(values(rest@).reverse() =~= values(all));
        IntoIter { rest }
    }
}

/// A traversal that lends the values of a map out for mutation, one at a
/// time.
///
/// It notes the keys of the map when it is made, and each step looks the
/// next of them up: a value whose key was changed on the way is found in
/// its new place or not at all, and none is visited through a key that the
/// map did not hold at the start.
#[must_use]
pub struct IterMut<'a, K, V, S> {
    pub map: &'a mut ExtractMap<K, V, S>,
    pub keys: VecDeque<K>,
}

impl<'a, K: Hash + Eq + Clone, V: ExtractKey<K>, S: BuildHasher> IterMut<'a, K, V, S> {
    /// Notes the keys of `map`, in the order of its view.
    pub fn new(map: &'a mut ExtractMap<K, V, S>) -> (iter: Self)
        requires
            old(map).wf(),
        ensures
            *iter.map == *old(map),
            *final(map) == *final(iter.map),
            iter.keys@.len() == old(map)@.len(),
            obeys_extract_key::<K, V>() ==> forall|i: int|
                0 <= i < iter.keys@.len() ==> cloned(
                    old(map)@[i].value.key(),
                    #[trigger] iter.keys@[i],
                ),
    {
        let mut keys: VecDeque<K> = VecDeque::new();
        let n = map.len();
        let mut i: usize = 0;
        while i < n
            invariant
                i <= n,
                n == map@.len(),
                keys@.len() == i,
                obeys_extract_key::<K, V>() ==> forall|j: int|
                    0 <= j < i ==> cloned(map@[j].value.key(), #[trigger] keys@[j]),
            decreases n - i,
        {
            let key = key_of(map.value_at(i)).clone();
            keys.push_back(key);
            i = i + 1;
        }
        IterMut { map, keys }
    }
}

impl<'a, K: Hash + Eq, V: ExtractKey<K>, S> IterMut<'a, K, V, S> {
    /// Takes the value stored under `hash` and the next noted key out of
    /// the map and lends it in a guard. Nothing is lent when no key is
    /// left, or when the map holds no value under them.
    pub fn next_hashed(&mut self, hash: u64) -> (guard: Option<MutGuard<'_, K, V, S>>)
        requires
            old(self).map.wf(),
        ensures
            *final(final(self).map) == *final(old(self).map),
            final(self).keys@ == if old(self).keys@.len() > 0 {
                old(self).keys@.skip(1)
            } else {
                old(self).keys@
            },
            match guard {
                Some(g) => {
                    &&& old(self).keys@.len() > 0
                    &&& g.wf()
                    &&& *final(self).map == *final(g.map)
                    &&& g.map.hasher() == old(self).map.hasher()
                    &&& g.map@.len() == old(self).map@.len() - 1
                    &&& old(self).map.keyed() ==> g.map.keyed() && lookup(
                        old(self).map@,
                        hash,
                        old(self).keys@[0],
                    ) == Some(g.value) && g.map@ == removed(
                        old(self).map@,
                        hash,
                        old(self).keys@[0],
                    )
                },
                None => {
                    &&& final(self).map.wf()
                    &&& final(self).map.hasher() == old(self).map.hasher()
                    &&& final(self).map@ == old(self).map@
                    &&& old(self).keys@.len() > 0 && old(self).map.keyed() ==> lookup(
                        old(self).map@,
                        hash,
                        old(self).keys@[0],
                    ) == None::<V>
                },
            },
    {
        let ghost noted = self.keys@;
        match self.keys.pop_front() {
            Some(key) => {
                assert(self.keys@ =~= noted.skip(1));
                self.map.get_mut_hashed(hash, &key)
            },
            None => None,
        }
    }
}

impl<'a, K: Hash + Eq, V: ExtractKey<K>, S: BuildHasher> IterMut<'a, K, V, S> {
    /// Takes the value of the next noted key out of the map and lends it in
    /// a guard. Nothing is lent when no key is left, or when the map holds
    /// no value under the next key any more.
    ///
    /// The key is hashed with the map's hasher; whatever hash comes back,
    /// the step is the one that `next_hashed` makes for it.
    pub fn next(&mut self) -> (guard: Option<MutGuard<'_, K, V, S>>)
        requires
            old(self).map.wf(),
        ensures
            *final(final(self).map) == *final(old(self).map),
            final(self).keys@ == if old(self).keys@.len() > 0 {
                old(self).keys@.skip(1)
            } else {
                old(self).keys@
            },
            match guard {
                Some(g) => {
                    &&& old(self).keys@.len() > 0
                    &&& g.wf()
                    &&& *final(self).map == *final(g.map)
                    &&& g.map.hasher() == old(self).map.hasher()
                    &&& g.map@.len() == old(self).map@.len() - 1
                    &&& old(self).map.keyed() ==> g.map.keyed() && exists|hash: u64|
                        lookup(old(self).map@, hash, old(self).keys@[0]) == Some(g.value)
                            && g.map@ == removed(old(self).map@, hash, old(self).keys@[0])
                },
                None => {
                    &&& final(self).map.wf()
                    &&& final(self).map.hasher() == old(self).map.hasher()
                    &&& final(self).map@ == old(self).map@
                    &&& old(self).keys@.len() > 0 && old(self).map.keyed() ==> exists|hash: u64|
                        lookup(old(self).map@, hash, old(self).keys@[0]) == None::<V>
                },
            },
    {
        let ghost noted = self.keys@;
        match self.keys.pop_front() {
            Some(key) => {
                assert(self.keys@ =~= noted.skip(1));
                self.map.get_mut(&key)
            },
            None => None,
        }
    }

    /// Lends each value to `f` in turn and stores it again afterwards,
    /// under the key it has then. The traversal ends with the first noted
    /// key under which the map holds no value.
    ///
    /// The map is left as `visited` says, for the hashes that the map's
    /// hasher gave: at each step the value found under the next noted key
    /// was taken out, handed to `f`, and what `f` left of it was stored
    /// again.
    pub fn for_each<F: FnMut(&mut V)>(self, f: F)
        requires
            self.map.wf(),
            forall|value: &mut V| call_requires(f, (value,)),
        ensures
            final(self.map).wf(),
            final(self.map).hasher() == old(self.map).hasher(),
            final(self.map)@.len() <= old(self.map)@.len(),
            old(self.map).keyed() ==> final(self.map).keyed() && exists|
                found: Seq<u64>,
                stored: Seq<u64>,
                after: Seq<V>,
            |
                {
                    &&& found.len() == after.len()
                    &&& stored.len() == after.len()
                    &&& after.len() <= self.keys@.len()
                    &&& final(self.map)@ == visited(
                        old(self.map)@,
                        self.keys@.take(after.len() as int),
                        found,
                        stored,
                        after,
                    )
                    &&& forall|i: int|
                        0 <= i < after.len() ==> (#[trigger] visit_finds(
                            old(self.map)@,
                            self.keys@,
                            found,
                            stored,
                            after,
                            i,
                        )) is Some && exists|value: &mut V|
                            {
                                &&& #[trigger] call_ensures(f, (value,), ())
                                &&& Some(*value) == visit_finds(
                                    old(self.map)@,
                                    self.keys@,
                                    found,
                                    stored,
                                    after,
                                    i,
                                )
                                &&& *final(value) == after[i]
                            }
                    &&& after.len() < self.keys@.len() ==> exists|hash: u64|
                        lookup(final(self.map)@, hash, self.keys@[after.len() as int])
                            == None::<V>
                },
    {
        let mut iter = self;
        let ghost given = f;
        let mut f = f;
        let ghost keys = self.keys@;
        let ghost start = self.map@;
        let ghost was_keyed = self.map.keyed();
        let ghost mut found = Seq::<u64>::empty();
        let ghost mut stored = Seq::<u64>::empty();
        let ghost mut after = Seq::<V>::empty();
        loop
            invariant_except_break
                iter.keys@ == keys.skip(after.len() as int),
            invariant
                iter.map.wf(),
                iter.map.hasher() == old(self.map).hasher(),
                iter.map@.len() <= start.len(),
                *final(iter.map) == *final(self.map),
                forall|value: &mut V| call_requires(f, (value,)),
                f == given,
                found.len() == after.len(),
                stored.len() == after.len(),
                after.len() <= keys.len(),
                was_keyed ==> iter.map.keyed() && iter.map@ == visited(
                    start,
                    keys.take(after.len() as int),
                    found,
                    stored,
                    after,
                ),
                was_keyed ==> forall|i: int|
                    0 <= i < after.len() ==> (#[trigger] visit_finds(
                        start,
                        keys,
                        found,
                        stored,
                        after,
                        i,
                    )) is Some && exists|value: &mut V|
                        {
                            &&& #[trigger] call_ensures(f, (value,), ())
                            &&& Some(*value) == visit_finds(start, keys, found, stored, after, i)
                            &&& *final(value) == after[i]
                        },
            ensures
                was_keyed && after.len() < keys.len() ==> exists|hash: u64|
                    lookup(iter.map@, hash, keys[after.len() as int]) == None::<V>,
            decreases iter.keys@.len(),
        {
            if iter.keys.len() == 0 {
                break ;
            }
            let ghost done = after.len() as int;
            let ghost before = iter.map@;
            match iter.next() {
                Some(mut guard) => {
                    let ghost lent = guard.value;
                    let ghost held = guard.map@;
                    let ghost taken_under = if was_keyed {
                        choose|hash: u64|
                            lookup(before, hash, keys[done]) == Some(lent) && held == removed(
                                before,
                                hash,
                                keys[done],
                            )
                    } else {
                        0u64
                    };
                    f(&mut guard.value);
                    let ghost left = guard.value;
                    assert(exists|value: &mut V|
                        {
                            &&& #[trigger] call_ensures(f, (value,), ())
                            &&& *value == lent
                            &&& *final(value) == left
                        });
                    guard.release();
                    proof {
                        let stored_under = if was_keyed {
                            choose|hash: u64| iter.map@ == inserted(held, hash, left)
                        } else {
                            0u64
                        };
                        lemma_visited_push(
                            start,
                            keys,
                            found,
                            stored,
                            after,
                            taken_under,
                            stored_under,
                            left,
                        );
                        assert forall|i: int| 0 <= i <= done implies visit_finds(
                            start,
                            keys,
                            found.push(taken_under),
                            stored.push(stored_under),
                            after.push(left),
                            i,
                        ) == if i < done {
                            visit_finds(start, keys, found, stored, after, i)
                        } else {
                            lookup(
                                visited(start, keys.take(i), found, stored, after),
                                taken_under,
                                keys[i],
                            )
                        } by {
                            lemma_visit_finds_push(
                                start,
                                keys,
                                found,
                                stored,
                                after,
                                taken_under,
                                stored_under,
                                left,
                                i,
                            );
                        }
                        assert(keys.skip(done).skip(1) =~= keys.skip(done + 1));
                        found = found.push(taken_under);
                        stored = stored.push(stored_under);
                        after = after.push(left);
                    }
                },
                None => {
                    break ;
                },
            }
        }
        proof {
            if was_keyed {
                assert(iter.map@ == visited(
                    start,
                    keys.take(after.len() as int),
                    found,
                    stored,
                    after,
                ));
                assert(forall|i: int|
                    0 <= i < after.len() ==> (#[trigger] visit_finds(
                        start,
                        keys,
                        found,
                        stored,
                        after,
                        i,
                    )) is Some && exists|value: &mut V|
                        {
                            &&& #[trigger] call_ensures(f, (value,), ())
                            &&& Some(*value) == visit_finds(start, keys, found, stored, after, i)
                            &&& *final(value) == after[i]
                        });
            }
        }
    }

    /// The bounds on the number of values still to come: both are the
    /// number of keys left.
    pub fn size_hint(&self) -> (hint: (usize, Option<usize>))
        ensures
            hint.0 == self.keys@.len(),
            hint.1 == Some(hint.0),
    {
        let n = self.keys.len();
        (n, Some(n))
    }
}

impl<K: Hash + Eq + Clone, V: ExtractKey<K>, S: BuildHasher> ExtractMap<K, V, S> {
    /// A traversal that lends the values out for mutation, one at a time.
    pub fn iter_mut(&mut self) -> (iter: IterMut<'_, K, V, S>)
        requires
            old(self).wf(),
        ensures
            *iter.map == *old(self),
            *final(self) == *final(iter.map),
            iter.keys@.len() == old(self)@.len(),
            obeys_extract_key::<K, V>() ==> forall|i: int|
                0 <= i < iter.keys@.len() ==> cloned(
                    old(self)@[i].value.key(),
                    #[trigger] iter.keys@[i],
                ),
    {
        IterMut::new(self)
    }
}

} // verus!
