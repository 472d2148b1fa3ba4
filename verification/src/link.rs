//! How the table of positions is tied to the slots.

use crate::model::{vacated, Slot};
use vstd::multiset::Multiset;
use vstd::prelude::*;

verus! {

/// The table holds exactly the positions of `slots`, each once and under the
/// hash of its slot.
pub open spec fn linked<V>(items: Multiset<(u64, usize)>, slots: Seq<Slot<V>>) -> bool {
    forall|h: u64, i: usize| #[trigger]
        items.count((h, i)) == if i < slots.len() && slots[i as int].hash == h {
            1nat
        } else {
            0nat
        }
}

/// What the table must hold after the slot at `index` was vacated: the
/// position `index` is gone from it, and the last position, whose slot moved
/// to `index`, has become `index`.
pub open spec fn relinked<V>(
    items: Multiset<(u64, usize)>,
    slots: Seq<Slot<V>>,
    index: int,
) -> Multiset<(u64, usize)> {
    let last = slots.len() - 1;
    let without = items.remove((slots[index].hash, index as usize));
    if index == last {
        without
    } else {
        without.remove((slots[last].hash, last as usize)).insert(
            (slots[last].hash, index as usize),
        )
    }
}

/// A linked table stays linked when a slot is vacated and the table is
/// changed as `relinked` says.
pub proof fn lemma_vacated_linked<V>(items: Multiset<(u64, usize)>, slots: Seq<Slot<V>>, index: int)
    requires
        linked(items, slots),
        0 <= index < slots.len() <= usize::MAX,
    ensures
        linked(relinked(items, slots, index), vacated(slots, index)),
{
    let after = relinked(items, slots, index);
    let kept = vacated(slots, index);
    assert forall|h: u64, i: usize| #[trigger]
        after.count((h, i)) == if i < kept.len() && kept[i as int].hash == h {
            1nat
        } else {
            0nat
        } by {
        assert(items.count((h, i)) >= 0);
    }
}

/// A table that is linked to `slots` holds as many positions as there are
/// slots.
pub proof fn lemma_linked_len<V>(items: Multiset<(u64, usize)>, slots: Seq<Slot<V>>)
    requires
        linked(items, slots),
        slots.len() <= usize::MAX,
    ensures
        items.len() == slots.len(),
    decreases slots.len(),
{
    if slots.len() == 0 {
        assert forall|pair: (u64, usize)| items.count(pair) == 0 by {
            assert(items.count((pair.0, pair.1)) == 0);
        }
        assert(items =~= Multiset::empty());
    } else {
        let front = slots.drop_last();
        let last = slots.len() - 1;
        let pair = (slots[last].hash, last as usize);
        let rest = items.remove(pair);
        assert(linked(rest, front)) by {
            assert forall|h: u64, i: usize| #[trigger]
                rest.count((h, i)) == if i < front.len() && front[i as int].hash == h {
                    1nat
                } else {
                    0nat
                } by {
                assert(items.count((h, i)) >= 0);
            }
        }
        lemma_linked_len(rest, front);
        assert(items =~= rest.insert(pair));
    }
}

} // verus!
