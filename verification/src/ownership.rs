use crate::item::{Item, ItemId};
use crate::queue::ActiveItem;
use crate::stack::holds;
use vstd::prelude::*;

verus! {

/// How often the item `id` occurs among `items`.
pub open spec fn count_id(items: Seq<Item>, id: ItemId) -> nat
    decreases items.len(),
{
    if items.len() == 0 {
        0
    } else {
        count_id(items.drop_last(), id) + if items.last().id == id {
            1nat
        } else {
            0nat
        }
    }
}

/// How often the item `id` occurs in the slot.
pub open spec fn count_active(active: Option<ActiveItem>, id: ItemId) -> nat {
    if active matches Some(a) && a.item.id == id {
        1
    } else {
        0
    }
}

/// How often the item `id` occurs in a session: on the four stacks, among
/// the free items, in the queue and in the slot.
pub open spec fn occurrences(
    piles: Seq<Seq<Item>>,
    free: Seq<Item>,
    queue: Seq<Item>,
    active: Option<ActiveItem>,
    id: ItemId,
) -> nat {
    count_id(piles[0], id) + count_id(piles[1], id) + count_id(piles[2], id) + count_id(
        piles[3],
        id,
    ) + count_id(free, id) + count_id(queue, id) + count_active(active, id)
}

/// Whether every item is owned by one container: no identity occurs twice
/// in the session, and none that was not given out yet occurs at all.
pub open spec fn owned_once(
    piles: Seq<Seq<Item>>,
    free: Seq<Item>,
    queue: Seq<Item>,
    active: Option<ActiveItem>,
    created: u32,
) -> bool {
    forall|id: ItemId|
        {
            &&& #[trigger] occurrences(piles, free, queue, active, id) <= 1
            &&& id.0 >= created ==> occurrences(piles, free, queue, active, id) == 0
        }
}

/// Putting an item behind the others adds one occurrence of it.
pub proof fn lemma_count_push(items: Seq<Item>, item: Item, id: ItemId)
    ensures
        count_id(items.push(item), id) == count_id(items, id) + if item.id == id {
            1nat
        } else {
            0nat
        },
{
    assert(items.push(item).drop_last() =~= items);
}

/// Taking an item out takes one occurrence of it away.
pub proof fn lemma_count_remove(items: Seq<Item>, place: int, id: ItemId)
    requires
        0 <= place < items.len(),
    ensures
        count_id(items.remove(place), id) + if items[place].id == id {
            1nat
        } else {
            0nat
        } == count_id(items, id),
    decreases items.len(),
{
    if place == items.len() - 1 {
        assert(items.remove(place) =~= items.drop_last());
    } else {
        lemma_count_remove(items.drop_last(), place, id);
        assert(items.remove(place).drop_last() =~= items.drop_last().remove(place));
    }
}

/// Changing an item but not its identity changes no count.
pub proof fn lemma_count_update(items: Seq<Item>, place: int, item: Item, id: ItemId)
    requires
        0 <= place < items.len(),
        item.id == items[place].id,
    ensures
        count_id(items.update(place, item), id) == count_id(items, id),
    decreases items.len(),
{
    if place == items.len() - 1 {
        assert(items.update(place, item).drop_last() =~= items.drop_last());
    } else {
        lemma_count_update(items.drop_last(), place, item, id);
        assert(items.update(place, item).drop_last() =~= items.drop_last().update(place, item));
    }
}

/// An item occurs among `items` exactly where `items` holds it.
pub proof fn lemma_count_holds(items: Seq<Item>, id: ItemId)
    ensures
        holds(items, id) <==> count_id(items, id) > 0,
    decreases items.len(),
{
    if items.len() > 0 {
        lemma_count_holds(items.drop_last(), id);
        if holds(items, id) {
            let k = choose|k: int| 0 <= k < items.len() && (#[trigger] items[k]).id == id;
            if k < items.len() - 1 {
                assert(items.drop_last()[k].id == id);
            }
        }
        if holds(items.drop_last(), id) {
            let k = choose|k: int|
                0 <= k < items.drop_last().len() && (#[trigger] items.drop_last()[k]).id == id;
            assert(items[k].id == id);
        }
        if items.last().id == id {
            assert(items[items.len() - 1].id == id);
        }
    }
}

} // verus!
