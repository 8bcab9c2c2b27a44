use crate::game_state::GameState;
use crate::entropy::{lemma_bucket_bounds, spec_bucket};
use crate::item::{ItemId, ItemType, CATALOG_VARIANTS};
use crate::ownership::{count_active, lemma_count_holds};
use crate::queue::{spec_completes, Queue};
use crate::dialog::spec_shown;
use crate::simulation::purchase::{
    lemma_stopped_stays, lemma_units_stock, spec_planned, UnitDraws,
};
use crate::simulation::{spec_settled, SimulationView};
use crate::stack::{all_full, lemma_free_piles};
use crate::stack::holds;
use crate::stress::{stress_after, RELIEF};
use vstd::prelude::*;

verus! {

/// The queue never holds more than two items: whatever asks to be let in,
/// a queue of at most two is one of at most two afterwards.
pub proof fn queue_stays_bounded(session: SimulationView, id: ItemId)
    requires
        session.queue.len() <= Queue::MAX_ITEMS,
    ensures
        session.try_enqueue(id).queue.len() <= Queue::MAX_ITEMS,
{
}

/// A full queue lets nothing in: the session is left as it was.
pub proof fn full_queue_refuses(session: SimulationView, id: ItemId)
    requires
        session.queue.len() >= Queue::MAX_ITEMS,
    ensures
        session.try_enqueue(id) == session,
{
}

/// Nothing but letting an item in makes the queue longer: moving items
/// between stacks and the free items leaves the queue as it is, and a tick
/// can only shorten it.
pub proof fn queue_grows_only_by_enqueue(
    session: SimulationView,
    id: ItemId,
    stack: ItemType,
    dragging: bool,
    delta: u64,
)
    ensures
        session.add_item(stack, id).queue == session.queue,
        session.detached(id, dragging).queue == session.queue,
        session.held(id, dragging).queue == session.queue,
        session.start_drag(id).queue == session.queue,
        session.advanced(delta).queue.len() <= session.queue.len(),
{
}

/// An item that is let in stands behind all that were queued before it.
pub proof fn queue_lets_in_at_the_back(session: SimulationView, id: ItemId)
    requires
        session.admits(id),
    ensures
        session.try_enqueue(id).queue == session.queue.push(spec_settled(session.item(id))),
{
}

/// Promotion pulls from the queue only into a free slot and only from a
/// queue that is not empty; otherwise the session is left as it was.
pub proof fn promotion_needs_free_slot(session: SimulationView)
    requires
        session.active is Some || session.queue.len() == 0,
    ensures
        session.promoted() == session,
{
}

/// Promotion is first come first served: the item that becomes active is
/// the front of the queue, and the others keep their order.
pub proof fn promotion_takes_the_front(session: SimulationView)
    requires
        session.active is None,
        session.queue.len() > 0,
    ensures
        session.promoted().active is Some,
        session.promoted().active->0.item == session.queue[0],
        session.promoted().active->0.timer.elapsed == 0,
        session.promoted().active->0.timer.duration
            == session.queue[0].item_type.spec_consume_time(),
        session.promoted().queue == session.queue.subrange(1, session.queue.len() as int),
{
}

/// A consumption is completed exactly once: the tick that completes it
/// counts one item and frees the slot, and any tick after that counts
/// nothing and changes nothing.
pub proof fn consumption_counts_once(session: SimulationView, first: u64, second: u64)
    requires
        session.consumed.total < u32::MAX,
        spec_completes(session.active, first),
    ensures
        session.consumed_by(first).active is None,
        session.consumed_by(first).consumed.total == session.consumed.total + 1,
        session.consumed_by(first).consumed_by(second) == session.consumed_by(first),
{
}

/// A tick that completes no consumption leaves the count and the stress
/// meter alone.
pub proof fn unfinished_consumption_counts_nothing(session: SimulationView, delta: u64)
    requires
        !spec_completes(session.active, delta),
    ensures
        session.consumed_by(delta).consumed == session.consumed,
        session.consumed_by(delta).stress == session.stress,
        session.consumed_by(delta).queue == session.queue,
{
}

/// A purchase is settled if and only if it brought at least one item: then
/// one point of relief is asked of the stress meter and the day is marked;
/// a purchase that brought nothing leaves the session as it was.
pub proof fn purchase_settles_only_what_was_bought(session: SimulationView, spawned: u32)
    ensures
        spawned == 0 ==> session.settled(spawned) == session,
        spawned >= 1 ==> session.settled(spawned).today.clicked_today && session.settled(
            spawned,
        ).stress.value == stress_after(session.stress.value as int, RELIEF as int),
{
}

/// Failure is final: a session that has failed stands still under every
/// tick.
pub proof fn failed_session_stands_still(session: SimulationView, delta: u64)
    requires
        session.state == GameState::Failed,
    ensures
        session.advanced(delta) == session,
{
}

/// A tick never takes a session out of failure, and it fails a session in
/// play exactly where stress is above the threshold after the tick.
pub proof fn tick_fails_above_threshold(session: SimulationView, delta: u64)
    requires
        session.state == GameState::Playing,
    ensures
        session.advanced(delta).state == GameState::Failed <==> session.advanced(
            delta,
        ).stress.value > crate::stress::FAIL_THRESHOLD,
        session.advanced(delta).state != GameState::StartScreen,
{
}

/// Every item lies in one container: an item that is on a stack is on no
/// other stack, not among the free items, not in the queue and not in the
/// slot; and likewise for the free items, the queue and the slot.
pub proof fn item_lies_in_one_container(session: SimulationView, id: ItemId)
    requires
        session.wf(),
    ensures
        session.occurs(id) <= 1,
        forall|j: int, k: int|
            0 <= j < k < 4 ==> !(holds(#[trigger] session.piles[j], id) && holds(
                #[trigger] session.piles[k],
                id,
            )),
        forall|k: int|
            0 <= k < 4 && holds(#[trigger] session.piles[k], id) ==> !holds(session.free, id)
                && !holds(session.queue, id) && count_active(session.active, id) == 0,
        holds(session.free, id) ==> !holds(session.queue, id) && count_active(
            session.active,
            id,
        ) == 0,
        holds(session.queue, id) ==> count_active(session.active, id) == 0,
{
    lemma_count_holds(session.piles[0], id);
    lemma_count_holds(session.piles[1], id);
    lemma_count_holds(session.piles[2], id);
    lemma_count_holds(session.piles[3], id);
    lemma_count_holds(session.free, id);
    lemma_count_holds(session.queue, id);
    assert(session.occurs(id) <= 1);
}

/// An identity that was not given out yet belongs to no item.
pub proof fn unborn_item_is_nowhere(session: SimulationView, id: ItemId)
    requires
        session.wf(),
        id.0 >= session.created,
    ensures
        session.location(id) is None,
{
    lemma_count_holds(session.piles[0], id);
    lemma_count_holds(session.piles[1], id);
    lemma_count_holds(session.piles[2], id);
    lemma_count_holds(session.piles[3], id);
    lemma_count_holds(session.free, id);
    lemma_count_holds(session.queue, id);
    assert(session.occurs(id) == 0);
}

/// The spawner draws from the whole catalog: every skin comes from some
/// draw, and no draw gives a skin outside the catalog.
pub proof fn every_skin_is_drawn(session: SimulationView, item_type: ItemType, skin: usize)
    requires
        skin < CATALOG_VARIANTS,
    ensures
        exists|raw: u32| (#[trigger] session.next_item(item_type, raw)).index.0 == skin,
        forall|raw: u32| (#[trigger] session.next_item(item_type, raw)).index.0 < CATALOG_VARIANTS,
{
    let raw = (skin * 171_798_692) as u32;
    assert(raw as int == skin * 171_798_692);
    assert(raw as int * 25 == skin * 0x1_0000_0000 + 4 * skin);
    assert(CATALOG_VARIANTS as u32 as int == 25);
    assert(spec_bucket(raw, CATALOG_VARIANTS as u32) == skin);
    assert(session.next_item(item_type, raw).index.0 == skin);
    assert forall|raw: u32| (#[trigger] session.next_item(item_type, raw)).index.0
        < CATALOG_VARIANTS by {
        lemma_bucket_bounds(raw, CATALOG_VARIANTS as u32);
    }
}

/// Every category comes from some category draw.
pub proof fn every_category_is_drawn(item_type: ItemType)
    ensures
        exists|raw: u32| ItemType::spec_from_draw(#[trigger] spec_bucket(raw, 4) as u32) == item_type,
{
    let raw: u32 = match item_type {
        ItemType::Book => 0,
        ItemType::Comic => 0x4000_0000,
        ItemType::Game => 0x8000_0000,
        ItemType::Movie => 0xc000_0000,
    };
    assert(ItemType::spec_from_draw(spec_bucket(raw, 4) as u32) == item_type);
}

/// Where every stack is full a random spawn makes no item and leaves the
/// session as it was, whatever its draws.
pub proof fn full_stacks_spawn_nothing(
    session: SimulationView,
    category_raw: u32,
    variant_raw: u32,
    stack_raw: u32,
)
    requires
        session.piles.len() == 4,
        all_full(session.piles),
    ensures
        session.spawn_drawn(category_raw, variant_raw, stack_raw) == session,
{
    lemma_free_piles(session.piles);
}

/// What a purchase does, whatever its draws. The rolls below a tenth of the
/// range, and no others, make it a bulk event, which plans 4 to 8 items and
/// leaves a flavour text on show; any other purchase plans one item and
/// leaves the text on show as it was. The purchase brings as many items as
/// it planned unless the stacks fill up, and then as many as went before
/// every stack was full; all of them lie on stacks, each put on one that
/// was not full then. Where every stack is full from the start it brings
/// nothing. It is settled for exactly what it brought.
pub proof fn purchase_brings_what_fits(
    session: SimulationView,
    roll: u32,
    size_raw: u32,
    units: Seq<UnitDraws>,
)
    requires
        session.piles.len() == 4,
    ensures
        ({
            let purchase = session.purchase_of(roll, size_raw, units);
            let run = session.units_drawn(purchase.bulk, units, spec_planned(roll, size_raw));
            &&& purchase.bulk <==> roll as int * 10 < 0x1_0000_0000
            &&& purchase.bulk ==> 4 <= purchase.planned <= 8
            &&& !purchase.bulk ==> purchase.planned == 1
            &&& purchase.planned == spec_planned(roll, size_raw)
            &&& purchase.spawned == run.1
            &&& purchase.spawned <= purchase.planned
            &&& purchase.spawned < purchase.planned ==> all_full(run.0.piles)
            &&& session.stocked(run.0, purchase.spawned as int)
            &&& purchase.bulk ==> exists|raw: u32| run.0.dialog == #[trigger] spec_shown(raw)
            &&& !purchase.bulk ==> run.0.dialog == session.dialog
            &&& all_full(session.piles) ==> purchase.spawned == 0 && run.0.piles == session.piles
            &&& session.purchase_drawn(roll, size_raw, units) == run.0.settled(purchase.spawned)
        }),
{
    lemma_bucket_bounds(size_raw, crate::spawning::BURST_SIZES);
    lemma_bucket_bounds(roll, crate::spawning::BULK_SHARES);
    let bulk = crate::spawning::spec_is_bulk(roll);
    let planned = spec_planned(roll, size_raw);
    lemma_units_stock(session, bulk, units, planned);
    let run = session.units_drawn(bulk, units, planned);
    if all_full(session.piles) {
        crate::simulation::spawner::lemma_full_gets_nothing(session, run.0, run.1 as int);
    }
}

/// A purchase runs until it is through or finds every stack full. While
/// each unit finds a stack that is not full, each brings one item; the
/// first unit that finds every stack full ends the purchase, and what was
/// brought until then is all that it brings.
pub proof fn purchase_runs_until_full(
    session: SimulationView,
    bulk: bool,
    units: Seq<UnitDraws>,
    k: nat,
    planned: nat,
)
    requires
        session.piles.len() == 4,
        k <= planned,
        forall|j: nat| j < k ==> !all_full(#[trigger] session.units_drawn(bulk, units, j).0.piles),
    ensures
        !session.units_drawn(bulk, units, k).2,
        session.units_drawn(bulk, units, k).1 == k,
        k == planned ==> session.units_drawn(bulk, units, planned).1 == planned,
        k < planned && all_full(session.units_drawn(bulk, units, k).0.piles)
            ==> session.units_drawn(bulk, units, planned).1 == k && session.units_drawn(
            bulk,
            units,
            planned,
        ).0.piles == session.units_drawn(bulk, units, k).0.piles,
    decreases k,
{
    if k > 0 {
        purchase_runs_until_full(session, bulk, units, (k - 1) as nat, planned);
        assert(!all_full(session.units_drawn(bulk, units, (k - 1) as nat).0.piles));
    }
    if k < planned && all_full(session.units_drawn(bulk, units, k).0.piles) {
        let stopped = session.units_drawn(bulk, units, k + 1);
        assert(stopped.2 && stopped.1 == k);
        lemma_units_stock(session, bulk, units, k);
        lemma_free_piles(session.units_drawn(bulk, units, k).0.piles);
        lemma_stopped_stays(session, bulk, units, k + 1, planned);
    }
}

} // verus!
