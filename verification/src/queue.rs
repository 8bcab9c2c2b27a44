use crate::consume_counter::ConsumeCount;
use crate::item::Item;
use crate::stress::{stress_after, StressMeter, StressOrigin, StressPopupText, RELIEF};
use std::collections::VecDeque;
use vstd::prelude::*;

verus! {

/// The staging line in front of the active slot, first come first served.
pub struct Queue {
    items: VecDeque<Item>,
}

/// A timer that runs once from zero to its duration, in nanoseconds.
#[derive(Clone, Copy, PartialEq, Eq, Debug, Structural)]
pub struct Countdown {
    pub elapsed: u64,
    pub duration: u64,
    pub finished: bool,
}

/// The item that is being consumed, with the time it has been at it.
#[derive(Clone, Copy, PartialEq, Eq, Debug, Structural)]
pub struct ActiveItem {
    pub item: Item,
    pub timer: Countdown,
}

/// Report of a finished consumption.
#[derive(Clone, Copy, PartialEq, Eq, Debug, Structural)]
pub struct ItemConsumed {
    pub item: Item,
    pub popup: StressPopupText,
}

impl Countdown {
    pub open spec fn wf(self) -> bool {
        &&& self.elapsed <= self.duration
        &&& self.finished ==> self.elapsed == self.duration
    }

    /// Whether a tick of `delta` is the one that completes the countdown.
    pub open spec fn spec_just_finished(self, delta: u64) -> bool {
        !self.finished && self.elapsed + delta >= self.duration
    }

    /// The countdown after a tick of `delta`. A finished one stays as it is.
    pub open spec fn spec_ticked(self, delta: u64) -> Countdown {
        if self.finished {
            self
        } else if self.elapsed + delta >= self.duration {
            Countdown { elapsed: self.duration, duration: self.duration, finished: true }
        } else {
            Countdown {
                elapsed: (self.elapsed + delta) as u64,
                duration: self.duration,
                finished: false,
            }
        }
    }

    pub fn new(duration: u64) -> (timer: Self)
        ensures
            timer.wf(),
            timer == (Countdown { elapsed: 0, duration, finished: false }),
    {
        Countdown { elapsed: 0, duration, finished: false }
    }

    /// Advances the countdown and says whether this tick completed it.
    pub fn tick(&mut self, delta: u64) -> (just_finished: bool)
        requires
            old(self).wf(),
        ensures
            final(self).wf(),
            *final(self) == old(self).spec_ticked(delta),
            just_finished == old(self).spec_just_finished(delta),
    {
        if self.finished {
            return false;
        }
        if delta >= self.duration - self.elapsed {
            self.elapsed = self.duration;
            self.finished = true;
            true
        } else {
            self.elapsed = self.elapsed + delta;
            false
        }
    }

    /// The time that is left, and the whole duration: the fraction that
    /// remains is the first over the second.
    pub fn fraction_remaining(&self) -> (fraction: (u64, u64))
        requires
            self.wf(),
        ensures
            fraction.0 == self.duration - self.elapsed,
            fraction.1 == self.duration,
    {
        (self.duration - self.elapsed, self.duration)
    }
}

/// Ticking a countdown that has completed completes nothing again.
pub proof fn countdown_completes_once(timer: Countdown, first: u64, second: u64)
    requires
        timer.wf(),
        timer.spec_just_finished(first),
    ensures
        !timer.spec_ticked(first).spec_just_finished(second),
        timer.spec_ticked(first).spec_ticked(second) == timer.spec_ticked(first),
{
}

impl Queue {
    pub const MAX_ITEMS: usize = 2;

    pub closed spec fn spec_items(&self) -> Seq<Item> {
        self.items@
    }

    pub open spec fn wf(&self) -> bool {
        self.spec_items().len() <= Queue::MAX_ITEMS
    }

    pub fn new() -> (queue: Self)
        ensures
            queue.wf(),
            queue.spec_items() == Seq::<Item>::empty(),
    {
        Queue { items: VecDeque::new() }
    }

    pub fn items(&self) -> (items: &VecDeque<Item>)
        ensures
            items@ == self.spec_items(),
    {
        &self.items
    }

    pub fn len(&self) -> (len: usize)
        ensures
            len == self.spec_items().len(),
    {
        self.items.len()
    }

    pub fn is_full(&self) -> (full: bool)
        ensures
            full == (self.spec_items().len() >= Queue::MAX_ITEMS),
    {
        self.items.len() >= Queue::MAX_ITEMS
    }

    /// Lets the item in at the back, or hands it back where the queue is
    /// full.
    pub fn try_enqueue(&mut self, item: Item) -> (refused: Option<Item>)
        requires
            old(self).wf(),
        ensures
            final(self).wf(),
            old(self).spec_items().len() < Queue::MAX_ITEMS ==> refused is None && final(self).spec_items() == old(self).spec_items().push(item),
            old(self).spec_items().len() >= Queue::MAX_ITEMS ==> refused == Some(item) && final(self).spec_items() == old(self).spec_items(),
    {
        if self.items.len() >= Queue::MAX_ITEMS {
            return Some(item);
        }
        self.items.push_back(item);
        None
    }

    /// Takes the item at the front.
    pub fn pop_front(&mut self) -> (front: Option<Item>)
        requires
            old(self).wf(),
        ensures
            final(self).wf(),
            old(self).spec_items().len() == 0 ==> front is None && final(self).spec_items() == old(self).spec_items(),
            old(self).spec_items().len() > 0 ==> front == Some(old(self).spec_items()[0]) && final(self).spec_items() == old(self).spec_items().subrange(
                1,
                old(self).spec_items().len() as int,
            ),
    {
        self.items.pop_front()
    }
}

/// The active slot after a promotion was tried with `queue` in front of it.
pub open spec fn spec_promoted(queue: Seq<Item>, active: Option<ActiveItem>) -> Option<
    ActiveItem,
> {
    if active is None && queue.len() > 0 {
        Some(
            ActiveItem {
                item: queue[0],
                timer: Countdown {
                    elapsed: 0,
                    duration: queue[0].item_type.spec_consume_time(),
                    finished: false,
                },
            },
        )
    } else {
        active
    }
}

/// The queue after a promotion was tried with `active` in the slot.
pub open spec fn spec_after_promotion(queue: Seq<Item>, active: Option<ActiveItem>) -> Seq<
    Item,
> {
    if active is None && queue.len() > 0 {
        queue.subrange(1, queue.len() as int)
    } else {
        queue
    }
}

/// Where the slot is free and the queue is not empty, the front of the queue
/// moves into the slot and its countdown starts at its category's time.
pub fn check_active(queue: &mut Queue, active: &mut Option<ActiveItem>)
    requires
        old(queue).wf(),
    ensures
        final(queue).wf(),
        *final(active) == spec_promoted(old(queue).spec_items(), *old(active)),
        final(queue).spec_items() == spec_after_promotion(old(queue).spec_items(), *old(active)),
{
    if active.is_some() {
        return ;
    }
    match queue.pop_front() {
        Some(item) => {
            *active = Some(ActiveItem { item, timer: Countdown::new(item.item_type.consume_time()) });
        },
        None => {},
    }
}

/// Whether a tick of `delta` completes the consumption in the slot.
pub open spec fn spec_completes(active: Option<ActiveItem>, delta: u64) -> bool {
    active matches Some(a) && a.timer.spec_just_finished(delta)
}

/// The slot after a tick of `delta`: a completed item leaves it.
pub open spec fn spec_slot_after(active: Option<ActiveItem>, delta: u64) -> Option<ActiveItem> {
    match active {
        Some(a) => if a.timer.spec_just_finished(delta) {
            None
        } else {
            Some(ActiveItem { item: a.item, timer: a.timer.spec_ticked(delta) })
        },
        None => None,
    }
}

/// The report of a tick of `delta`: of the consumption that it completes.
pub open spec fn spec_report(active: Option<ActiveItem>, delta: u64) -> Option<ItemConsumed> {
    if spec_completes(active, delta) {
        Some(
            ItemConsumed {
                item: active->0.item,
                popup: StressPopupText {
                    spawn_origin: StressOrigin::ActiveSlot,
                    stress_value: RELIEF,
                },
            },
        )
    } else {
        None
    }
}

/// Advances the consumption in the slot by `delta`. On completion the item
/// is destroyed and counted, one point of relief is asked of the stress
/// meter, and the consumption is reported; otherwise nothing but the
/// countdown changes.
pub fn consume_active(
    active: &mut Option<ActiveItem>,
    delta: u64,
    consumed: &mut ConsumeCount,
    stress: &mut StressMeter,
) -> (report: Option<ItemConsumed>)
    requires
        *old(active) matches Some(a) ==> a.timer.wf() && old(consumed).total < u32::MAX,
        old(consumed)@.wf(),
    ensures
        *final(active) == spec_slot_after(*old(active), delta),
        *final(active) matches Some(a) ==> a.timer.wf(),
        final(consumed)@.wf(),
        report == spec_report(*old(active), delta),
        spec_completes(*old(active), delta) ==> {
            let item = (*old(active))->0.item;
            &&& final(stress).value == stress_after(old(stress).value as int, RELIEF as int)
            &&& final(consumed)@ == old(consumed)@.recorded(item.item_type, item.index.0)
        },
        !spec_completes(*old(active), delta) ==> {
            &&& *final(stress) == *old(stress)
            &&& final(consumed)@ == old(consumed)@
        },
{
    match active {
        Some(a) => {
            let mut timer = a.timer;
            let item = a.item;
            if timer.tick(delta) {
                *active = None;
                consumed.record(item.item_type, item.index.0);
                stress.apply_delta(RELIEF);
                Some(
                    ItemConsumed {
                        item,
                        popup: StressPopupText {
                            spawn_origin: StressOrigin::ActiveSlot,
                            stress_value: RELIEF,
                        },
                    },
                )
            } else {
                *active = Some(ActiveItem { item, timer });
                None
            }
        },
        None => None,
    }
}

} // verus!
