use crate::item::{Item, ItemId, ItemType, ITEM_LIMIT};
use crate::ownership::{lemma_count_push, lemma_count_update};
use crate::queue::Queue;
use crate::simulation::{fresh, lemma_owned_kept, 
    lemma_first_place_exists, lemma_on_pile_occurs, lemma_without_occurs, spec_place,
    spec_settled, Simulation, SimulationView, Source,
};
use crate::stack::place_on;
use vstd::prelude::*;

verus! {

impl SimulationView {
    /// The session after the item `id` was put on the stack of `stack`: an
    /// item that is on a stack or outside every container moves to the top
    /// of that stack; for any other nothing changes.
    pub open spec fn add_item(self, stack: ItemType, id: ItemId) -> SimulationView {
        if self.source(id) is Some {
            self.without(id).with_on_pile(stack.spec_position(), spec_settled(self.item(id)))
        } else {
            self
        }
    }

    /// The session after the item `id` was detached from its stack: it is
    /// outside every container, let go or held by the pointer as `dragging`
    /// says. For an item that is not on a stack nothing changes.
    pub open spec fn detached(self, id: ItemId, dragging: bool) -> SimulationView {
        if self.source(id) matches Some(Source::Pile(_)) {
            let moved = self.without(id);
            SimulationView {
                free: moved.free.push(Item { dragging, ..self.item(id) }),
                ..moved
            }
        } else {
            self
        }
    }

    /// The session after the held state of a free item was set.
    pub open spec fn held(self, id: ItemId, dragging: bool) -> SimulationView {
        if self.source(id) == Some(Source::Free) {
            let place = spec_place(self.free, id);
            SimulationView {
                free: self.free.update(place, Item { dragging, ..self.free[place] }),
                ..self
            }
        } else {
            self
        }
    }

    /// The session after the pointer picked the item `id` up: an item on a
    /// stack leaves it; a free item is held.
    pub open spec fn start_drag(self, id: ItemId) -> SimulationView {
        if self.source(id) == Some(Source::Free) {
            self.held(id, true)
        } else {
            self.detached(id, true)
        }
    }

    /// Whether the item `id` is let into the queue: it is on a stack or
    /// outside every container, and the queue is not full.
    pub open spec fn admits(self, id: ItemId) -> bool {
        self.source(id) is Some && self.queue.len() < Queue::MAX_ITEMS
    }

    /// The session after the item `id` asked for the queue: where it is let
    /// in, it leaves its stack or the free items and stands at the back of
    /// the queue; otherwise nothing changes.
    pub open spec fn try_enqueue(self, id: ItemId) -> SimulationView {
        if self.admits(id) {
            let moved = self.without(id);
            SimulationView { queue: moved.queue.push(spec_settled(self.item(id))), ..moved }
        } else {
            self
        }
    }
}

/// Moving an item to a stack keeps every item owned by one container.
pub proof fn lemma_add_item_owned(session: SimulationView, stack: ItemType, id: ItemId)
    requires
        session.piles.len() == 4,
        session.owned(),
    ensures
        session.add_item(stack, id).owned(),
{
    if session.source(id) is Some {
        let after = session.add_item(stack, id);
        assert forall|other: ItemId| #[trigger]
            after.occurs(other) <= session.occurs(other) + fresh(session, after, other) by {
            lemma_without_occurs(session, id, other);
            lemma_on_pile_occurs(
                session.without(id),
                stack.spec_position(),
                spec_settled(session.item(id)),
                other,
            );
        }
        lemma_owned_kept(session, after);
    }
}

/// Detaching an item from its stack keeps every item owned by one
/// container.
pub proof fn lemma_detached_owned(session: SimulationView, id: ItemId, dragging: bool)
    requires
        session.piles.len() == 4,
        session.owned(),
    ensures
        session.detached(id, dragging).owned(),
{
    if session.source(id) matches Some(Source::Pile(_)) {
        let after = session.detached(id, dragging);
        let moved = session.without(id);
        assert forall|other: ItemId| #[trigger]
            after.occurs(other) <= session.occurs(other) + fresh(session, after, other) by {
            lemma_without_occurs(session, id, other);
            lemma_count_push(moved.free, Item { dragging, ..session.item(id) }, other);
            assert(after.occurs(other) == session.occurs(other));
        }
        lemma_owned_kept(session, after);
    }
}

/// Holding a free item, or letting it go, keeps every item owned by one
/// container.
pub proof fn lemma_held_owned(session: SimulationView, id: ItemId, dragging: bool)
    requires
        session.piles.len() == 4,
        session.owned(),
    ensures
        session.held(id, dragging).owned(),
{
    if session.source(id) == Some(Source::Free) {
        let after = session.held(id, dragging);
        let place = spec_place(session.free, id);
        lemma_first_place_exists(session.free, id);
        assert forall|other: ItemId| #[trigger]
            after.occurs(other) <= session.occurs(other) + fresh(session, after, other) by {
            lemma_count_update(
                session.free,
                place,
                Item { dragging, ..session.free[place] },
                other,
            );
            assert(after.occurs(other) == session.occurs(other));
        }
        lemma_owned_kept(session, after);
    }
}

/// Letting an item into the queue keeps every item owned by one container.
pub proof fn lemma_try_enqueue_owned(session: SimulationView, id: ItemId)
    requires
        session.piles.len() == 4,
        session.owned(),
    ensures
        session.try_enqueue(id).owned(),
{
    if session.admits(id) {
        let after = session.try_enqueue(id);
        let moved = session.without(id);
        assert forall|other: ItemId| #[trigger]
            after.occurs(other) <= session.occurs(other) + fresh(session, after, other) by {
            lemma_without_occurs(session, id, other);
            lemma_count_push(moved.queue, spec_settled(session.item(id)), other);
            assert(after.occurs(other) == session.occurs(other));
        }
        lemma_owned_kept(session, after);
    }
}

impl Simulation {
    /// Puts the item `id` on the stack of `stack`. An item that is on a
    /// stack or outside every container moves to the top of that stack; for
    /// one that is queued, active or gone nothing changes. Says whether the
    /// item moved.
    pub fn add_item(&mut self, stack: ItemType, id: ItemId) -> (moved: bool)
        requires
            old(self).wf(),
        ensures
            final(self).wf(),
            final(self)@ == old(self)@.add_item(stack, id),
            moved == old(self)@.source(id) is Some,
    {
        proof {
            lemma_add_item_owned(self@, stack, id);
        }
        match self.find(id) {
            Some((source, place)) => {
                let item = self.take(id, source, place);
                let k = stack.position();
                assert(self@.piles[k as int].len() < ITEM_LIMIT);
                place_on(&mut self.stacks, k, Item { dragging: false, ..item });
                true
            },
            None => false,
        }
    }

    /// Detaches the item `id` from its stack and leaves it outside every
    /// container, let go. For an item that is not on a stack nothing
    /// changes. Says whether the item was on a stack.
    pub fn remove_item(&mut self, id: ItemId) -> (removed: bool)
        requires
            old(self).wf(),
        ensures
            final(self).wf(),
            final(self)@ == old(self)@.detached(id, false),
            removed == (old(self)@.source(id) matches Some(Source::Pile(_))),
    {
        proof {
            lemma_detached_owned(self@, id, false);
        }
        match self.find(id) {
            Some((Source::Pile(k), place)) => {
                let item = self.take(id, Source::Pile(k), place);
                self.free.push(Item { dragging: false, ..item });
                true
            },
            _ => false,
        }
    }

    /// The pointer picks the item `id` up: from a stack, which it leaves, or
    /// from among the free items. For an item that is queued, active or gone
    /// nothing changes.
    pub fn start_drag(&mut self, id: ItemId)
        requires
            old(self).wf(),
        ensures
            final(self).wf(),
            final(self)@ == old(self)@.start_drag(id),
    {
        proof {
            lemma_detached_owned(self@, id, true);
            lemma_held_owned(self@, id, true);
        }
        match self.find(id) {
            Some((Source::Pile(k), place)) => {
                let item = self.take(id, Source::Pile(k), place);
                self.free.push(Item { dragging: true, ..item });
            },
            Some((Source::Free, place)) => {
                let item = self.free[place];
                self.free[place] = Item { dragging: true, ..item };
            },
            None => {},
        }
    }

    /// The pointer lets the item `id` go where it is. Only a free item
    /// changes.
    pub fn end_drag(&mut self, id: ItemId)
        requires
            old(self).wf(),
        ensures
            final(self).wf(),
            final(self)@ == old(self)@.held(id, false),
    {
        proof {
            lemma_held_owned(self@, id, false);
        }
        match self.find(id) {
            Some((Source::Free, place)) => {
                let item = self.free[place];
                self.free[place] = Item { dragging: false, ..item };
            },
            _ => {},
        }
    }

    /// Asks for the item `id` to be queued. An item that is on a stack or
    /// outside every container leaves it and stands at the back of the
    /// queue, unless the queue is full; for one that is queued, active or
    /// gone nothing changes. Says whether the item was let in.
    pub fn try_enqueue(&mut self, id: ItemId) -> (queued: bool)
        requires
            old(self).wf(),
        ensures
            final(self).wf(),
            final(self)@ == old(self)@.try_enqueue(id),
            queued == old(self)@.admits(id),
    {
        proof {
            lemma_try_enqueue_owned(self@, id);
        }
        if self.queue.is_full() {
            return false;
        }
        match self.find(id) {
            Some((source, place)) => {
                let item = self.take(id, source, place);
                let refused = self.queue.try_enqueue(Item { dragging: false, ..item });
                assert(refused is None);
                true
            },
            None => false,
        }
    }
}

} // verus!
