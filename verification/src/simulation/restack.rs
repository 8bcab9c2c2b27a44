use crate::entropy::{bucket, next_draw, spec_bucket};
use crate::item::{Item, ItemId, ItemType, ITEM_LIMIT};
use crate::ownership::{lemma_count_push, lemma_count_remove};
use crate::simulation::{fresh, lemma_owned_kept, Simulation, SimulationView};
use crate::stack::{
    all_full, lemma_free_piles, pick_free_stack, pile_is_full, place_on, spec_destination,
};
use bevy_rand::prelude::ChaCha8Rng;
use vstd::prelude::*;

verus! {

/// How an item's way to a stack ended.
#[derive(Clone, Copy, PartialEq, Eq, Debug, Structural)]
pub enum AddOutcome {
    /// The item lies on the stack of the given category.
    Added(ItemType),
    /// Every stack is full; the item stays where it was.
    NoCapacity,
    /// The item is queued, active or gone; nothing changed.
    NotMovable,
}

impl SimulationView {
    /// The session after the item `id` was sent to the stack of `preferred`
    /// with a raw draw for the case that this stack is full: an item that is
    /// on a stack or outside every container goes where `spec_destination`
    /// says, and stays where it is if every stack is full; for any other
    /// item nothing changes.
    pub open spec fn add_or_overflow(self, preferred: ItemType, id: ItemId, raw: u32) -> SimulationView {
        if self.source(id) is Some {
            match spec_destination(self.piles, preferred.spec_position() as usize, raw) {
                Some(k) => self.add_item(ItemType::spec_at(k as int), id),
                None => self,
            }
        } else {
            self
        }
    }

    /// How the way of the item `id` to the stack of `preferred` ends.
    pub open spec fn add_outcome(self, preferred: ItemType, id: ItemId, raw: u32) -> AddOutcome {
        if self.source(id) is Some {
            match spec_destination(self.piles, preferred.spec_position() as usize, raw) {
                Some(k) => AddOutcome::Added(ItemType::spec_at(k as int)),
                None => AddOutcome::NoCapacity,
            }
        } else {
            AddOutcome::NotMovable
        }
    }

    /// Whether `after` is this session restacked: every stack kept its
    /// members and got items on top that were free and let go, each of them
    /// put on a stack that was not full then; the items
    /// that are still free were free before; every item that was held by the
    /// pointer is still free; an item that was let go is still free only
    /// where every stack is full; no item came or went, and nothing else
    /// changed.
    pub open spec fn restacked(self, after: SimulationView) -> bool {
        &&& after == SimulationView { piles: after.piles, free: after.free, ..self }
        &&& after.piles.len() == 4
        &&& after.alive() == self.alive()
        &&& forall|k: int|
            0 <= k < 4 ==> {
                &&& self.piles[k].len() <= (#[trigger] after.piles[k]).len()
                &&& after.piles[k].take(self.piles[k].len() as int) == self.piles[k]
            }
        &&& forall|k: int, j: int|
            0 <= k < 4 && self.piles[k].len() <= j < after.piles[k].len() ==> self.free.contains(
                #[trigger] after.piles[k][j],
            ) && !after.piles[k][j].dragging
        &&& forall|k: int, j: int|
            0 <= k < 4 && self.piles[k].len() <= j < after.piles[k].len() ==> !pile_is_full(
                #[trigger] after.piles[k].take(j),
            )
        &&& forall|i: int|
            0 <= i < after.free.len() ==> self.free.contains(#[trigger] after.free[i])
        &&& forall|x: Item| #[trigger] self.free.contains(x) && x.dragging ==> after.free.contains(x)
        &&& forall|i: int|
            0 <= i < after.free.len() && !(#[trigger] after.free[i]).dragging ==> all_full(
                after.piles,
            )
    }
}

/// The raw draws for one free item that is restacked: for the stack that it
/// is meant for, and for the stack that takes it where that one is full.
pub type RestackDraws = (u32, u32);

impl SimulationView {
    /// The session after the free item at place `i` was restacked with its
    /// draws: an item that was let go is meant for one of the four stacks,
    /// each for a quarter of the first draw's range, and goes where
    /// `spec_destination` says; it stays where every stack is full, and so
    /// does an item that the pointer holds.
    pub open spec fn restack_item_drawn(self, i: int, draws: RestackDraws) -> SimulationView {
        let item = self.free[i];
        if item.dragging {
            self
        } else {
            match spec_destination(self.piles, spec_bucket(draws.0, 4) as usize, draws.1) {
                Some(k) => SimulationView {
                    piles: self.piles.update(k as int, self.piles[k as int].push(item)),
                    free: self.free.remove(i),
                    ..self
                },
                None => self,
            }
        }
    }

    /// The session after the first `j` of its free items were restacked, in
    /// their order and each with its own draws, and the place of the next
    /// free item.
    pub open spec fn restack_run(self, draws: Seq<RestackDraws>, j: nat) -> (SimulationView, int)
        decreases j,
    {
        if j == 0 {
            (self, 0)
        } else {
            let earlier = self.restack_run(draws, (j - 1) as nat);
            let next = earlier.0.restack_item_drawn(earlier.1, draws[j - 1]);
            if next.free.len() < earlier.0.free.len() {
                (next, earlier.1)
            } else {
                (next, earlier.1 + 1)
            }
        }
    }

    /// The session after all its free items were restacked with the given
    /// draws.
    pub open spec fn restack_drawn(self, draws: Seq<RestackDraws>) -> SimulationView {
        self.restack_run(draws, self.free.len()).0
    }

    /// Whether the given draws explain a restacking from this session to
    /// `after`.
    pub open spec fn restack_explained(self, after: SimulationView, draws: Seq<RestackDraws>) -> bool {
        draws.len() == self.free.len() && after == self.restack_drawn(draws)
    }
}

/// The first `j` free items are restacked by the first `j` lots of draws
/// alone.
pub proof fn lemma_restack_prefix(
    session: SimulationView,
    draws: Seq<RestackDraws>,
    others: Seq<RestackDraws>,
    j: nat,
)
    requires
        forall|i: int| 0 <= i < j ==> draws[i] == others[i],
    ensures
        session.restack_run(draws, j) == session.restack_run(others, j),
    decreases j,
{
    if j > 0 {
        lemma_restack_prefix(session, draws, others, (j - 1) as nat);
        assert(draws[j - 1] == others[j - 1]);
    }
}

/// Whether `after` is `before` with the free item at place `i` put on top
/// of the stack at place `k`, which was not full.
pub open spec fn placed_from(before: SimulationView, after: SimulationView, i: int, k: int) -> bool {
    &&& 0 <= k < 4
    &&& 0 <= i < before.free.len()
    &&& !pile_is_full(before.piles[k])
    &&& !before.free[i].dragging
    &&& after == SimulationView {
        piles: before.piles.update(k, before.piles[k].push(before.free[i])),
        free: before.free.remove(i),
        ..before
    }
}

/// One step of restacking at the free item at place `i`: it is put on a
/// stack that is not full, or it stays because the pointer holds it or
/// every stack is full.
pub open spec fn restack_step(before: SimulationView, after: SimulationView, i: int, placed: bool) -> bool {
    if placed {
        exists|k: int| placed_from(before, after, i, k)
    } else {
        &&& after == before
        &&& 0 <= i < before.free.len()
        &&& before.free[i].dragging || all_full(before.piles)
    }
}

/// Restacking a free item keeps every item owned by one container.
pub proof fn lemma_placed_from_owned(
    before: SimulationView,
    after: SimulationView,
    i: int,
    k: int,
)
    requires
        before.piles.len() == 4,
        before.owned(),
        placed_from(before, after, i, k),
    ensures
        after.owned(),
{
    assert forall|other: ItemId| #[trigger]
            after.occurs(other) <= before.occurs(other) + fresh(before, after, other) by {
        lemma_count_remove(before.free, i, other);
        lemma_count_push(before.piles[k], before.free[i], other);
        assert(after.occurs(other) == before.occurs(other));
    }
    lemma_owned_kept(before, after);
}

/// What holds while a session is restacked, with the free items of `cur`
/// before place `i` done, which are those of `start` before place `j`.
pub open spec fn restack_inv(start: SimulationView, cur: SimulationView, i: int, j: int) -> bool {
    &&& 0 <= i <= cur.free.len()
    &&& i <= j <= start.free.len()
    &&& cur == SimulationView { piles: cur.piles, free: cur.free, ..start }
    &&& cur.piles.len() == 4
    &&& cur.alive() == start.alive()
    &&& cur.free.len() - i == start.free.len() - j
    &&& cur.free.subrange(i, cur.free.len() as int) == start.free.subrange(
        j,
        start.free.len() as int,
    )
    &&& forall|k: int|
        0 <= k < 4 ==> {
            &&& start.piles[k].len() <= (#[trigger] cur.piles[k]).len()
            &&& cur.piles[k].take(start.piles[k].len() as int) == start.piles[k]
        }
    &&& forall|k: int, p: int|
        0 <= k < 4 && start.piles[k].len() <= p < cur.piles[k].len() ==> start.free.contains(
            #[trigger] cur.piles[k][p],
        ) && !cur.piles[k][p].dragging
    &&& forall|k: int, p: int|
        0 <= k < 4 && start.piles[k].len() <= p < cur.piles[k].len() ==> !pile_is_full(
            #[trigger] cur.piles[k].take(p),
        )
    &&& forall|q: int| 0 <= q < i ==> start.free.contains(#[trigger] cur.free[q])
    &&& forall|x: Item| #[trigger]
        start.free.take(j).contains(x) && x.dragging ==> cur.free.take(i).contains(x)
    &&& forall|q: int| 0 <= q < i && !(#[trigger] cur.free[q]).dragging ==> all_full(cur.piles)
}

proof fn lemma_restack_start(start: SimulationView)
    requires
        start.piles.len() == 4,
    ensures
        restack_inv(start, start, 0, 0),
{
    assert forall|k: int| 0 <= k < 4 implies (#[trigger] start.piles[k]).take(
        start.piles[k].len() as int,
    ) == start.piles[k] by {
        assert(start.piles[k].take(start.piles[k].len() as int) =~= start.piles[k]);
    }
    assert(start.free.take(0) =~= Seq::<Item>::empty());
}

proof fn lemma_restack_current(start: SimulationView, cur: SimulationView, i: int, j: int)
    requires
        restack_inv(start, cur, i, j),
        i < cur.free.len(),
    ensures
        j < start.free.len(),
        cur.free[i] == start.free[j],
        start.free.contains(cur.free[i]),
        cur.free.subrange(i + 1, cur.free.len() as int) == start.free.subrange(
            j + 1,
            start.free.len() as int,
        ),
{
    let a = cur.free.subrange(i, cur.free.len() as int);
    let b = start.free.subrange(j, start.free.len() as int);
    assert(a[0] == cur.free[i]);
    assert(b[0] == start.free[j]);
    assert(cur.free.subrange(i + 1, cur.free.len() as int) =~= a.subrange(1, a.len() as int));
    assert(start.free.subrange(j + 1, start.free.len() as int) =~= b.subrange(1, b.len() as int));
}

proof fn lemma_restack_kept(start: SimulationView, cur: SimulationView, i: int, j: int)
    requires
        restack_inv(start, cur, i, j),
        restack_step(cur, cur, i, false),
    ensures
        restack_inv(start, cur, i + 1, j + 1),
{
    lemma_restack_current(start, cur, i, j);
    assert forall|x: Item| #[trigger]
        start.free.take(j + 1).contains(x) && x.dragging implies cur.free.take(i + 1).contains(
        x,
    ) by {
        lemma_take_step(start.free, j, x);
        lemma_take_step(cur.free, i, x);
    }
}

proof fn lemma_restack_placed(
    start: SimulationView,
    before: SimulationView,
    after: SimulationView,
    i: int,
    j: int,
)
    requires
        restack_inv(start, before, i, j),
        restack_step(before, after, i, true),
    ensures
        restack_inv(start, after, i, j + 1),
{
    lemma_restack_current(start, before, i, j);
    let k = choose|k: int| placed_from(before, after, i, k);
    let item = before.free[i];
    assert(after.piles[k] == before.piles[k].push(item));
    assert(after.free.subrange(i, after.free.len() as int) =~= before.free.subrange(
        i + 1,
        before.free.len() as int,
    ));
    assert(after.free.take(i) =~= before.free.take(i));
    assert forall|x: Item| #[trigger]
        start.free.take(j + 1).contains(x) && x.dragging implies after.free.take(i).contains(
        x,
    ) by {
        lemma_take_step(start.free, j, x);
    }
    assert forall|q: int| 0 <= q < i implies start.free.contains(#[trigger] after.free[q]) by {
        assert(after.free[q] == before.free[q]);
    }
    assert forall|q: int| 0 <= q < i && !(#[trigger] after.free[q]).dragging implies all_full(
        after.piles,
    ) by {
        assert(after.free[q] == before.free[q]);
        assert(all_full(before.piles));
        assert(pile_is_full(before.piles[k]));
    }
    assert forall|m: int| 0 <= m < 4 implies {
        &&& start.piles[m].len() <= (#[trigger] after.piles[m]).len()
        &&& after.piles[m].take(start.piles[m].len() as int) == start.piles[m]
    } by {
        assert(before.piles[m].take(start.piles[m].len() as int) == start.piles[m]);
        if m == k {
            assert(after.piles[m].take(start.piles[m].len() as int) =~= before.piles[m].take(
                start.piles[m].len() as int,
            ));
        }
    }
    assert forall|m: int, p: int|
        0 <= m < 4 && start.piles[m].len() <= p < after.piles[m].len() implies !pile_is_full(
        #[trigger] after.piles[m].take(p),
    ) by {
        if p < before.piles[m].len() {
            assert(after.piles[m].take(p) =~= before.piles[m].take(p));
        } else {
            assert(after.piles[m].take(p) =~= before.piles[m]);
        }
    }
    assert forall|m: int, p: int|
        0 <= m < 4 && start.piles[m].len() <= p < after.piles[m].len() implies start.free.contains(
        #[trigger] after.piles[m][p],
    ) && !after.piles[m][p].dragging by {
        if p < before.piles[m].len() {
            assert(after.piles[m][p] == before.piles[m][p]);
        }
    }
}

proof fn lemma_restack_end(start: SimulationView, cur: SimulationView, j: int)
    requires
        restack_inv(start, cur, cur.free.len() as int, j),
    ensures
        start.restacked(cur),
{
    assert(j == start.free.len());
    assert(start.free.take(j) =~= start.free);
    assert(cur.free.take(cur.free.len() as int) =~= cur.free);
}

proof fn lemma_take_step(items: Seq<Item>, i: int, x: Item)
    requires
        0 <= i < items.len(),
    ensures
        items.take(i + 1).contains(items[i]),
        items.take(i).contains(x) ==> items.take(i + 1).contains(x),
        items.take(i + 1).contains(x) ==> items.take(i).contains(x) || x == items[i],
{
    let short = items.take(i);
    let long = items.take(i + 1);
    assert(long[i] == items[i]);
    if short.contains(x) {
        let w = choose|w: int| 0 <= w < short.len() && #[trigger] short[w] == x;
        assert(long[w] == x);
    }
    if long.contains(x) {
        let w = choose|w: int| 0 <= w < long.len() && #[trigger] long[w] == x;
        if w < i {
            assert(short[w] == x);
        }
    }
}

impl Simulation {
    /// Sends the item `id` to the stack of `preferred`, with a raw draw for
    /// the case that this stack is full.
    pub fn add_to_stack_or_overflow_drawn(&mut self, preferred: ItemType, id: ItemId, raw: u32) -> (outcome:
        AddOutcome)
        requires
            old(self).wf(),
        ensures
            final(self).wf(),
            final(self)@ == old(self)@.add_or_overflow(preferred, id, raw),
            outcome == old(self)@.add_outcome(preferred, id, raw),
    {
        match self.find(id) {
            Some(_) => {},
            None => {
                return AddOutcome::NotMovable;
            },
        }
        let k = preferred.position();
        assert(self.stacks@[k as int].wf());
        let target = if !self.stacks[k].is_full() {
            Some(k)
        } else {
            pick_free_stack(&self.stacks, raw)
        };
        match target {
            Some(k) => {
                let stack = ItemType::at(k);
                self.add_item(stack, id);
                AddOutcome::Added(stack)
            },
            None => AddOutcome::NoCapacity,
        }
    }

    /// Sends the item `id` to the stack of `preferred`. An item that is on a
    /// stack or outside every container goes there, or, where that stack is
    /// full, to one that a draw from the generator picks among those that
    /// are not; where every stack is full it stays where it is. For an item
    /// that is queued, active or gone nothing changes.
    pub fn add_to_stack_or_overflow(&mut self, preferred: ItemType, id: ItemId, rng: &mut ChaCha8Rng) -> (outcome:
        AddOutcome)
        requires
            old(self).wf(),
        ensures
            final(self).wf(),
            exists|raw: u32|
                final(self)@ == old(self)@.add_or_overflow(preferred, id, raw) && outcome == old(
                    self,
                )@.add_outcome(preferred, id, raw),
            outcome == AddOutcome::NotMovable <==> old(self)@.source(id) is None,
            outcome == AddOutcome::NoCapacity <==> old(self)@.source(id) is Some && all_full(
                old(self)@.piles,
            ),
    {
        proof {
            crate::stack::lemma_free_piles(self@.piles);
        }
        let k = preferred.position();
        assert(self.stacks@[k as int].wf());
        let draws = self.find(id).is_some() && self.stacks[k].is_full() && crate::stack::collect_free(
            &self.stacks,
        ).len() > 0;
        let raw = if draws {
            next_draw(rng)
        } else {
            0
        };
        let outcome = self.add_to_stack_or_overflow_drawn(preferred, id, raw);
        assert(self@ == old(self)@.add_or_overflow(preferred, id, raw) && outcome == old(
            self,
        )@.add_outcome(preferred, id, raw));
        outcome
    }

    /// Restacks the free item at place `i` with its draws. Says whether the
    /// item went on a stack.
    pub fn restack_item_drawn(&mut self, i: usize, draws: RestackDraws) -> (placed: bool)
        requires
            old(self).wf(),
            i < old(self)@.free.len(),
        ensures
            final(self).wf(),
            final(self)@ == old(self)@.restack_item_drawn(i as int, draws),
            restack_step(old(self)@, final(self)@, i as int, placed),
            placed == (final(self)@.free.len() < old(self)@.free.len()),
    {
        proof {
            lemma_free_piles(self@.piles);
        }
        let item = self.free[i];
        if item.dragging {
            return false;
        }
        let preferred = bucket(draws.0, 4) as usize;
        assert(self.stacks@[preferred as int].wf());
        let target = if !self.stacks[preferred].is_full() {
            Some(preferred)
        } else {
            pick_free_stack(&self.stacks, draws.1)
        };
        match target {
            Some(k) => {
                assert(self.stacks@[k as int].spec_items() == self@.piles[k as int]);
                assert(self.stacks@[k as int].wf());
                place_on(&mut self.stacks, k, item);
                self.free.remove(i);
                proof {
                    assert(placed_from(old(self)@, self@, i as int, k as int));
                    lemma_placed_from_owned(old(self)@, self@, i as int, k as int);
                }
                true
            },
            None => false,
        }
    }

    /// Restacks the free item at place `i`: an item that was let go is meant
    /// for a stack that one draw from the generator picks, and where that
    /// stack is full and another is not, a second draw picks among those.
    fn restack_at(&mut self, i: usize, rng: &mut ChaCha8Rng) -> (placed: bool)
        requires
            old(self).wf(),
            i < old(self)@.free.len(),
        ensures
            final(self).wf(),
            exists|draws: RestackDraws|
                final(self)@ == #[trigger] old(self)@.restack_item_drawn(i as int, draws),
            restack_step(old(self)@, final(self)@, i as int, placed),
            placed == (final(self)@.free.len() < old(self)@.free.len()),
    {
        proof {
            lemma_free_piles(self@.piles);
        }
        let item = self.free[i];
        if item.dragging {
            assert(self@ == old(self)@.restack_item_drawn(i as int, (0u32, 0u32)));
            return false;
        }
        let preferred_raw = next_draw(rng);
        let preferred = bucket(preferred_raw, 4) as usize;
        assert forall|k: int| 0 <= k < self.stacks@.len() implies (
        #[trigger] self.stacks@[k]).spec_items().len() < ITEM_LIMIT by {
            assert(self.stacks@[k].spec_items() == self@.piles[k]);
        }
        match crate::stack::add_to_stack_or_overflow(&mut self.stacks, preferred, item, rng) {
            Ok(k) => {
                self.free.remove(i);
                proof {
                    assert(placed_from(old(self)@, self@, i as int, k as int));
                    lemma_placed_from_owned(old(self)@, self@, i as int, k as int);
                    let raw = choose|raw: u32|
                        Some(k) == spec_destination(old(self)@.piles, preferred, raw);
                    assert(self@ == old(self)@.restack_item_drawn(i as int, (preferred_raw, raw)));
                }
                true
            },
            Err(_) => {
                assert(self@ == old(self)@.restack_item_drawn(i as int, (preferred_raw, 0u32)));
                false
            },
        }
    }
}

/// Restacks every free item with its own draws, in the order of the free
/// items: an item that was let go goes on the stack that its first draw
/// picks among the four, or, where that one is full, on the one that its
/// second draw picks among those that are not. Items that the pointer holds
/// stay, and so do the others once every stack is full.
pub fn restack_drawn(session: &mut Simulation, draws: &Vec<RestackDraws>)
    requires
        old(session).wf(),
        draws@.len() >= old(session)@.free.len(),
    ensures
        final(session).wf(),
        final(session)@ == old(session)@.restack_drawn(draws@),
        old(session)@.restacked(final(session)@),
{
    let mut i: usize = 0;
    let mut j: usize = 0;
    proof {
        lemma_restack_start(session@);
    }
    while i < session.free.len()
        invariant
            session.wf(),
            old(session)@.piles.len() == 4,
            draws@.len() >= old(session)@.free.len(),
            0 <= i <= session@.free.len(),
            restack_inv(old(session)@, session@, i as int, j as int),
            old(session)@.restack_run(draws@, j as nat) == (session@, i as int),
        decreases session@.free.len() - i,
    {
        let ghost before = session@;
        let placed = session.restack_item_drawn(i, draws[j]);
        proof {
            if placed {
                lemma_restack_placed(old(session)@, before, session@, i as int, j as int);
            } else {
                lemma_restack_kept(old(session)@, before, i as int, j as int);
            }
        }
        j = j + 1;
        if !placed {
            i = i + 1;
        }
    }
    proof {
        lemma_restack_end(old(session)@, session@, j as int);
    }
}

/// Puts every free item that was let go back on a stack: on one of the
/// four that a draw from the generator picks, or, where that one is
/// full, on one that a second draw picks among those that are not. Items
/// that the pointer holds stay, and so do the others once every stack is
/// full. What comes of it is what `restack_drawn` makes of the draws.
pub fn restack(session: &mut Simulation, rng: &mut ChaCha8Rng)
    requires
        old(session).wf(),
    ensures
        final(session).wf(),
        exists|draws: Seq<RestackDraws>| old(session)@.restack_explained(final(session)@, draws),
        old(session)@.restacked(final(session)@),
{
    let mut i: usize = 0;
    let ghost mut j: nat = 0;
    let ghost mut tape: Seq<RestackDraws> = Seq::empty();
    proof {
        lemma_restack_start(session@);
    }
    while i < session.free.len()
        invariant
            session.wf(),
            old(session)@.piles.len() == 4,
            0 <= i <= session@.free.len(),
            tape.len() == j,
            restack_inv(old(session)@, session@, i as int, j as int),
            old(session)@.restack_run(tape, j) == (session@, i as int),
        decreases session@.free.len() - i,
    {
        let ghost before = session@;
        let placed = session.restack_at(i, rng);
        proof {
            if placed {
                lemma_restack_placed(old(session)@, before, session@, i as int, j as int);
            } else {
                lemma_restack_kept(old(session)@, before, i as int, j as int);
            }
            let draws = choose|draws: RestackDraws|
                session@ == #[trigger] before.restack_item_drawn(i as int, draws);
            lemma_restack_prefix(old(session)@, tape, tape.push(draws), j);
            tape = tape.push(draws);
            j = j + 1;
        }
        if !placed {
            i = i + 1;
        }
    }
    proof {
        lemma_restack_end(old(session)@, session@, j as int);
        assert(old(session)@.restack_explained(session@, tape));
    }
}

} // verus!
