use crate::entropy::{bucket, next_draw, spec_bucket};
use crate::item::{Item, ItemHandleIndex, ItemId, ItemType, CATALOG_VARIANTS, ITEM_LIMIT};
use crate::simulation::{fresh, lemma_owned_kept, lemma_on_pile_occurs, Simulation, SimulationView};
use crate::spawning::TodayTimer;
use crate::stack::{all_full, pick_free_stack, pile_is_full, place_on, spec_pick_free};
use crate::stress::{stress_after, StressMeter, RELIEF};
use bevy_rand::prelude::ChaCha8Rng;
use vstd::prelude::*;

verus! {

/// Whether `item` is one that the spawner made with an identity from `from`
/// up to, not including, `to`.
pub open spec fn is_spawned(item: Item, from: int, to: int) -> bool {
    &&& from <= item.id.0 < to
    &&& item.index.0 < CATALOG_VARIANTS
    &&& !item.dragging
}

/// Whether `after` is `before` with `n` items added on top.
pub open spec fn extends(before: Seq<Item>, after: Seq<Item>, n: int) -> bool {
    &&& after.len() == before.len() + n
    &&& after.take(before.len() as int) == before
}

impl SimulationView {
    /// The item that the spawner makes next, of the given category and with
    /// the skin that the raw draw picks, each skin of the catalog for an equal
    /// share of the draws.
    pub open spec fn next_item(self, item_type: ItemType, variant_raw: u32) -> Item {
        Item {
            id: ItemId(self.created),
            item_type,
            index: ItemHandleIndex(spec_bucket(variant_raw, CATALOG_VARIANTS as u32) as usize),
            dragging: false,
        }
    }

    /// The session after an item of `item_type` was made and put on the
    /// stack of `stack`, whatever that stack's height.
    pub open spec fn spawn_on(
        self,
        item_type: ItemType,
        stack: ItemType,
        variant_raw: u32,
    ) -> SimulationView {
        SimulationView {
            created: (self.created + 1) as u32,
            ..self.with_on_pile(stack.spec_position(), self.next_item(item_type, variant_raw))
        }
    }

    /// The session after one random spawn with the given raw draws: the
    /// category draw picks Book, Comic or Game for a quarter of the draws
    /// each and Movie for the rest; the item goes on the stack that the
    /// stack draw picks among those that are not full. Where all are full,
    /// nothing changes.
    pub open spec fn spawn_drawn(
        self,
        category_raw: u32,
        variant_raw: u32,
        stack_raw: u32,
    ) -> SimulationView {
        match spec_pick_free(self.piles, stack_raw) {
            Some(k) => self.spawn_on(
                ItemType::spec_from_draw(spec_bucket(category_raw, 4) as u32),
                ItemType::spec_at(k as int),
                variant_raw,
            ),
            None => self,
        }
    }

    /// The session after a purchase that brought `spawned` items was
    /// settled: where it brought any, one point of relief is asked of the
    /// stress meter and the day counts as one with a purchase.
    pub open spec fn settled(self, spawned: u32) -> SimulationView {
        if spawned >= 1 {
            SimulationView {
                stress: StressMeter {
                    value: stress_after(self.stress.value as int, RELIEF as int) as i64,
                },
                today: TodayTimer { clicked_today: true, ..self.today },
                ..self
            }
        } else {
            self
        }
    }

    /// Whether `after` is this session with `n` items more on its stacks:
    /// every stack kept its members and got new ones on top, `n` in all,
    /// each of them put on a stack that was not full then, and nothing else
    /// changed but the flavour text on show and the count of identities.
    pub open spec fn stocked(self, after: SimulationView, n: int) -> bool {
        &&& after == SimulationView {
            piles: after.piles,
            dialog: after.dialog,
            created: after.created,
            ..self
        }
        &&& after.piles.len() == 4
        &&& after.alive() == self.alive() + n
        &&& forall|k: int|
            0 <= k < 4 ==> {
                &&& self.piles[k].len() <= (#[trigger] after.piles[k]).len()
                &&& after.piles[k].take(self.piles[k].len() as int) == self.piles[k]
            }
        &&& forall|k: int, j: int|
            0 <= k < 4 && self.piles[k].len() <= j < after.piles[k].len() ==> !pile_is_full(
                #[trigger] after.piles[k].take(j),
            )
    }

    /// Whether `after` is this session with `n` spawned items more: it is
    /// stocked with them, and they are new items with the identities that
    /// were given out for them.
    pub open spec fn grown(self, after: SimulationView, n: int) -> bool {
        &&& self.stocked(after, n)
        &&& after.created == self.created + n
        &&& forall|k: int, j: int|
            0 <= k < 4 && self.piles[k].len() <= j < after.piles[k].len() ==> is_spawned(
                #[trigger] after.piles[k][j],
                self.created as int,
                after.created as int,
            )
    }
}

/// A new item gets an identity that no other item has.
pub proof fn lemma_spawn_on_owned(
    session: SimulationView,
    item_type: ItemType,
    stack: ItemType,
    variant_raw: u32,
)
    requires
        session.piles.len() == 4,
        session.owned(),
        session.created < ITEM_LIMIT,
    ensures
        session.spawn_on(item_type, stack, variant_raw).owned(),
{
    let after = session.spawn_on(item_type, stack, variant_raw);
    let item = session.next_item(item_type, variant_raw);
    assert forall|other: ItemId| #[trigger]
            after.occurs(other) <= session.occurs(other) + fresh(session, after, other) by {
        lemma_on_pile_occurs(session, stack.spec_position(), item, other);
        assert(session.occurs(other) <= 1);
        assert(after.occurs(other) == session.occurs(other) + if item.id == other {
            1nat
        } else {
            0nat
        });
    }
    lemma_owned_kept(session, after);
}

/// The spawner found every stack full.
#[derive(Clone, Copy, PartialEq, Eq, Debug, Structural)]
pub struct NoFreeStack;

/// One more random spawn into stacks that are not all full puts one item
/// on a stack that is not full.
pub proof fn lemma_stocked_step(
    before: SimulationView,
    middle: SimulationView,
    n: int,
    category_raw: u32,
    variant_raw: u32,
    stack_raw: u32,
)
    requires
        before.piles.len() == 4,
        before.stocked(middle, n),
        !all_full(middle.piles),
    ensures
        before.stocked(middle.spawn_drawn(category_raw, variant_raw, stack_raw), n + 1),
{
    crate::stack::lemma_free_piles(middle.piles);
    let after = middle.spawn_drawn(category_raw, variant_raw, stack_raw);
    let k = spec_pick_free(middle.piles, stack_raw)->0 as int;
    crate::entropy::lemma_bucket_bounds(
        stack_raw,
        crate::stack::free_piles(middle.piles).len() as u32,
    );
    assert(0 <= k < 4);
    assert(ItemType::spec_at(k).spec_position() == k);
    assert forall|i: int| 0 <= i < 4 implies {
        &&& before.piles[i].len() <= (#[trigger] after.piles[i]).len()
        &&& after.piles[i].take(before.piles[i].len() as int) == before.piles[i]
    } by {
        assert(middle.piles[i].take(before.piles[i].len() as int) == before.piles[i]);
        if i == k {
            assert(after.piles[i].take(before.piles[i].len() as int) =~= middle.piles[i].take(
                before.piles[i].len() as int,
            ));
        }
    }
    assert forall|i: int, j: int|
        0 <= i < 4 && before.piles[i].len() <= j < after.piles[i].len() implies !pile_is_full(
        #[trigger] after.piles[i].take(j),
    ) by {
        if j < middle.piles[i].len() {
            assert(after.piles[i].take(j) =~= middle.piles[i].take(j));
        } else {
            assert(after.piles[i].take(j) =~= middle.piles[i]);
        }
    }
}

/// One more random spawn into stacks that are not all full adds one item.
pub proof fn lemma_grown_step(
    before: SimulationView,
    middle: SimulationView,
    n: int,
    category_raw: u32,
    variant_raw: u32,
    stack_raw: u32,
)
    requires
        before.piles.len() == 4,
        before.grown(middle, n),
        n >= 0,
        middle.created < ITEM_LIMIT,
        !all_full(middle.piles),
    ensures
        before.grown(middle.spawn_drawn(category_raw, variant_raw, stack_raw), n + 1),
{
    lemma_stocked_step(before, middle, n, category_raw, variant_raw, stack_raw);
    crate::stack::lemma_free_piles(middle.piles);
    crate::entropy::lemma_bucket_bounds(variant_raw, CATALOG_VARIANTS as u32);
    let after = middle.spawn_drawn(category_raw, variant_raw, stack_raw);
    let k = spec_pick_free(middle.piles, stack_raw)->0 as int;
    crate::entropy::lemma_bucket_bounds(
        stack_raw,
        crate::stack::free_piles(middle.piles).len() as u32,
    );
    assert(ItemType::spec_at(k).spec_position() == k);
    assert forall|i: int, j: int|
        0 <= i < 4 && before.piles[i].len() <= j < after.piles[i].len() implies is_spawned(
        #[trigger] after.piles[i][j],
        before.created as int,
        after.created as int,
    ) by {
        if j < middle.piles[i].len() {
            assert(is_spawned(middle.piles[i][j], before.created as int, middle.created as int));
        }
    }
}

/// Stacks that are all full get nothing: a session that was stocked from one
/// with every stack full has the same stacks.
pub proof fn lemma_full_gets_nothing(before: SimulationView, after: SimulationView, n: int)
    requires
        before.piles.len() == 4,
        before.stocked(after, n),
        all_full(before.piles),
    ensures
        after.piles == before.piles,
        n == 0,
{
    assert forall|k: int| 0 <= k < 4 implies #[trigger] after.piles[k] == before.piles[k] by {
        let len = before.piles[k].len() as int;
        if after.piles[k].len() > len {
            assert(!pile_is_full(after.piles[k].take(len)));
            assert(pile_is_full(before.piles[k]));
        }
        assert(after.piles[k] =~= after.piles[k].take(len));
    }
    assert(after.piles =~= before.piles);
}

impl Simulation {
    /// Makes an item of `item_type` with the skin that the raw draw picks
    /// and puts it on the stack of `stack`, whatever that stack's height.
    pub fn spawn_on_drawn(&mut self, item_type: ItemType, stack: ItemType, variant_raw: u32) -> (id:
        ItemId)
        requires
            old(self).wf(),
            old(self)@.created < ITEM_LIMIT,
        ensures
            final(self).wf(),
            final(self)@ == old(self)@.spawn_on(item_type, stack, variant_raw),
            id == ItemId(old(self)@.created),
    {
        proof {
            lemma_spawn_on_owned(self@, item_type, stack, variant_raw);
        }
        let id = ItemId(self.created);
        let item = Item {
            id,
            item_type,
            index: ItemHandleIndex(bucket(variant_raw, CATALOG_VARIANTS as u32) as usize),
            dragging: false,
        };
        let k = stack.position();
        place_on(&mut self.stacks, k, item);
        self.created = self.created + 1;
        id
    }

    /// Makes an item of `item_type` with a skin drawn from the generator and
    /// puts it on the stack of `stack`, whatever that stack's height.
    pub fn spawn_on(&mut self, item_type: ItemType, stack: ItemType, rng: &mut ChaCha8Rng) -> (id:
        ItemId)
        requires
            old(self).wf(),
            old(self)@.created < ITEM_LIMIT,
        ensures
            final(self).wf(),
            exists|variant_raw: u32|
                final(self)@ == old(self)@.spawn_on(item_type, stack, variant_raw),
            id == ItemId(old(self)@.created),
    {
        let variant_raw = next_draw(rng);
        let id = self.spawn_on_drawn(item_type, stack, variant_raw);
        assert(self@ == old(self)@.spawn_on(item_type, stack, variant_raw));
        id
    }

    /// One random spawn with the given raw draws. Fails, and changes nothing,
    /// exactly where every stack is full.
    pub fn spawn_drawn(&mut self, category_raw: u32, variant_raw: u32, stack_raw: u32) -> (spawned:
        Result<ItemId, NoFreeStack>)
        requires
            old(self).wf(),
            !all_full(old(self)@.piles) ==> old(self)@.created < ITEM_LIMIT,
        ensures
            final(self).wf(),
            final(self)@ == old(self)@.spawn_drawn(category_raw, variant_raw, stack_raw),
            spawned is Err <==> all_full(old(self)@.piles),
            spawned matches Ok(id) ==> id == ItemId(old(self)@.created),
    {
        match pick_free_stack(&self.stacks, stack_raw) {
            Some(k) => {
                let item_type = ItemType::from_draw(bucket(category_raw, 4));
                Ok(self.spawn_on_drawn(item_type, ItemType::at(k), variant_raw))
            },
            None => Err(NoFreeStack),
        }
    }

    /// Spawns one random item: draws its category, its skin and one of the
    /// stacks that are not full from the generator. Fails exactly where
    /// every stack is full; then only the category was drawn, no item is
    /// made and nothing changes.
    pub fn spawn_one_random_item(&mut self, rng: &mut ChaCha8Rng) -> (spawned: Result<
        ItemId,
        NoFreeStack,
    >)
        requires
            old(self).wf(),
            !all_full(old(self)@.piles) ==> old(self)@.created < ITEM_LIMIT,
        ensures
            final(self).wf(),
            spawned is Err <==> all_full(old(self)@.piles),
            spawned is Err ==> final(self)@ == old(self)@,
            spawned matches Ok(id) ==> id == ItemId(old(self)@.created),
            exists|category_raw: u32, variant_raw: u32, stack_raw: u32|
                final(self)@ == old(self)@.spawn_drawn(category_raw, variant_raw, stack_raw),
    {
        let category_raw = next_draw(rng);
        if crate::stack::collect_free(&self.stacks).len() == 0 {
            proof {
                crate::stack::lemma_free_piles(self@.piles);
                assert(self@ == old(self)@.spawn_drawn(category_raw, 0u32, 0u32));
            }
            return Err(NoFreeStack);
        }
        proof {
            crate::stack::lemma_free_piles(self@.piles);
        }
        let variant_raw = next_draw(rng);
        let stack_raw = next_draw(rng);
        let spawned = self.spawn_drawn(category_raw, variant_raw, stack_raw);
        assert(self@ == old(self)@.spawn_drawn(category_raw, variant_raw, stack_raw));
        spawned
    }

    /// Settles a purchase that brought `spawned` items.
    pub fn settle_purchase(&mut self, spawned: u32)
        requires
            old(self).wf(),
        ensures
            final(self).wf(),
            final(self)@ == old(self)@.settled(spawned),
    {
        if spawned >= 1 {
            self.stress.apply_delta(RELIEF);
            self.today.clicked_today = true;
        }
    }
}

} // verus!
