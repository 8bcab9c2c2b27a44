use crate::entropy::{bucket, next_draw, spec_bucket};
use crate::item::{Item, ItemId, ItemType, ITEM_LIMIT};
use bevy_rand::prelude::ChaCha8Rng;
use vstd::prelude::*;

verus! {

/// A stack is full once its fill height is above this.
pub const MAX_HEIGHT: u64 = 240;

/// Sum of the heights of the given items.
pub open spec fn sum_heights(items: Seq<Item>) -> nat
    decreases items.len(),
{
    if items.len() == 0 {
        0
    } else {
        sum_heights(items.drop_last()) + items.last().item_type.spec_height()
    }
}

/// Number of the given items whose category is not `item_type`.
pub open spec fn count_mismatches(items: Seq<Item>, item_type: ItemType) -> nat
    decreases items.len(),
{
    if items.len() == 0 {
        0
    } else {
        count_mismatches(items.drop_last(), item_type) + if items.last().item_type
            != item_type {
            1nat
        } else {
            0nat
        }
    }
}

/// Whether `k` is the first place in `items` that holds the item `id`.
pub open spec fn is_first_place(items: Seq<Item>, id: ItemId, k: int) -> bool {
    &&& 0 <= k < items.len()
    &&& items[k].id == id
    &&& forall|j: int| 0 <= j < k ==> (#[trigger] items[j]).id != id
}

/// Whether some item of `items` is the item `id`.
pub open spec fn holds(items: Seq<Item>, id: ItemId) -> bool {
    exists|k: int| 0 <= k < items.len() && (#[trigger] items[k]).id == id
}

/// An item that is put on top adds its height to the fill height.
pub proof fn lemma_sum_heights_push(items: Seq<Item>, item: Item)
    ensures
        sum_heights(items.push(item)) == sum_heights(items) + item.item_type.spec_height(),
{
    assert(items.push(item).drop_last() =~= items);
}

/// An item that is taken out takes its height off the fill height.
pub proof fn lemma_sum_heights_remove(items: Seq<Item>, k: int)
    requires
        0 <= k < items.len(),
    ensures
        sum_heights(items.remove(k)) + items[k].item_type.spec_height() == sum_heights(items),
    decreases items.len(),
{
    if k == items.len() - 1 {
        assert(items.remove(k) =~= items.drop_last());
    } else {
        lemma_sum_heights_remove(items.drop_last(), k);
        assert(items.remove(k).drop_last() =~= items.drop_last().remove(k));
    }
}

/// Every item is between 8 and 17 high.
pub proof fn lemma_sum_heights_bounds(items: Seq<Item>)
    ensures
        8 * items.len() <= sum_heights(items) <= 17 * items.len(),
    decreases items.len(),
{
    if items.len() > 0 {
        lemma_sum_heights_bounds(items.drop_last());
    }
}

/// No more items are misplaced than there are.
pub proof fn lemma_count_mismatches_bound(items: Seq<Item>, item_type: ItemType)
    ensures
        count_mismatches(items, item_type) <= items.len(),
    decreases items.len(),
{
    if items.len() > 0 {
        lemma_count_mismatches_bound(items.drop_last(), item_type);
    }
}

/// The pile of one category: its items from the bottom up, and their fill
/// height.
pub struct Stack {
    item_type: ItemType,
    items: Vec<Item>,
    current_height: u64,
}

/// What misplaced items add to the daily penalty, in half points: one for
/// each item that lies on a stack of another category.
#[derive(Clone, Copy, PartialEq, Eq, Debug, Structural)]
pub struct StackPenalty(pub u64);

impl Stack {
    pub closed spec fn spec_item_type(&self) -> ItemType {
        self.item_type
    }

    pub closed spec fn spec_items(&self) -> Seq<Item> {
        self.items@
    }

    pub closed spec fn spec_current_height(&self) -> u64 {
        self.current_height
    }

    /// The fill height is the sum of the members' heights, and the members
    /// are no more than a session can create.
    pub open spec fn wf(&self) -> bool {
        &&& self.spec_current_height() == sum_heights(self.spec_items())
        &&& self.spec_items().len() <= ITEM_LIMIT
    }

    pub open spec fn spec_is_full(&self) -> bool {
        self.spec_current_height() > MAX_HEIGHT
    }

    pub fn new(item_type: ItemType) -> (stack: Self)
        ensures
            stack.wf(),
            stack.spec_item_type() == item_type,
            stack.spec_items() == Seq::<Item>::empty(),
            stack.spec_current_height() == 0,
    {
        Stack { item_type, items: Vec::new(), current_height: 0 }
    }

    /// The four empty stacks of a session, in the order of the categories.
    pub fn spawn_stacks() -> (stacks: Vec<Stack>)
        ensures
            stacks@.len() == 4,
            forall|k: int|
                0 <= k < 4 ==> {
                    &&& (#[trigger] stacks@[k]).wf()
                    &&& stacks@[k].spec_item_type() == ItemType::spec_at(k)
                    &&& stacks@[k].spec_items() == Seq::<Item>::empty()
                    &&& stacks@[k].spec_current_height() == 0
                },
    {
        let mut stacks: Vec<Stack> = Vec::new();
        stacks.push(Stack::new(ItemType::Book));
        stacks.push(Stack::new(ItemType::Movie));
        stacks.push(Stack::new(ItemType::Game));
        stacks.push(Stack::new(ItemType::Comic));
        stacks
    }

    pub fn item_type(&self) -> (item_type: ItemType)
        ensures
            item_type == self.spec_item_type(),
    {
        self.item_type
    }

    pub fn items(&self) -> (items: &Vec<Item>)
        ensures
            items@ == self.spec_items(),
    {
        &self.items
    }

    pub fn current_height(&self) -> (height: u64)
        ensures
            height == self.spec_current_height(),
    {
        self.current_height
    }

    pub fn is_full(&self) -> (full: bool)
        ensures
            full == self.spec_is_full(),
            self.wf() ==> full == pile_is_full(self.spec_items()),
    {
        self.current_height > MAX_HEIGHT
    }

    /// Puts an item on top.
    pub fn add_item(&mut self, item: Item)
        requires
            old(self).wf(),
            old(self).spec_items().len() < ITEM_LIMIT,
        ensures
            final(self).wf(),
            final(self).spec_item_type() == old(self).spec_item_type(),
            final(self).spec_items() == old(self).spec_items().push(item),
            final(self).spec_current_height() == old(self).spec_current_height()
                + item.item_type.spec_height(),
    {
        proof {
            lemma_sum_heights_push(self.items@, item);
            lemma_sum_heights_bounds(self.items@);
        }
        let (_, height) = item.item_type.stack_dimensions();
        self.items.push(item);
        self.current_height = self.current_height + height;
    }

    /// Takes out the item at place `k`, counted from the bottom.
    pub fn remove_item(&mut self, k: usize) -> (item: Item)
        requires
            old(self).wf(),
            k < old(self).spec_items().len(),
        ensures
            final(self).wf(),
            item == old(self).spec_items()[k as int],
            final(self).spec_item_type() == old(self).spec_item_type(),
            final(self).spec_items() == old(self).spec_items().remove(k as int),
            final(self).spec_current_height() + item.item_type.spec_height() == old(self).spec_current_height(),
    {
        proof {
            lemma_sum_heights_remove(self.items@, k as int);
        }
        let item = self.items.remove(k);
        let (_, height) = item.item_type.stack_dimensions();
        self.current_height = self.current_height - height;
        item
    }

    /// The first place, counted from the bottom, that holds the item `id`.
    pub fn position_of(&self, id: ItemId) -> (place: Option<usize>)
        ensures
            match place {
                Some(k) => is_first_place(self.spec_items(), id, k as int),
                None => !holds(self.spec_items(), id),
            },
    {
        find_item(&self.items, id)
    }

    /// Number of members whose category is not the stack's own.
    pub fn mismatches(&self) -> (count: u32)
        requires
            self.wf(),
        ensures
            count == count_mismatches(self.spec_items(), self.spec_item_type()),
    {
        let mut count: u32 = 0;
        let mut k: usize = 0;
        while k < self.items.len()
            invariant
                0 <= k <= self.items@.len(),
                self.items@.len() <= ITEM_LIMIT,
                count == count_mismatches(self.items@.take(k as int), self.item_type),
                count <= k,
            decreases self.items@.len() - k,
        {
            proof {
                assert(self.items@.take(k + 1).drop_last() =~= self.items@.take(k as int));
            }
            if self.items[k].item_type != self.item_type {
                count = count + 1;
            }
            k = k + 1;
        }
        proof {
            assert(self.items@.take(k as int) =~= self.items@);
        }
        count
    }
}

/// The first place in `items` that holds the item `id`.
pub fn find_item(items: &Vec<Item>, id: ItemId) -> (place: Option<usize>)
    ensures
        match place {
            Some(k) => is_first_place(items@, id, k as int),
            None => !holds(items@, id),
        },
{
    let mut k: usize = 0;
    while k < items.len()
        invariant
            0 <= k <= items@.len(),
            forall|j: int| 0 <= j < k ==> (#[trigger] items@[j]).id != id,
        decreases items@.len() - k,
    {
        if items[k].id == id {
            return Some(k);
        }
        k = k + 1;
    }
    None
}

/// Recomputes a stack's fill height from its members.
pub fn stack_items(stack: &mut Stack)
    requires
        old(stack).spec_items().len() <= ITEM_LIMIT,
    ensures
        final(stack).wf(),
        final(stack).spec_items() == old(stack).spec_items(),
        final(stack).spec_item_type() == old(stack).spec_item_type(),
{
    let mut current_height: u64 = 0;
    let mut k: usize = 0;
    while k < stack.items.len()
        invariant
            0 <= k <= stack.items@.len(),
            stack.items@.len() <= ITEM_LIMIT,
            stack.items@ == old(stack).items@,
            stack.item_type == old(stack).item_type,
            current_height == sum_heights(stack.items@.take(k as int)),
        decreases stack.items@.len() - k,
    {
        proof {
            assert(stack.items@.take(k + 1).drop_last() =~= stack.items@.take(k as int));
            lemma_sum_heights_bounds(stack.items@.take(k as int));
        }
        let (_, height) = stack.items[k].item_type.stack_dimensions();
        current_height = current_height + height;
        k = k + 1;
    }
    proof {
        assert(stack.items@.take(k as int) =~= stack.items@);
    }
    stack.current_height = current_height;
}

/// The members of each stack, stack by stack.
pub open spec fn piles_of(stacks: Seq<Stack>) -> Seq<Seq<Item>> {
    Seq::new(stacks.len(), |k: int| stacks[k].spec_items())
}

/// Whether every stack is well formed and stands for the category of its
/// place.
pub open spec fn stacks_wf(stacks: Seq<Stack>) -> bool {
    forall|k: int|
        0 <= k < stacks.len() ==> (#[trigger] stacks[k]).wf() && stacks[k].spec_item_type()
            == ItemType::spec_at(k)
}

/// Whether a pile of these items is full.
pub open spec fn pile_is_full(items: Seq<Item>) -> bool {
    sum_heights(items) > MAX_HEIGHT
}

/// Misplaced items over all piles, where the pile at place `k` is meant for
/// the category `ItemType::spec_at(k)`.
pub open spec fn total_mismatches(piles: Seq<Seq<Item>>) -> nat
    decreases piles.len(),
{
    if piles.len() == 0 {
        0
    } else {
        total_mismatches(piles.drop_last()) + count_mismatches(
            piles.last(),
            ItemType::spec_at(piles.len() - 1),
        )
    }
}

/// Recomputes the penalty for misplaced items: half a point for each item
/// that lies on a stack of another category.
pub fn check_stack(stacks: &Vec<Stack>) -> (penalty: StackPenalty)
    requires
        stacks@.len() <= ITEM_LIMIT,
        stacks_wf(stacks@),
    ensures
        penalty.0 == total_mismatches(piles_of(stacks@)),
        penalty.0 <= stacks@.len() * ITEM_LIMIT,
{
    let mut penalty: u64 = 0;
    let mut k: usize = 0;
    while k < stacks.len()
        invariant
            0 <= k <= stacks@.len(),
            stacks@.len() <= ITEM_LIMIT,
            stacks_wf(stacks@),
            penalty == total_mismatches(piles_of(stacks@).take(k as int)),
            penalty <= k * ITEM_LIMIT,
        decreases stacks@.len() - k,
    {
        proof {
            let piles = piles_of(stacks@);
            assert(piles.take(k + 1).drop_last() =~= piles.take(k as int));
            assert(piles.take(k + 1).last() == stacks@[k as int].spec_items());
            assert(stacks@[k as int].wf());
            lemma_count_mismatches_bound(
                stacks@[k as int].spec_items(),
                stacks@[k as int].spec_item_type(),
            );
            assert(k * ITEM_LIMIT + ITEM_LIMIT == (k + 1) * ITEM_LIMIT) by (nonlinear_arith);
            assert((k + 1) * ITEM_LIMIT <= 0xffff_ffff * 0xffff_ffff) by (nonlinear_arith)
                requires
                    0 <= k + 1 <= 0xffff_ffff,
                    ITEM_LIMIT == 0xffff_ffff,
            ;
        }
        let count = stacks[k].mismatches();
        penalty = penalty + count as u64;
        k = k + 1;
    }
    proof {
        assert(piles_of(stacks@).take(k as int) =~= piles_of(stacks@));
    }
    StackPenalty(penalty)
}

/// The places of the piles that are not full, in their order.
pub open spec fn free_piles(piles: Seq<Seq<Item>>) -> Seq<usize>
    decreases piles.len(),
{
    if piles.len() == 0 {
        Seq::<usize>::empty()
    } else if pile_is_full(piles.last()) {
        free_piles(piles.drop_last())
    } else {
        free_piles(piles.drop_last()).push((piles.len() - 1) as usize)
    }
}

/// Whether every pile is full.
pub open spec fn all_full(piles: Seq<Seq<Item>>) -> bool {
    forall|k: int| 0 <= k < piles.len() ==> pile_is_full(#[trigger] piles[k])
}

/// The pile that a raw draw picks among those that are not full, each of
/// them for an equal share of the draws; none where all are full.
pub open spec fn spec_pick_free(piles: Seq<Seq<Item>>, raw: u32) -> Option<usize> {
    let free = free_piles(piles);
    if free.len() == 0 {
        None
    } else {
        Some(free[spec_bucket(raw, free.len() as u32)])
    }
}

/// Where an item that is meant for the pile at `preferred` goes: there,
/// unless that pile is full; then to the pile that the raw draw picks among
/// those that are not.
pub open spec fn spec_destination(piles: Seq<Seq<Item>>, preferred: usize, raw: u32) -> Option<
    usize,
> {
    if !pile_is_full(piles[preferred as int]) {
        Some(preferred)
    } else {
        spec_pick_free(piles, raw)
    }
}

/// The piles that are listed as not full are piles, and are not full; none
/// is listed exactly where every pile is full.
pub proof fn lemma_free_piles(piles: Seq<Seq<Item>>)
    requires
        piles.len() <= usize::MAX,
    ensures
        free_piles(piles).len() <= piles.len(),
        forall|i: int|
            0 <= i < free_piles(piles).len() ==> {
                &&& 0 <= (#[trigger] free_piles(piles)[i]) < piles.len()
                &&& !pile_is_full(piles[free_piles(piles)[i] as int])
            },
        free_piles(piles).len() == 0 <==> all_full(piles),
    decreases piles.len(),
{
    if piles.len() > 0 {
        lemma_free_piles(piles.drop_last());
        let rest = free_piles(piles.drop_last());
        if free_piles(piles).len() == 0 {
            assert forall|k: int| 0 <= k < piles.len() implies pile_is_full(
                #[trigger] piles[k],
            ) by {
                if k < piles.len() - 1 {
                    assert(piles.drop_last()[k] == piles[k]);
                }
            }
        }
        if all_full(piles) {
            assert(pile_is_full(piles.last()));
            assert forall|k: int| 0 <= k < piles.drop_last().len() implies pile_is_full(
                #[trigger] piles.drop_last()[k],
            ) by {
                assert(piles.drop_last()[k] == piles[k]);
            }
        }
        assert forall|i: int| 0 <= i < free_piles(piles).len() implies {
            &&& 0 <= (#[trigger] free_piles(piles)[i]) < piles.len()
            &&& !pile_is_full(piles[free_piles(piles)[i] as int])
        } by {
            if i < rest.len() {
                assert(free_piles(piles)[i] == rest[i]);
                assert(piles.drop_last()[rest[i] as int] == piles[rest[i] as int]);
            }
        }
    }
}

/// The places of the stacks that are not full, in their order.
pub fn collect_free(stacks: &Vec<Stack>) -> (free: Vec<usize>)
    requires
        stacks_wf(stacks@),
    ensures
        free@ == free_piles(piles_of(stacks@)),
{
    let mut free: Vec<usize> = Vec::new();
    let mut k: usize = 0;
    while k < stacks.len()
        invariant
            0 <= k <= stacks@.len(),
            stacks_wf(stacks@),
            free@ == free_piles(piles_of(stacks@).take(k as int)),
        decreases stacks@.len() - k,
    {
        proof {
            let piles = piles_of(stacks@);
            assert(piles.take(k + 1).drop_last() =~= piles.take(k as int));
            assert(piles.take(k + 1).last() == stacks@[k as int].spec_items());
            assert(stacks@[k as int].wf());
        }
        if !stacks[k].is_full() {
            free.push(k);
        }
        k = k + 1;
    }
    proof {
        assert(piles_of(stacks@).take(k as int) =~= piles_of(stacks@));
    }
    free
}

/// The stack that a raw draw picks among those that are not full.
pub fn pick_free_stack(stacks: &Vec<Stack>, raw: u32) -> (pick: Option<usize>)
    requires
        stacks@.len() <= ITEM_LIMIT,
        stacks_wf(stacks@),
    ensures
        pick == spec_pick_free(piles_of(stacks@), raw),
        pick matches Some(k) ==> k < stacks@.len() && !pile_is_full(piles_of(stacks@)[k as int]),
        pick is None <==> all_full(piles_of(stacks@)),
{
    proof {
        lemma_free_piles(piles_of(stacks@));
    }
    let free = collect_free(stacks);
    if free.len() == 0 {
        return None;
    }
    let i = bucket(raw, free.len() as u32);
    Some(free[i as usize])
}

/// Picks a stack that is not full by one draw from the generator; where all
/// are full, nothing is drawn.
pub fn get_random_stack(stacks: &Vec<Stack>, rng: &mut ChaCha8Rng) -> (pick: Option<usize>)
    requires
        stacks@.len() <= ITEM_LIMIT,
        stacks_wf(stacks@),
    ensures
        pick matches Some(k) ==> k < stacks@.len() && !pile_is_full(piles_of(stacks@)[k as int]),
        pick is Some ==> exists|raw: u32| pick == spec_pick_free(piles_of(stacks@), raw),
        pick is None <==> all_full(piles_of(stacks@)),
{
    proof {
        lemma_free_piles(piles_of(stacks@));
    }
    if collect_free(stacks).len() == 0 {
        return None;
    }
    let raw = next_draw(rng);
    let pick = pick_free_stack(stacks, raw);
    assert(pick == spec_pick_free(piles_of(stacks@), raw));
    pick
}

/// Puts `item` on top of the stack at place `k`.
pub fn place_on(stacks: &mut Vec<Stack>, k: usize, item: Item)
    requires
        k < old(stacks)@.len(),
        stacks_wf(old(stacks)@),
        old(stacks)@[k as int].spec_items().len() < ITEM_LIMIT,
    ensures
        stacks_wf(final(stacks)@),
        final(stacks)@.len() == old(stacks)@.len(),
        piles_of(final(stacks)@) == piles_of(old(stacks)@).update(
            k as int,
            piles_of(old(stacks)@)[k as int].push(item),
        ),
{
    let stack = &mut stacks[k];
    stack.add_item(item);
    assert(stacks_wf(stacks@)) by {
        assert forall|j: int| 0 <= j < stacks@.len() implies (#[trigger] stacks@[j]).wf()
            && stacks@[j].spec_item_type() == ItemType::spec_at(j) by {
            if j != k {
                assert(stacks@[j] == old(stacks)@[j]);
            }
        }
    }
    assert(piles_of(stacks@) =~= piles_of(old(stacks)@).update(
        k as int,
        piles_of(old(stacks)@)[k as int].push(item),
    ));
}

/// Takes the item at place `p` out of the stack at place `k`.
pub fn take_from(stacks: &mut Vec<Stack>, k: usize, p: usize) -> (item: Item)
    requires
        k < old(stacks)@.len(),
        stacks_wf(old(stacks)@),
        p < old(stacks)@[k as int].spec_items().len(),
    ensures
        stacks_wf(final(stacks)@),
        final(stacks)@.len() == old(stacks)@.len(),
        item == piles_of(old(stacks)@)[k as int][p as int],
        piles_of(final(stacks)@) == piles_of(old(stacks)@).update(
            k as int,
            piles_of(old(stacks)@)[k as int].remove(p as int),
        ),
{
    let stack = &mut stacks[k];
    let item = stack.remove_item(p);
    assert(stacks_wf(stacks@)) by {
        assert forall|j: int| 0 <= j < stacks@.len() implies (#[trigger] stacks@[j]).wf()
            && stacks@[j].spec_item_type() == ItemType::spec_at(j) by {
            if j != k {
                assert(stacks@[j] == old(stacks)@[j]);
            }
        }
    }
    assert(piles_of(stacks@) =~= piles_of(old(stacks)@).update(
        k as int,
        piles_of(old(stacks)@)[k as int].remove(p as int),
    ));
    item
}

/// Puts `item` on the stack at `preferred`, or, where that stack is full, on
/// one that a draw from the generator picks among those that are not. Says
/// where the item went; where every stack is full, hands the item back and
/// changes nothing.
pub fn add_to_stack_or_overflow(
    stacks: &mut Vec<Stack>,
    preferred: usize,
    item: Item,
    rng: &mut ChaCha8Rng,
) -> (outcome: Result<usize, Item>)
    requires
        preferred < old(stacks)@.len() <= ITEM_LIMIT,
        stacks_wf(old(stacks)@),
        forall|k: int|
            0 <= k < old(stacks)@.len() ==> (#[trigger] old(stacks)@[k]).spec_items().len()
                < ITEM_LIMIT,
    ensures
        stacks_wf(final(stacks)@),
        final(stacks)@.len() == old(stacks)@.len(),
        match outcome {
            Ok(k) => {
                &&& k < old(stacks)@.len()
                &&& !pile_is_full(piles_of(old(stacks)@)[k as int])
                &&& exists|raw: u32|
                    Some(k) == spec_destination(piles_of(old(stacks)@), preferred, raw)
                &&& piles_of(final(stacks)@) == piles_of(old(stacks)@).update(
                    k as int,
                    piles_of(old(stacks)@)[k as int].push(item),
                )
            },
            Err(back) => {
                &&& back == item
                &&& final(stacks)@ == old(stacks)@
                &&& all_full(piles_of(old(stacks)@))
            },
        },
{
    assert(stacks@[preferred as int].wf());
    let target = if !stacks[preferred].is_full() {
        assert(Some(preferred) == spec_destination(piles_of(stacks@), preferred, 0u32));
        preferred
    } else {
        match get_random_stack(stacks, rng) {
            Some(k) => {
                proof {
                    let raw = choose|raw: u32| Some(k) == spec_pick_free(piles_of(stacks@), raw);
                    assert(Some(k) == spec_destination(piles_of(stacks@), preferred, raw));
                }
                k
            },
            None => {
                return Err(item);
            },
        }
    };
    place_on(stacks, target, item);
    Ok(target)
}

} // verus!
