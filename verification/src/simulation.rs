use crate::consume_counter::{ConsumeCount, Tally};
use crate::dialog::ShownDialog;
use crate::game_state::GameState;
use crate::item::{Item, ItemId, ItemType, ITEM_LIMIT};
use crate::ownership::{lemma_count_push, lemma_count_remove, occurrences, owned_once};
use crate::queue::{ActiveItem, Queue};
use crate::spawning::{TodayTimer, FIRST_DAY};
use crate::stack::{
    find_item, holds, is_first_place, piles_of, stacks_wf, sum_heights, take_from, Stack,
    StackPenalty,
};
use crate::stress::{StressMeter, FAIL_THRESHOLD, STARTING_STRESS};
use vstd::prelude::*;

pub mod clock;
pub mod moves;
pub mod purchase;
pub mod restack;
pub mod seed;
pub mod spawner;

pub use self::clock::TickReport;
pub use self::restack::AddOutcome;
pub use self::purchase::Purchase;
pub use self::spawner::NoFreeStack;

verus! {

/// Where an item is.
#[derive(Clone, Copy, PartialEq, Eq, Debug, Structural)]
pub enum Location {
    /// On the stack of the given category.
    InStack(ItemType),
    /// Outside every container, held by the pointer.
    Dragging,
    /// Outside every container and let go.
    Loose,
    InQueue,
    Active,
}

/// The container from which an item can be moved by hand: the stack at a
/// place, or none.
#[derive(Clone, Copy, PartialEq, Eq, Debug, Structural)]
pub enum Source {
    Pile(usize),
    Free,
}

/// One session of the game: the four stacks, the items outside every
/// container, the queue, the active slot, and the meters and clocks around
/// them. Each item is owned by exactly one of the containers.
pub struct Simulation {
    stacks: Vec<Stack>,
    free: Vec<Item>,
    queue: Queue,
    active: Option<ActiveItem>,
    stress: StressMeter,
    consumed: ConsumeCount,
    penalty: StackPenalty,
    today: TodayTimer,
    dialog: ShownDialog,
    state: GameState,
    created: u32,
}

/// A session as plain values.
#[verifier::ext_equal]
pub struct SimulationView {
    /// The members of the four stacks, in the order of the categories, each
    /// from the bottom up.
    pub piles: Seq<Seq<Item>>,
    /// The items outside every container.
    pub free: Seq<Item>,
    /// The queue, front first.
    pub queue: Seq<Item>,
    pub active: Option<ActiveItem>,
    pub stress: StressMeter,
    pub consumed: Tally,
    pub penalty: StackPenalty,
    pub today: TodayTimer,
    /// The flavour text on show, if any.
    pub dialog: Option<Seq<char>>,
    pub state: GameState,
    /// Number of items created so far; the next item's identity.
    pub created: u32,
}

/// The first place in `items` that holds the item `id`.
pub open spec fn spec_place(items: Seq<Item>, id: ItemId) -> int {
    choose|k: int| is_first_place(items, id, k)
}

/// Only one place is the first that holds the item `id`.
pub proof fn lemma_place(items: Seq<Item>, id: ItemId, k: int)
    requires
        is_first_place(items, id, k),
    ensures
        spec_place(items, id) == k,
        holds(items, id),
{
    let c = spec_place(items, id);
    assert(is_first_place(items, id, c));
    if c < k {
        assert(items[c].id != id);
    } else if k < c {
        assert(items[k].id != id);
    }
}

/// Where `items` holds the item `id`, there is a first place that does.
pub proof fn lemma_first_place_exists(items: Seq<Item>, id: ItemId)
    requires
        holds(items, id),
    ensures
        is_first_place(items, id, spec_place(items, id)),
    decreases items.len(),
{
    let k = choose|k: int| 0 <= k < items.len() && (#[trigger] items[k]).id == id;
    let front = items.take(k);
    if holds(front, id) {
        lemma_first_place_exists(front, id);
        let p = spec_place(front, id);
        assert(items[p] == front[p]);
        assert forall|j: int| 0 <= j < p implies (#[trigger] items[j]).id != id by {
            assert(front[j] == items[j]);
        }
        assert(is_first_place(items, id, p));
    } else {
        assert forall|j: int| 0 <= j < k implies (#[trigger] items[j]).id != id by {
            assert(front[j] == items[j]);
        }
        assert(is_first_place(items, id, k));
    }
}

/// The item as it is when it lies in a container: not held by the pointer.
pub open spec fn spec_settled(item: Item) -> Item {
    Item { dragging: false, ..item }
}

impl SimulationView {
    /// Number of items that exist: on the stacks, outside every container,
    /// in the queue and in the active slot.
    pub open spec fn alive(self) -> int {
        self.piles[0].len() + self.piles[1].len() + self.piles[2].len() + self.piles[3].len()
            + self.free.len() + self.queue.len() + if self.active is Some {
            1int
        } else {
            0int
        }
    }

    /// Whether every item is owned by one container.
    pub open spec fn owned(self) -> bool {
        owned_once(self.piles, self.free, self.queue, self.active, self.created)
    }

    /// How often the item `id` occurs in the session.
    pub open spec fn occurs(self, id: ItemId) -> nat {
        occurrences(self.piles, self.free, self.queue, self.active, id)
    }

    /// What always holds of a session: there are four stacks; the queue
    /// holds at most two items; the active countdown is running; the counts
    /// are consistent; every item that was created is either alive or was
    /// consumed; every item is owned by one container; and stress is above
    /// the threshold only in a failed session.
    pub open spec fn wf(self) -> bool {
        &&& self.piles.len() == 4
        &&& self.queue.len() <= Queue::MAX_ITEMS
        &&& self.active matches Some(a) ==> a.timer.wf() && !a.timer.finished
        &&& self.consumed.wf()
        &&& self.today.wf()
        &&& self.alive() + self.consumed.total == self.created
        &&& self.owned()
        &&& self.state != GameState::Failed ==> self.stress.value <= FAIL_THRESHOLD
        &&& self.stress.value <= FAIL_THRESHOLD + 4 * ITEM_LIMIT + 10
    }

    /// The stack or the free items, whichever holds the item `id`; the stacks
    /// are searched first, in their order.
    pub open spec fn source(self, id: ItemId) -> Option<Source> {
        if holds(self.piles[0], id) {
            Some(Source::Pile(0))
        } else if holds(self.piles[1], id) {
            Some(Source::Pile(1))
        } else if holds(self.piles[2], id) {
            Some(Source::Pile(2))
        } else if holds(self.piles[3], id) {
            Some(Source::Pile(3))
        } else if holds(self.free, id) {
            Some(Source::Free)
        } else {
            None
        }
    }

    /// Where the item `id` is; `None` for one that does not exist.
    pub open spec fn location(self, id: ItemId) -> Option<Location> {
        match self.source(id) {
            Some(Source::Pile(k)) => Some(Location::InStack(ItemType::spec_at(k as int))),
            Some(Source::Free) => if self.free[spec_place(self.free, id)].dragging {
                Some(Location::Dragging)
            } else {
                Some(Location::Loose)
            },
            None => if holds(self.queue, id) {
                Some(Location::InQueue)
            } else if self.active matches Some(a) && a.item.id == id {
                Some(Location::Active)
            } else {
                None
            },
        }
    }

    /// The item `id`, for one that is on a stack or outside every container.
    pub open spec fn item(self, id: ItemId) -> Item {
        match self.source(id) {
            Some(Source::Pile(k)) => self.piles[k as int][spec_place(self.piles[k as int], id)],
            _ => self.free[spec_place(self.free, id)],
        }
    }

    /// The session with the item `id` taken out of its stack or out of the
    /// free items.
    pub open spec fn without(self, id: ItemId) -> SimulationView {
        match self.source(id) {
            Some(Source::Pile(k)) => SimulationView {
                piles: self.piles.update(
                    k as int,
                    self.piles[k as int].remove(spec_place(self.piles[k as int], id)),
                ),
                ..self
            },
            Some(Source::Free) => SimulationView {
                free: self.free.remove(spec_place(self.free, id)),
                ..self
            },
            None => self,
        }
    }

    /// The session with `item` put on top of the stack at place `k`.
    pub open spec fn with_on_pile(self, k: int, item: Item) -> SimulationView {
        SimulationView { piles: self.piles.update(k, self.piles[k].push(item)), ..self }
    }
}

/// Taking the item `id` out of its stack or out of the free items takes one
/// occurrence of it away and leaves every other item as it was.
pub proof fn lemma_without_occurs(session: SimulationView, id: ItemId, other: ItemId)
    requires
        session.piles.len() == 4,
        session.source(id) is Some,
    ensures
        session.item(id).id == id,
        session.without(id).occurs(other) + if other == id {
            1nat
        } else {
            0nat
        } == session.occurs(other),
{
    match session.source(id) {
        Some(Source::Pile(k)) => {
            let pile = session.piles[k as int];
            lemma_first_place_exists(pile, id);
            lemma_count_remove(pile, spec_place(pile, id), other);
        },
        _ => {
            lemma_first_place_exists(session.free, id);
            lemma_count_remove(session.free, spec_place(session.free, id), other);
        },
    }
}

/// Putting an item on a stack adds one occurrence of it and leaves every
/// other item as it was.
pub proof fn lemma_on_pile_occurs(session: SimulationView, k: int, item: Item, other: ItemId)
    requires
        session.piles.len() == 4,
        0 <= k < 4,
    ensures
        session.with_on_pile(k, item).occurs(other) == session.occurs(other) + if item.id
            == other {
            1nat
        } else {
            0nat
        },
{
    lemma_count_push(session.piles[k], item, other);
}

/// One for an identity that was given out between `before` and `after`,
/// nought for any other.
pub open spec fn fresh(before: SimulationView, after: SimulationView, id: ItemId) -> nat {
    if before.created <= id.0 < after.created {
        1
    } else {
        0
    }
}

/// Every item stays owned by one container where no identity occurs more
/// often than before, but for those given out since, which may occur once.
pub proof fn lemma_owned_kept(before: SimulationView, after: SimulationView)
    requires
        before.owned(),
        before.created <= after.created,
        forall|other: ItemId| #[trigger]
            after.occurs(other) <= before.occurs(other) + fresh(before, after, other),
    ensures
        after.owned(),
{
    assert forall|other: ItemId|
        {
            &&& #[trigger] occurrences(after.piles, after.free, after.queue, after.active, other)
                <= 1
            &&& other.0 >= after.created ==> occurrences(
                after.piles,
                after.free,
                after.queue,
                after.active,
                other,
            ) == 0
        } by {
        assert(after.occurs(other) <= before.occurs(other) + fresh(before, after, other));
        assert(before.occurs(other) <= 1);
    }
}

impl View for Simulation {
    type V = SimulationView;

    closed spec fn view(&self) -> SimulationView {
        SimulationView {
            piles: piles_of(self.stacks@),
            free: self.free@,
            queue: self.queue.spec_items(),
            active: self.active,
            stress: self.stress,
            consumed: self.consumed@,
            penalty: self.penalty,
            today: self.today,
            dialog: self.dialog@,
            state: self.state,
            created: self.created,
        }
    }
}

impl Simulation {
    /// Whether the stacks are as the view says: four of them, each well
    /// formed and standing for the category of its place.
    pub closed spec fn rep(&self) -> bool {
        &&& self.stacks@.len() == 4
        &&& stacks_wf(self.stacks@)
    }

    /// What always holds of a session.
    pub open spec fn wf(&self) -> bool {
        self@.wf() && self.rep()
    }

    /// An empty session in play: four empty stacks, nothing queued or
    /// active, nothing consumed, stress at its starting level.
    pub fn new() -> (simulation: Self)
        ensures
            simulation.wf(),
            simulation@ == (SimulationView {
                piles: Seq::new(4, |k: int| Seq::<Item>::empty()),
                free: Seq::empty(),
                queue: Seq::empty(),
                active: None,
                stress: StressMeter { value: STARTING_STRESS },
                consumed: Tally::empty(),
                penalty: StackPenalty(0),
                today: TodayTimer { elapsed: 0, duration: FIRST_DAY, clicked_today: false },
                dialog: None,
                state: GameState::Playing,
                created: 0,
            }),
    {
        let simulation = Simulation {
            stacks: Stack::spawn_stacks(),
            free: Vec::new(),
            queue: Queue::new(),
            active: None,
            stress: StressMeter::new(),
            consumed: ConsumeCount::new(),
            penalty: StackPenalty(0),
            today: TodayTimer::new(),
            dialog: ShownDialog(None),
            state: GameState::Playing,
            created: 0,
        };
        assert(simulation@.piles =~= Seq::new(4, |k: int| Seq::<Item>::empty()));
        simulation
    }

    pub fn stacks(&self) -> (stacks: &Vec<Stack>)
        ensures
            piles_of(stacks@) == self@.piles,
            self.wf() ==> stacks@.len() == 4 && stacks_wf(stacks@),
    {
        &self.stacks
    }

    /// The stack of one category.
    pub fn stack(&self, item_type: ItemType) -> (stack: &Stack)
        requires
            self.wf(),
        ensures
            stack.wf(),
            stack.spec_item_type() == item_type,
            stack.spec_items() == self@.piles[item_type.spec_position()],
            stack.spec_current_height() == sum_heights(self@.piles[item_type.spec_position()]),
    {
        let k = item_type.position();
        assert(self.stacks@[k as int].wf());
        &self.stacks[k]
    }

    pub fn free(&self) -> (free: &Vec<Item>)
        ensures
            free@ == self@.free,
    {
        &self.free
    }

    pub fn queue(&self) -> (queue: &Queue)
        ensures
            queue.spec_items() == self@.queue,
    {
        &self.queue
    }

    pub fn active(&self) -> (active: Option<ActiveItem>)
        ensures
            active == self@.active,
    {
        self.active
    }

    /// The time that is left of the active consumption, and its whole
    /// duration; `None` while the slot is free.
    pub fn fraction_remaining(&self) -> (fraction: Option<(u64, u64)>)
        requires
            self.wf(),
        ensures
            match self@.active {
                Some(a) => fraction == Some(
                    ((a.timer.duration - a.timer.elapsed) as u64, a.timer.duration),
                ),
                None => fraction is None,
            },
    {
        match self.active {
            Some(a) => Some(a.timer.fraction_remaining()),
            None => None,
        }
    }

    pub fn stress(&self) -> (stress: StressMeter)
        ensures
            stress == self@.stress,
    {
        self.stress
    }

    pub fn consumed(&self) -> (consumed: &ConsumeCount)
        ensures
            consumed@ == self@.consumed,
    {
        &self.consumed
    }

    pub fn penalty(&self) -> (penalty: StackPenalty)
        ensures
            penalty == self@.penalty,
    {
        self.penalty
    }

    pub fn today(&self) -> (today: TodayTimer)
        ensures
            today == self@.today,
    {
        self.today
    }

    pub fn dialog(&self) -> (dialog: ShownDialog)
        ensures
            dialog@ == self@.dialog,
    {
        self.dialog
    }

    pub fn state(&self) -> (state: GameState)
        ensures
            state == self@.state,
    {
        self.state
    }

    pub fn created(&self) -> (created: u32)
        ensures
            created == self@.created,
    {
        self.created
    }

    /// Whether the session can still create `count` items: identities are
    /// 32 bits wide and never reused.
    pub fn can_create(&self, count: u32) -> (room: bool)
        ensures
            room == (self@.created + count <= ITEM_LIMIT),
    {
        count <= ITEM_LIMIT - self.created
    }

    /// The container that holds the item `id`, and the item's place in it.
    pub fn find(&self, id: ItemId) -> (found: Option<(Source, usize)>)
        requires
            self.wf(),
        ensures
            match found {
                Some((Source::Pile(k), place)) => {
                    &&& self@.source(id) == Some(Source::Pile(k))
                    &&& k < 4
                    &&& is_first_place(self@.piles[k as int], id, place as int)
                    &&& place == spec_place(self@.piles[k as int], id)
                },
                Some((Source::Free, place)) => {
                    &&& self@.source(id) == Some(Source::Free)
                    &&& is_first_place(self@.free, id, place as int)
                    &&& place == spec_place(self@.free, id)
                },
                None => self@.source(id) is None,
            },
    {
        let mut k: usize = 0;
        while k < 4
            invariant
                0 <= k <= 4,
                self.wf(),
                forall|j: int| 0 <= j < k ==> !holds(#[trigger] self@.piles[j], id),
            decreases 4 - k,
        {
            match self.stacks[k].position_of(id) {
                Some(place) => {
                    proof {
                        lemma_place(self@.piles[k as int], id, place as int);
                    }
                    return Some((Source::Pile(k), place));
                },
                None => {},
            }
            k = k + 1;
        }
        match find_item(&self.free, id) {
            Some(place) => {
                proof {
                    lemma_place(self.free@, id, place as int);
                }
                Some((Source::Free, place))
            },
            None => None,
        }
    }

    /// Where the item `id` is.
    pub fn location(&self, id: ItemId) -> (location: Option<Location>)
        requires
            self.wf(),
        ensures
            location == self@.location(id),
    {
        match self.find(id) {
            Some((Source::Pile(k), _)) => {
                return Some(Location::InStack(ItemType::at(k)));
            },
            Some((Source::Free, place)) => {
                if self.free[place].dragging {
                    return Some(Location::Dragging);
                } else {
                    return Some(Location::Loose);
                }
            },
            None => {},
        }
        let queue = self.queue.items();
        let mut i: usize = 0;
        while i < queue.len()
            invariant
                0 <= i <= queue@.len(),
                queue@ == self@.queue,
                self@.source(id) is None,
                forall|j: int| 0 <= j < i ==> (#[trigger] queue@[j]).id != id,
            decreases queue@.len() - i,
        {
            if queue[i].id == id {
                return Some(Location::InQueue);
            }
            i = i + 1;
        }
        match self.active {
            Some(a) => {
                if a.item.id == id {
                    return Some(Location::Active);
                }
            },
            None => {},
        }
        None
    }

    /// Takes the item at a found place out of its container.
    fn take(&mut self, id: ItemId, source: Source, place: usize) -> (item: Item)
        requires
            old(self).wf(),
            old(self)@.source(id) == Some(source),
            match source {
                Source::Pile(k) => k < 4 && is_first_place(
                    old(self)@.piles[k as int],
                    id,
                    place as int,
                ),
                Source::Free => is_first_place(old(self)@.free, id, place as int),
            },
        ensures
            final(self).rep(),
            final(self)@ == old(self)@.without(id),
            item == old(self)@.item(id),
            final(self)@.alive() == old(self)@.alive() - 1,
            final(self)@.piles.len() == 4,
    {
        match source {
            Source::Pile(k) => {
                proof {
                    lemma_place(self@.piles[k as int], id, place as int);
                }
                let item = take_from(&mut self.stacks, k, place);
                item
            },
            Source::Free => {
                proof {
                    lemma_place(self@.free, id, place as int);
                }
                self.free.remove(place)
            },
        }
    }
}

} // verus!
