use crate::dialog::{spec_shown, ShownDialog};
use crate::entropy::next_draw;
use crate::item::ITEM_LIMIT;
use crate::simulation::spawner::{lemma_full_gets_nothing, lemma_grown_step, lemma_stocked_step};
use crate::simulation::{Simulation, SimulationView};
use crate::spawning::{burst_size, is_bulk, spec_burst_size, spec_is_bulk};
use crate::stack::{all_full, collect_free, lemma_free_piles};
use bevy_rand::prelude::ChaCha8Rng;
use vstd::prelude::*;

verus! {

/// The raw draws of one unit of a purchase: for the flavour text, the
/// category, the skin and the stack, in that order.
pub type UnitDraws = (u32, u32, u32, u32);

/// What a purchase brought.
#[derive(Clone, Copy, PartialEq, Eq, Debug, Structural)]
pub struct Purchase {
    /// Whether the purchase was a bulk event.
    pub bulk: bool,
    /// Number of items that it set out to bring.
    pub planned: u32,
    /// Number of items that it brought.
    pub spawned: u32,
}

/// Number of units of a purchase: the burst size that the size draw gives
/// where the roll makes it a bulk event, one otherwise.
pub open spec fn spec_planned(roll: u32, size_raw: u32) -> nat {
    if spec_is_bulk(roll) {
        spec_burst_size(size_raw) as nat
    } else {
        1
    }
}

impl SimulationView {
    /// The session after one unit of a purchase: in a bulk event the flavour
    /// text that the unit's first draw picks is shown; then one random item
    /// is spawned by the other three draws, unless every stack is full.
    pub open spec fn unit_drawn(self, bulk: bool, unit: UnitDraws) -> SimulationView {
        let shown = if bulk {
            SimulationView { dialog: spec_shown(unit.0), ..self }
        } else {
            self
        };
        shown.spawn_drawn(unit.1, unit.2, unit.3)
    }

    /// The session after the first `k` units of a purchase, the number of
    /// items that they brought, and whether the purchase has stopped. The
    /// units run in their order, each by its own draws; the first unit that
    /// finds every stack full stops the purchase, and no unit runs after it.
    pub open spec fn units_drawn(self, bulk: bool, units: Seq<UnitDraws>, k: nat) -> (
        SimulationView,
        nat,
        bool,
    )
        decreases k,
    {
        if k == 0 {
            (self, 0, false)
        } else {
            let earlier = self.units_drawn(bulk, units, (k - 1) as nat);
            if earlier.2 {
                earlier
            } else if all_full(earlier.0.piles) {
                (earlier.0.unit_drawn(bulk, units[k - 1]), earlier.1, true)
            } else {
                (earlier.0.unit_drawn(bulk, units[k - 1]), earlier.1 + 1, false)
            }
        }
    }

    /// What the purchase with the given raw draws brings. The rolls below a
    /// tenth of the range make it a bulk event, which plans the burst that
    /// the size draw gives; any other purchase plans one item.
    pub open spec fn purchase_of(self, roll: u32, size_raw: u32, units: Seq<UnitDraws>) -> Purchase {
        let bulk = spec_is_bulk(roll);
        let planned = spec_planned(roll, size_raw);
        Purchase {
            bulk,
            planned: planned as u32,
            spawned: self.units_drawn(bulk, units, planned).1 as u32,
        }
    }

    /// The session after the purchase with the given raw draws: its units
    /// have run, and it is settled for what they brought.
    pub open spec fn purchase_drawn(self, roll: u32, size_raw: u32, units: Seq<UnitDraws>) -> SimulationView {
        let purchase = self.purchase_of(roll, size_raw, units);
        self.units_drawn(purchase.bulk, units, purchase.planned as nat).0.settled(
            purchase.spawned,
        )
    }

    /// Whether the given raw draws explain a purchase: they lead from this
    /// session to `after` and bring `purchase`.
    pub open spec fn purchase_explained(
        self,
        after: SimulationView,
        purchase: Purchase,
        roll: u32,
        size_raw: u32,
        units: Seq<UnitDraws>,
    ) -> bool {
        &&& units.len() == 8
        &&& after == self.purchase_drawn(roll, size_raw, units)
        &&& purchase == self.purchase_of(roll, size_raw, units)
    }

    /// Whether `purchase` leads from this session over `middle`, in which
    /// its items were spawned, to `after`, in which it is settled. A
    /// purchase brings fewer items than planned only where the stacks are
    /// full. A bulk event leaves one of the flavour texts on show, any other
    /// purchase the text that was on show before.
    pub open spec fn purchased(
        self,
        middle: SimulationView,
        after: SimulationView,
        purchase: Purchase,
    ) -> bool {
        &&& self.grown(middle, purchase.spawned as int)
        &&& purchase.spawned <= purchase.planned
        &&& purchase.spawned < purchase.planned ==> all_full(middle.piles)
        &&& purchase.bulk ==> 4 <= purchase.planned <= 8 && exists|raw: u32|
            middle.dialog == #[trigger] spec_shown(raw)
        &&& !purchase.bulk ==> purchase.planned == 1 && middle.dialog == self.dialog
        &&& after == middle.settled(purchase.spawned)
    }
}

/// The first `k` units of a purchase depend on the first `k` lots of draws
/// alone.
pub proof fn lemma_units_prefix(
    session: SimulationView,
    bulk: bool,
    units: Seq<UnitDraws>,
    others: Seq<UnitDraws>,
    k: nat,
)
    requires
        forall|i: int| 0 <= i < k ==> units[i] == others[i],
    ensures
        session.units_drawn(bulk, units, k) == session.units_drawn(bulk, others, k),
    decreases k,
{
    if k > 0 {
        lemma_units_prefix(session, bulk, units, others, (k - 1) as nat);
        assert(units[k - 1] == others[k - 1]);
    }
}

/// A purchase that has stopped stays as it is.
pub proof fn lemma_stopped_stays(
    session: SimulationView,
    bulk: bool,
    units: Seq<UnitDraws>,
    k: nat,
    m: nat,
)
    requires
        k <= m,
        session.units_drawn(bulk, units, k).2,
    ensures
        session.units_drawn(bulk, units, m) == session.units_drawn(bulk, units, k),
    decreases m - k,
{
    if k < m {
        lemma_stopped_stays(session, bulk, units, k, (m - 1) as nat);
    }
}

/// The units of a purchase put one item each on a stack that is not full,
/// until they are through or find every stack full.
pub proof fn lemma_units_stock(session: SimulationView, bulk: bool, units: Seq<UnitDraws>, k: nat)
    requires
        session.piles.len() == 4,
    ensures
        ({
            let run = session.units_drawn(bulk, units, k);
            &&& session.stocked(run.0, run.1 as int)
            &&& run.1 <= k
            &&& run.2 ==> all_full(run.0.piles)
            &&& !run.2 ==> run.1 == k
            &&& bulk && k > 0 ==> exists|raw: u32| run.0.dialog == #[trigger] spec_shown(raw)
            &&& !bulk || k == 0 ==> run.0.dialog == session.dialog
        }),
    decreases k,
{
    if k == 0 {
        assert forall|p: int| 0 <= p < 4 implies (#[trigger] session.piles[p]).take(
            session.piles[p].len() as int,
        ) == session.piles[p] by {
            assert(session.piles[p].take(session.piles[p].len() as int) =~= session.piles[p]);
        }
    } else {
        lemma_units_stock(session, bulk, units, (k - 1) as nat);
        let earlier = session.units_drawn(bulk, units, (k - 1) as nat);
        if !earlier.2 {
            let unit = units[k - 1];
            let shown = if bulk {
                SimulationView { dialog: spec_shown(unit.0), ..earlier.0 }
            } else {
                earlier.0
            };
            assert(session.stocked(shown, earlier.1 as int));
            lemma_free_piles(shown.piles);
            if !all_full(shown.piles) {
                lemma_stocked_step(session, shown, earlier.1 as int, unit.1, unit.2, unit.3);
            }
            let run = session.units_drawn(bulk, units, k);
            if bulk {
                assert(run.0.dialog == spec_shown(unit.0));
            }
        }
    }
}

/// The items that the units of a purchase bring are new items, with the
/// identities that were given out for them.
pub proof fn lemma_units_grow(session: SimulationView, bulk: bool, units: Seq<UnitDraws>, k: nat)
    requires
        session.piles.len() == 4,
        all_full(session.piles) || session.created + k <= ITEM_LIMIT,
    ensures
        session.grown(
            session.units_drawn(bulk, units, k).0,
            session.units_drawn(bulk, units, k).1 as int,
        ),
    decreases k,
{
    lemma_units_stock(session, bulk, units, k);
    if k > 0 {
        lemma_units_grow(session, bulk, units, (k - 1) as nat);
        lemma_units_stock(session, bulk, units, (k - 1) as nat);
        let earlier = session.units_drawn(bulk, units, (k - 1) as nat);
        if !earlier.2 {
            let unit = units[k - 1];
            let shown = if bulk {
                SimulationView { dialog: spec_shown(unit.0), ..earlier.0 }
            } else {
                earlier.0
            };
            assert(session.grown(shown, earlier.1 as int));
            lemma_free_piles(shown.piles);
            if !all_full(shown.piles) {
                if all_full(session.piles) {
                    lemma_full_gets_nothing(session, shown, earlier.1 as int);
                }
                lemma_grown_step(session, shown, earlier.1 as int, unit.1, unit.2, unit.3);
            }
        }
    }
}

/// A purchase, whatever its draws, brings at most what it planned and less
/// only where every stack is full; each of its items lies on a stack that
/// was not full when the item came; and it is settled for what it brought.
pub proof fn lemma_purchase_grows(
    session: SimulationView,
    roll: u32,
    size_raw: u32,
    units: Seq<UnitDraws>,
)
    requires
        session.piles.len() == 4,
        all_full(session.piles) || session.created + 8 <= ITEM_LIMIT,
    ensures
        1 <= spec_planned(roll, size_raw) <= 8,
        session.purchased(
            session.units_drawn(spec_is_bulk(roll), units, spec_planned(roll, size_raw)).0,
            session.purchase_drawn(roll, size_raw, units),
            session.purchase_of(roll, size_raw, units),
        ),
{
    crate::entropy::lemma_bucket_bounds(size_raw, crate::spawning::BURST_SIZES);
    lemma_units_stock(session, spec_is_bulk(roll), units, spec_planned(roll, size_raw));
    lemma_units_grow(session, spec_is_bulk(roll), units, spec_planned(roll, size_raw));
}

impl Simulation {
    /// One unit of a purchase with its raw draws. Says whether it brought an
    /// item, which it does unless every stack is full.
    pub fn purchase_unit(&mut self, bulk: bool, unit: UnitDraws) -> (spawned: bool)
        requires
            old(self).wf(),
            !all_full(old(self)@.piles) ==> old(self)@.created < ITEM_LIMIT,
        ensures
            final(self).wf(),
            final(self)@ == old(self)@.unit_drawn(bulk, unit),
            spawned == !all_full(old(self)@.piles),
            final(self)@.created == old(self)@.created + if spawned {
                1int
            } else {
                0int
            },
    {
        proof {
            lemma_free_piles(self@.piles);
        }
        if bulk {
            self.dialog = ShownDialog::for_draw(unit.0);
        }
        self.spawn_drawn(unit.1, unit.2, unit.3).is_ok()
    }

    /// The purchase with the given raw draws. The rolls below a tenth of the
    /// range make it a bulk event, which plans the burst of 4 to 8 that the
    /// size draw gives; any other purchase plans one item. The units run in
    /// their order, each by its own draws, until they are through or one
    /// finds every stack full. A purchase that brought at least one item is
    /// settled with a point of relief and marks the day.
    pub fn purchase_drawn(&mut self, roll: u32, size_raw: u32, units: &Vec<UnitDraws>) -> (purchase:
        Purchase)
        requires
            old(self).wf(),
            all_full(old(self)@.piles) || old(self)@.created <= ITEM_LIMIT - 8,
            units@.len() >= 8,
        ensures
            final(self).wf(),
            final(self)@ == old(self)@.purchase_drawn(roll, size_raw, units@),
            purchase == old(self)@.purchase_of(roll, size_raw, units@),
    {
        let bulk = is_bulk(roll);
        let planned: u32 = if bulk {
            burst_size(size_raw)
        } else {
            1
        };
        let mut spawned: u32 = 0;
        let mut k: u32 = 0;
        while k < planned
            invariant_except_break
                old(self)@.units_drawn(bulk, units@, k as nat) == (self@, spawned as nat, false),
            invariant
                self.wf(),
                k <= planned <= 8,
                units@.len() >= 8,
                spawned <= k,
                old(self).wf(),
                all_full(old(self)@.piles) || old(self)@.created <= ITEM_LIMIT - 8,
                self@.created <= old(self)@.created + k,
            ensures
                old(self)@.units_drawn(bulk, units@, planned as nat).0 == self@,
                old(self)@.units_drawn(bulk, units@, planned as nat).1 == spawned,
            decreases planned - k,
        {
            proof {
                lemma_units_stock(old(self)@, bulk, units@, k as nat);
                if all_full(old(self)@.piles) {
                    lemma_full_gets_nothing(old(self)@, self@, spawned as int);
                }
            }
            let one = self.purchase_unit(bulk, units[k as usize]);
            if !one {
                proof {
                    lemma_stopped_stays(old(self)@, bulk, units@, (k + 1) as nat, planned as nat);
                }
                break ;
            }
            spawned = spawned + 1;
            k = k + 1;
        }
        self.settle_purchase(spawned);
        Purchase { bulk, planned, spawned }
    }

    /// A purchase. One roll from the generator decides whether it is a bulk
    /// event, which a tenth of the rolls make it; a bulk event draws its
    /// size, 4 to 8, and each of its units draws a flavour text to show;
    /// any other purchase has one unit. Each unit draws a category, and,
    /// unless every stack is full, a skin and a stack for one new item; the
    /// first unit that finds every stack full ends the purchase. A purchase
    /// that brought at least one item is settled with a point of relief and
    /// marks the day. What comes of it is what `purchase_drawn` makes of the
    /// draws.
    pub fn trigger_purchase_event(&mut self, rng: &mut ChaCha8Rng) -> (purchase: Purchase)
        requires
            old(self).wf(),
            all_full(old(self)@.piles) || old(self)@.created <= ITEM_LIMIT - 8,
        ensures
            final(self).wf(),
            exists|roll: u32, size_raw: u32, units: Seq<UnitDraws>|
                old(self)@.purchase_explained(final(self)@, purchase, roll, size_raw, units),
            exists|middle: SimulationView| old(self)@.purchased(middle, final(self)@, purchase),
    {
        let roll = next_draw(rng);
        let bulk = is_bulk(roll);
        let size_raw = if bulk {
            next_draw(rng)
        } else {
            0
        };
        let planned: u32 = if bulk {
            burst_size(size_raw)
        } else {
            1
        };
        let mut spawned: u32 = 0;
        let mut k: u32 = 0;
        let ghost mut tape: Seq<UnitDraws> = Seq::empty();
        let ghost mut done: nat = 0;
        while k < planned
            invariant_except_break
                done == k,
                old(self)@.units_drawn(bulk, tape, k as nat) == (self@, spawned as nat, false),
            invariant
                self.wf(),
                k <= planned <= 8,
                tape.len() == done,
                spawned <= k,
                old(self).wf(),
                all_full(old(self)@.piles) || old(self)@.created <= ITEM_LIMIT - 8,
                self@.created <= old(self)@.created + k,
            ensures
                done <= planned,
                old(self)@.units_drawn(bulk, tape, done).0 == self@,
                old(self)@.units_drawn(bulk, tape, done).1 == spawned,
                done < planned ==> old(self)@.units_drawn(bulk, tape, done).2,
            decreases planned - k,
        {
            let dialog_raw = if bulk {
                next_draw(rng)
            } else {
                0
            };
            let category_raw = next_draw(rng);
            let free = collect_free(&self.stacks).len() > 0;
            let variant_raw = if free {
                next_draw(rng)
            } else {
                0
            };
            let stack_raw = if free {
                next_draw(rng)
            } else {
                0
            };
            let unit = (dialog_raw, category_raw, variant_raw, stack_raw);
            proof {
                lemma_units_stock(old(self)@, bulk, tape, k as nat);
                if all_full(old(self)@.piles) {
                    lemma_full_gets_nothing(old(self)@, self@, spawned as int);
                }
                lemma_units_prefix(old(self)@, bulk, tape, tape.push(unit), k as nat);
                tape = tape.push(unit);
                done = done + 1;
            }
            let one = self.purchase_unit(bulk, unit);
            if !one {
                break ;
            }
            spawned = spawned + 1;
            k = k + 1;
        }
        let ghost middle = self@;
        self.settle_purchase(spawned);
        let purchase = Purchase { bulk, planned, spawned };
        proof {
            let units = tape + Seq::new((8 - tape.len()) as nat, |i: int| (0u32, 0u32, 0u32, 0u32));
            lemma_units_prefix(old(self)@, bulk, tape, units, done);
            if done < planned {
                lemma_stopped_stays(old(self)@, bulk, units, done, planned as nat);
            }
            assert(old(self)@.purchase_explained(self@, purchase, roll, size_raw, units));
            lemma_purchase_grows(old(self)@, roll, size_raw, units);
            assert(old(self)@.purchased(middle, self@, purchase));
        }
        purchase
    }
}

} // verus!
