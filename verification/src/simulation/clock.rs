use crate::game_state::GameState;
use crate::item::{ItemId, ITEM_LIMIT};
use crate::ownership::lemma_count_remove;
use crate::queue::{
    spec_after_promotion, spec_completes, spec_promoted, spec_report, spec_slot_after,
    ItemConsumed,
};
use crate::simulation::restack::{restack, restack_drawn, RestackDraws};
use crate::simulation::{fresh, lemma_owned_kept, Simulation, SimulationView};
use crate::spawning::{spec_day_report, spec_day_stress, DayOver};
use crate::stack::{check_stack, total_mismatches, StackPenalty};
use crate::stress::{fail_state, spec_fail_state, stress_after, StressMeter, RELIEF};
use bevy_rand::prelude::ChaCha8Rng;
use vstd::prelude::*;

verus! {

/// What one tick brought about, for cues and floating text.
#[derive(Clone, Copy, PartialEq, Eq, Debug, Structural)]
pub struct TickReport {
    /// The consumption that was completed.
    pub consumed: Option<ItemConsumed>,
    /// The day that ended.
    pub day: Option<DayOver>,
    /// Whether the session is failed.
    pub failed: bool,
}

impl SimulationView {
    /// The session after the promotion step: where the slot is free and the
    /// queue is not empty, the front of the queue becomes active.
    pub open spec fn promoted(self) -> SimulationView {
        SimulationView {
            queue: spec_after_promotion(self.queue, self.active),
            active: spec_promoted(self.queue, self.active),
            ..self
        }
    }

    /// The session after the consumption step of a tick of `delta`: the
    /// active countdown advances; where it completes, the item is destroyed
    /// and counted and a point of relief is asked of the stress meter.
    pub open spec fn consumed_by(self, delta: u64) -> SimulationView {
        if spec_completes(self.active, delta) {
            let item = self.active->0.item;
            SimulationView {
                active: None,
                consumed: self.consumed.recorded(item.item_type, item.index.0),
                stress: StressMeter {
                    value: stress_after(self.stress.value as int, RELIEF as int) as i64,
                },
                ..self
            }
        } else {
            SimulationView { active: spec_slot_after(self.active, delta), ..self }
        }
    }

    /// The session after the penalty for misplaced items was recomputed.
    pub open spec fn penalized(self) -> SimulationView {
        SimulationView { penalty: StackPenalty(total_mismatches(self.piles) as u64), ..self }
    }

    /// The session after the clock of the day advanced by `delta`.
    pub open spec fn day_ticked(self, delta: u64) -> SimulationView {
        SimulationView {
            today: self.today.spec_ticked(delta, self.consumed.total),
            stress: spec_day_stress(self.today, delta, self.penalty, self.stress),
            ..self
        }
    }

    /// The session after the failure check.
    pub open spec fn failure_checked(self) -> SimulationView {
        SimulationView { state: spec_fail_state(self.stress.value as int, self.state), ..self }
    }

    /// The session after the steps of one tick of `delta` that follow the
    /// restacking, in their order: promotion, consumption, penalty, clock of
    /// the day, failure check. A session that is not in play stands still.
    pub open spec fn advanced(self, delta: u64) -> SimulationView {
        if self.state == GameState::Playing {
            self.promoted().consumed_by(delta).penalized().day_ticked(delta).failure_checked()
        } else {
            self
        }
    }

    /// The report of the steps of one tick of `delta` that follow the
    /// restacking.
    pub open spec fn advance_report(self, delta: u64) -> TickReport {
        if self.state == GameState::Playing {
            let promoted = self.promoted();
            let penalized = promoted.consumed_by(delta).penalized();
            TickReport {
                consumed: spec_report(promoted.active, delta),
                day: spec_day_report(penalized.today, delta, penalized.penalty),
                failed: self.advanced(delta).state == GameState::Failed,
            }
        } else {
            TickReport { consumed: None, day: None, failed: self.state == GameState::Failed }
        }
    }
}

impl Simulation {
    /// The promotion step: where the slot is free and the queue is not
    /// empty, the front of the queue becomes active and its countdown starts
    /// at its category's time.
    pub fn check_active(&mut self)
        requires
            old(self).wf(),
        ensures
            final(self).wf(),
            final(self)@ == old(self)@.promoted(),
    {
        proof {
            lemma_promoted_owned(self@);
        }
        crate::queue::check_active(&mut self.queue, &mut self.active);
        proof {
            let before = old(self)@;
            if before.active is None && before.queue.len() > 0 {
                assert(self@.queue.len() == before.queue.len() - 1);
            }
        }
    }

    /// The consumption step of a tick of `delta`.
    pub fn consume_active(&mut self, delta: u64) -> (report: Option<ItemConsumed>)
        requires
            old(self).wf(),
        ensures
            final(self).wf(),
            final(self)@ == old(self)@.consumed_by(delta),
            report == spec_report(old(self)@.active, delta),
    {
        proof {
            lemma_consumed_by_owned(self@, delta);
        }
        crate::queue::consume_active(
            &mut self.active,
            delta,
            &mut self.consumed,
            &mut self.stress,
        )
    }

    /// Recomputes the penalty for misplaced items.
    pub fn check_stack(&mut self)
        requires
            old(self).wf(),
        ensures
            final(self).wf(),
            final(self)@ == old(self)@.penalized(),
            final(self)@.penalty.0 <= 4 * ITEM_LIMIT,
    {
        self.penalty = check_stack(&self.stacks);
    }

    /// The steps of one tick of `delta` that follow the restacking, in their
    /// order: promotion, consumption, penalty for misplaced items, clock of
    /// the day, failure check. A session that is not in play stands still.
    pub fn advance(&mut self, delta: u64) -> (report: TickReport)
        requires
            old(self).wf(),
        ensures
            final(self).wf(),
            final(self)@ == old(self)@.advanced(delta),
            report == old(self)@.advance_report(delta),
    {
        if self.state != GameState::Playing {
            return TickReport {
                consumed: None,
                day: None,
                failed: self.state == GameState::Failed,
            };
        }
        self.check_active();
        let consumed = self.consume_active(delta);
        self.check_stack();
        let day = crate::spawning::check_timer(
            &mut self.today,
            delta,
            self.penalty,
            &mut self.stress,
            &self.consumed,
        );
        self.state = fail_state(&self.stress, self.state);
        TickReport { consumed, day, failed: self.state == GameState::Failed }
    }
}

/// Promotion keeps every item owned by one container.
pub proof fn lemma_promoted_owned(session: SimulationView)
    requires
        session.owned(),
    ensures
        session.promoted().owned(),
{
    if session.active is None && session.queue.len() > 0 {
        let after = session.promoted();
        assert(after.queue =~= session.queue.remove(0));
        assert forall|other: ItemId| #[trigger]
            after.occurs(other) <= session.occurs(other) + fresh(session, after, other) by {
            lemma_count_remove(session.queue, 0, other);
            assert(after.occurs(other) == session.occurs(other));
        }
        lemma_owned_kept(session, after);
    }
}

/// Consumption keeps every item owned by one container.
pub proof fn lemma_consumed_by_owned(session: SimulationView, delta: u64)
    requires
        session.owned(),
    ensures
        session.consumed_by(delta).owned(),
{
    let after = session.consumed_by(delta);
    assert forall|other: ItemId| #[trigger]
            after.occurs(other) <= session.occurs(other) + fresh(session, after, other) by {
        assert(after.occurs(other) <= session.occurs(other));
        assert(session.occurs(other) <= 1);
    }
    lemma_owned_kept(session, after);
}

impl SimulationView {
    /// Whether one tick of `delta` leads from this session over `middle`,
    /// which is this session restacked, to `after` with the report `report`.
    pub open spec fn ticked(
        self,
        middle: SimulationView,
        after: SimulationView,
        delta: u64,
        report: TickReport,
    ) -> bool {
        &&& self.restacked(middle)
        &&& after == middle.advanced(delta)
        &&& report == middle.advance_report(delta)
    }
}

impl SimulationView {
    /// The session after one tick of `delta` in which the free items were
    /// restacked with the given draws. A session that is not in play stands
    /// still.
    pub open spec fn tick_drawn(self, delta: u64, draws: Seq<RestackDraws>) -> SimulationView {
        if self.state == GameState::Playing {
            self.restack_drawn(draws).advanced(delta)
        } else {
            self
        }
    }

    /// The report of one tick of `delta` in which the free items were
    /// restacked with the given draws.
    pub open spec fn tick_report(self, delta: u64, draws: Seq<RestackDraws>) -> TickReport {
        if self.state == GameState::Playing {
            self.restack_drawn(draws).advance_report(delta)
        } else {
            self.advance_report(delta)
        }
    }

    /// Whether the given draws explain a tick of `delta` from this session
    /// to `after` with the report `report`.
    pub open spec fn tick_explained(
        self,
        after: SimulationView,
        report: TickReport,
        delta: u64,
        draws: Seq<RestackDraws>,
    ) -> bool {
        &&& draws.len() == self.free.len()
        &&& after == self.tick_drawn(delta, draws)
        &&& report == self.tick_report(delta, draws)
    }
}

impl Simulation {
    /// One tick of `delta` nanoseconds with the given draws for the free
    /// items, one lot for each: in a session in play the free items that
    /// were let go are restacked, the front of the queue is promoted into a
    /// free slot, the active consumption advances and may complete, the
    /// penalty for misplaced items is recomputed, the clock of the day
    /// advances and may end the day, and the session fails where stress is
    /// above the threshold. A session that is not in play stands still.
    pub fn tick_drawn(&mut self, delta: u64, draws: &Vec<RestackDraws>) -> (report: TickReport)
        requires
            old(self).wf(),
            draws@.len() >= old(self)@.free.len(),
        ensures
            final(self).wf(),
            final(self)@ == old(self)@.tick_drawn(delta, draws@),
            report == old(self)@.tick_report(delta, draws@),
    {
        if self.state == GameState::Playing {
            restack_drawn(self, draws);
        }
        self.advance(delta)
    }

    /// One tick of `delta` nanoseconds, with draws from the generator for
    /// the free items that are restacked. What comes of it is what
    /// `tick_drawn` makes of the draws.
    pub fn tick(&mut self, delta: u64, rng: &mut ChaCha8Rng) -> (report: TickReport)
        requires
            old(self).wf(),
        ensures
            final(self).wf(),
            exists|draws: Seq<RestackDraws>|
                old(self)@.tick_explained(final(self)@, report, delta, draws),
            old(self)@.state != GameState::Playing ==> final(self)@ == old(self)@ && report
                == old(self)@.advance_report(delta),
            old(self)@.state == GameState::Playing ==> exists|middle: SimulationView|
                old(self)@.ticked(middle, final(self)@, delta, report),
    {
        let ghost mut draws: Seq<RestackDraws> = Seq::new(
            self@.free.len(),
            |i: int| (0u32, 0u32),
        );
        if self.state == GameState::Playing {
            restack(self, rng);
            proof {
                draws = choose|draws: Seq<RestackDraws>|
                    old(self)@.restack_explained(self@, draws);
            }
        }
        let ghost middle = self@;
        let report = self.advance(delta);
        proof {
            assert(old(self)@.tick_explained(self@, report, delta, draws));
            assert(old(self)@.state == GameState::Playing ==> old(self)@.ticked(
                middle,
                self@,
                delta,
                report,
            ));
        }
        report
    }
}

} // verus!
