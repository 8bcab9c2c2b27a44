use crate::game_state::GameState;
use vstd::prelude::*;

verus! {

/// Stress is counted in half points: two units make one point of the meter.
pub const HALF_POINTS: i64 = 2;

/// One point of relief, as a change of stress.
pub const RELIEF: i64 = -2;

/// Stress at the start of a session: 10 points.
pub const STARTING_STRESS: i64 = 20;

/// A session fails once stress is above 100 points.
pub const FAIL_THRESHOLD: i64 = 200;

/// The stress level of a session, in half points.
#[derive(Clone, Copy, PartialEq, Eq, Debug, Structural)]
pub struct StressMeter {
    pub value: i64,
}

/// Ways in which a change of stress is shown; the place where it arose.
#[derive(Clone, Copy, PartialEq, Eq, Debug, Structural)]
pub enum StressOrigin {
    ActiveSlot,
    BuyButton,
}

/// A change of stress that was asked for, in half points, for cues and
/// floating text.
#[derive(Clone, Copy, PartialEq, Eq, Debug, Structural)]
pub struct StressPopupText {
    pub spawn_origin: StressOrigin,
    pub stress_value: i64,
}

/// Stress after a change of `delta` is asked for at `value`: relief is
/// refused once stress is at zero or below, everything else is added.
pub open spec fn stress_after(value: int, delta: int) -> int {
    if delta < 0 && value <= 0 {
        value
    } else {
        value + delta
    }
}

/// The state after the failure check at stress `value`.
pub open spec fn spec_fail_state(value: int, state: GameState) -> GameState {
    if value > FAIL_THRESHOLD {
        GameState::Failed
    } else {
        state
    }
}

impl StressMeter {
    pub fn new() -> (meter: Self)
        ensures
            meter.value == STARTING_STRESS,
    {
        StressMeter { value: STARTING_STRESS }
    }

    /// Applies a change of stress, in half points.
    pub fn apply_delta(&mut self, delta: i64)
        requires
            stress_after(old(self).value as int, delta as int) <= i64::MAX,
        ensures
            final(self).value == stress_after(old(self).value as int, delta as int),
    {
        if delta < 0 && self.value <= 0 {
            return ;
        }
        self.value = self.value + delta;
    }
}

/// The failure check: a session whose stress is above the threshold fails,
/// any other keeps its state.
pub fn fail_state(stress: &StressMeter, state: GameState) -> (next: GameState)
    ensures
        next == spec_fail_state(stress.value as int, state),
{
    if stress.value > FAIL_THRESHOLD {
        GameState::Failed
    } else {
        state
    }
}

/// Relief is refused at the floor: asking for it again changes nothing.
pub proof fn relief_is_refused_at_the_floor(value: int, delta: int)
    requires
        value <= 0,
        delta < 0,
    ensures
        stress_after(value, delta) == value,
        stress_after(stress_after(value, delta), delta) == value,
{
}

/// There is no ceiling: a rise from at most the threshold to above it is
/// kept in full, and the failure check that follows fails the session.
pub proof fn rise_above_threshold_fails(value: int, delta: int, state: GameState)
    requires
        delta >= 0,
        value + delta > FAIL_THRESHOLD,
    ensures
        stress_after(value, delta) == value + delta,
        spec_fail_state(stress_after(value, delta), state) == GameState::Failed,
{
}

} // verus!
