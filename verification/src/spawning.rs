use crate::consume_counter::ConsumeCount;
use crate::entropy::{bucket, spec_bucket};
use crate::item::NANOS_PER_SEC;
use crate::stack::StackPenalty;
use crate::stress::{stress_after, StressMeter, StressOrigin, StressPopupText};
use vstd::prelude::*;

verus! {

/// Stress of a day on which something was bought: 2 points.
pub const CLICKED_PENALTY: i64 = 4;

/// Stress of a day on which nothing was bought: 5 points.
pub const MISSED_PENALTY: i64 = 10;

/// Length of the first day, in nanoseconds.
pub const FIRST_DAY: u64 = 10_000_000_000;

/// The clock of the day, which repeats, and whether something was bought
/// since it last ran out. Times are in nanoseconds.
#[derive(Clone, Copy, PartialEq, Eq, Debug, Structural)]
pub struct TodayTimer {
    pub elapsed: u64,
    pub duration: u64,
    pub clicked_today: bool,
}

/// Report of a day that ended.
#[derive(Clone, Copy, PartialEq, Eq, Debug, Structural)]
pub struct DayOver {
    /// The stress that was asked for.
    pub popup: StressPopupText,
    /// Whether the day went by without a purchase.
    pub missed: bool,
}

/// Length of a day once `total` items were consumed: ten seconds, less one
/// for every ten items, but no less than five.
pub open spec fn spec_day_length(total: u32) -> u64 {
    if total / 10 >= 5 {
        (5 * NANOS_PER_SEC) as u64
    } else {
        ((10 - total / 10) * NANOS_PER_SEC) as u64
    }
}

/// Stress that the end of a day asks for, in half points.
pub open spec fn spec_day_penalty(clicked_today: bool, penalty: StackPenalty) -> int {
    if clicked_today {
        CLICKED_PENALTY + penalty.0
    } else {
        MISSED_PENALTY + penalty.0
    }
}

impl TodayTimer {
    pub open spec fn wf(self) -> bool {
        self.duration > 0
    }

    /// Whether a tick of `delta` ends the day.
    pub open spec fn spec_day_over(self, delta: u64) -> bool {
        self.elapsed + delta >= self.duration
    }

    /// The clock after a tick of `delta` with `total` items consumed.
    pub open spec fn spec_ticked(self, delta: u64, total: u32) -> TodayTimer {
        if self.spec_day_over(delta) {
            TodayTimer {
                elapsed: ((self.elapsed + delta) % (self.duration as int)) as u64,
                duration: spec_day_length(total),
                clicked_today: false,
            }
        } else {
            TodayTimer {
                elapsed: (self.elapsed + delta) as u64,
                duration: self.duration,
                clicked_today: self.clicked_today,
            }
        }
    }

    pub fn new() -> (today: Self)
        ensures
            today.wf(),
            today == (TodayTimer { elapsed: 0, duration: FIRST_DAY, clicked_today: false }),
    {
        TodayTimer { elapsed: 0, duration: FIRST_DAY, clicked_today: false }
    }
}

/// The report of a tick of `delta`: of the day that it ends.
pub open spec fn spec_day_report(today: TodayTimer, delta: u64, penalty: StackPenalty) -> Option<
    DayOver,
> {
    if today.spec_day_over(delta) {
        Some(
            DayOver {
                popup: StressPopupText {
                    spawn_origin: StressOrigin::BuyButton,
                    stress_value: spec_day_penalty(today.clicked_today, penalty) as i64,
                },
                missed: !today.clicked_today,
            },
        )
    } else {
        None
    }
}

/// Stress after a tick of `delta` of the clock of the day.
pub open spec fn spec_day_stress(
    today: TodayTimer,
    delta: u64,
    penalty: StackPenalty,
    stress: StressMeter,
) -> StressMeter {
    if today.spec_day_over(delta) {
        StressMeter {
            value: stress_after(
                stress.value as int,
                spec_day_penalty(today.clicked_today, penalty),
            ) as i64,
        }
    } else {
        stress
    }
}

/// Length of a day once `total` items were consumed.
pub fn day_length(total: u32) -> (nanos: u64)
    ensures
        nanos == spec_day_length(total),
        nanos >= 5 * NANOS_PER_SEC,
{
    let tens = total / 10;
    if tens >= 5 {
        5 * NANOS_PER_SEC
    } else {
        (10 - tens as u64) * NANOS_PER_SEC
    }
}

/// Advances the clock of the day by `delta`. Where the day ends, stress
/// rises by the day's penalty and the penalty for misplaced items, the
/// purchase mark is cleared, the next day gets its length from the number of
/// items consumed, and the day is reported; otherwise only the clock moves.
pub fn check_timer(
    today: &mut TodayTimer,
    delta: u64,
    stack_penalty: StackPenalty,
    stress: &mut StressMeter,
    consumed_counter: &ConsumeCount,
) -> (report: Option<DayOver>)
    requires
        old(today).wf(),
        MISSED_PENALTY + stack_penalty.0 <= i64::MAX,
        old(stress).value + MISSED_PENALTY + stack_penalty.0 <= i64::MAX,
    ensures
        final(today).wf(),
        *final(today) == old(today).spec_ticked(delta, consumed_counter.total),
        report == spec_day_report(*old(today), delta, stack_penalty),
        *final(stress) == spec_day_stress(*old(today), delta, stack_penalty, *old(stress)),
{
    let sum: u128 = today.elapsed as u128 + delta as u128;
    if sum < today.duration as u128 {
        today.elapsed = sum as u64;
        return None;
    }
    let missed = !today.clicked_today;
    let click_penalty = if today.clicked_today {
        CLICKED_PENALTY
    } else {
        MISSED_PENALTY
    };
    let stress_value = click_penalty + stack_penalty.0 as i64;
    stress.apply_delta(stress_value);
    today.elapsed = (sum % today.duration as u128) as u64;
    today.duration = day_length(consumed_counter.total);
    today.clicked_today = false;
    Some(
        DayOver {
            popup: StressPopupText { spawn_origin: StressOrigin::BuyButton, stress_value },
            missed,
        },
    )
}

/// Of ten equal shares of the draws, the first makes a purchase a bulk
/// event.
pub const BULK_SHARES: u32 = 10;

/// A bulk event brings at least this many items.
pub const BURST_MIN: u32 = 4;

/// A bulk event's size is one of this many sizes, each as likely.
pub const BURST_SIZES: u32 = 5;

/// Whether a raw roll makes a purchase a bulk event: the rolls below a
/// tenth of the range do.
pub open spec fn spec_is_bulk(roll: u32) -> bool {
    spec_bucket(roll, BULK_SHARES) == 0
}

/// The number of items that a bulk event brings for a raw draw: 4 to 8.
pub open spec fn spec_burst_size(raw: u32) -> int {
    BURST_MIN + spec_bucket(raw, BURST_SIZES)
}

/// Whether a raw roll makes a purchase a bulk event.
pub fn is_bulk(roll: u32) -> (bulk: bool)
    ensures
        bulk == spec_is_bulk(roll),
        bulk == (roll as int * 10 < 0x1_0000_0000),
{
    bucket(roll, BULK_SHARES) == 0
}

/// The number of items that a bulk event brings for a raw draw.
pub fn burst_size(raw: u32) -> (size: u32)
    ensures
        size == spec_burst_size(raw),
        4 <= size <= 8,
{
    BURST_MIN + bucket(raw, BURST_SIZES)
}

} // verus!
