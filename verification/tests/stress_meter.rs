use backlog_breakdown::game_state::GameState;
use backlog_breakdown::stress::{
    fail_state, StressMeter, FAIL_THRESHOLD, HALF_POINTS, RELIEF, STARTING_STRESS,
};

#[test]
fn stress_starts_at_ten_points() {
    let meter = StressMeter::new();
    assert_eq!(meter.value, 10 * HALF_POINTS);
    assert_eq!(STARTING_STRESS, 20);
    assert_eq!(FAIL_THRESHOLD, 100 * HALF_POINTS);
    assert_eq!(RELIEF, -HALF_POINTS);
}

#[test]
fn relief_at_zero_is_refused() {
    let mut meter = StressMeter { value: 0 };
    meter.apply_delta(-5 * HALF_POINTS);
    assert_eq!(meter.value, 0);
    meter.apply_delta(-5 * HALF_POINTS);
    assert_eq!(meter.value, 0);
}

#[test]
fn relief_below_zero_is_refused() {
    let mut meter = StressMeter { value: -1 };
    meter.apply_delta(RELIEF);
    assert_eq!(meter.value, -1);
}

#[test]
fn relief_above_zero_is_applied_in_full() {
    let mut meter = StressMeter { value: 1 };
    meter.apply_delta(RELIEF);
    assert_eq!(meter.value, -1);
    let mut meter = StressMeter { value: 20 };
    meter.apply_delta(RELIEF);
    assert_eq!(meter.value, 18);
}

#[test]
fn rise_has_no_ceiling_and_fails_the_session() {
    let mut meter = StressMeter { value: 98 * HALF_POINTS };
    meter.apply_delta(5 * HALF_POINTS);
    assert_eq!(meter.value, 103 * HALF_POINTS);
    assert_eq!(fail_state(&meter, GameState::Playing), GameState::Failed);
}

#[test]
fn rise_at_zero_is_applied() {
    let mut meter = StressMeter { value: 0 };
    meter.apply_delta(7);
    assert_eq!(meter.value, 7);
    meter.apply_delta(0);
    assert_eq!(meter.value, 7);
}

#[test]
fn session_fails_only_above_the_threshold() {
    assert_eq!(
        fail_state(&StressMeter { value: FAIL_THRESHOLD }, GameState::Playing),
        GameState::Playing
    );
    assert_eq!(
        fail_state(&StressMeter { value: FAIL_THRESHOLD + 1 }, GameState::Playing),
        GameState::Failed
    );
    assert_eq!(
        fail_state(&StressMeter { value: 0 }, GameState::Failed),
        GameState::Failed
    );
    assert_eq!(
        fail_state(&StressMeter { value: 20 }, GameState::StartScreen),
        GameState::StartScreen
    );
}

#[test]
fn game_state_starts_at_the_start_screen() {
    assert_eq!(GameState::default(), GameState::StartScreen);
}
