//! Diff replay and the fixed-point axis arithmetic.

use input_actions::VALUE_SCALE;
use input_actions::action_diff::ActionDiff;
use input_actions::action_state::{ActionData, ActionState};
use input_actions::axislike::{DualAxisData, isqrt64};

const RUN: u32 = 0;
const JUMP: u32 = 1;

#[test]
fn diff_stream_matches_direct_calls() {
    let diffs = [
        ActionDiff::Pressed { action: RUN },
        ActionDiff::ValueChanged { action: RUN, value: 250 },
        ActionDiff::AxisPairChanged { action: JUMP, axis_pair: (30, 40) },
        ActionDiff::Released { action: RUN },
    ];
    let mut remote = ActionState::default();
    for diff in &diffs {
        remote.apply_diff(diff);
    }

    // The same history made of direct calls: a press or release edge,
    // then storing the refreshed value and axis sample.
    let mut local = ActionState::default();
    local.press(RUN);
    set_value(&mut local, RUN, VALUE_SCALE);
    local.press(RUN);
    set_value(&mut local, RUN, 250);
    local.press(JUMP);
    set_axis(&mut local, JUMP, (30, 40));
    local.release(RUN);
    set_value(&mut local, RUN, 0);
    clear_axis(&mut local, RUN);

    for action in [RUN, JUMP] {
        assert_eq!(remote.pressed(action), local.pressed(action));
        assert_eq!(remote.just_pressed(action), local.just_pressed(action));
        assert_eq!(remote.value(action), local.value(action));
        assert_eq!(remote.axis_pair(action), local.axis_pair(action));
    }
    assert!(remote.released(RUN));
    assert!(remote.pressed(JUMP));
    assert_eq!(remote.value(JUMP), 50);
    assert_eq!(remote.axis_pair(JUMP), Some(DualAxisData::new(30, 40)));
}

fn set_value(state: &mut ActionState, action: u32, value: i64) {
    let mut datum = *state.action_data(action).unwrap();
    datum.value = value;
    state.set_action_data(action, datum);
}

fn set_axis(state: &mut ActionState, action: u32, xy: (i32, i32)) {
    let pair = DualAxisData::from_xy(xy);
    let mut datum = *state.action_data(action).unwrap();
    datum.axis_pair = Some(pair);
    datum.value = pair.length();
    state.set_action_data(action, datum);
}

fn clear_axis(state: &mut ActionState, action: u32) {
    let mut datum = *state.action_data(action).unwrap();
    datum.axis_pair = None;
    state.set_action_data(action, datum);
}

#[test]
fn pressed_diff_initializes_and_sets_full_value() {
    let mut state = ActionState::default();
    state.apply_diff(&ActionDiff::Pressed { action: RUN });
    assert!(state.just_pressed(RUN));
    assert_eq!(state.value(RUN), VALUE_SCALE);
}

#[test]
fn released_diff_zeroes_value_and_clears_axis() {
    let mut state = ActionState::default();
    state.apply_diff(&ActionDiff::AxisPairChanged { action: RUN, axis_pair: (30, 40) });
    assert!(state.pressed(RUN));
    assert_eq!(state.value(RUN), 50);

    state.apply_diff(&ActionDiff::Released { action: RUN });
    assert!(state.just_released(RUN));
    assert_eq!(state.value(RUN), 0);
    assert_eq!(state.axis_pair(RUN), None);
}

#[test]
fn value_diff_on_a_consumed_action_keeps_it_released() {
    let mut state = ActionState::default();
    state.press(RUN);
    state.consume(RUN);
    state.apply_diff(&ActionDiff::ValueChanged { action: RUN, value: 900 });
    // The routed press is blocked by consumption, but the value lands.
    assert!(state.released(RUN));
    assert_eq!(state.value(RUN), 900);
}

#[test]
fn diff_order_matters_per_action() {
    let mut press_then_value = ActionState::default();
    press_then_value.apply_diff(&ActionDiff::Pressed { action: RUN });
    press_then_value.apply_diff(&ActionDiff::ValueChanged { action: RUN, value: 300 });
    assert_eq!(press_then_value.value(RUN), 300);

    let mut value_then_press = ActionState::default();
    value_then_press.apply_diff(&ActionDiff::ValueChanged { action: RUN, value: 300 });
    value_then_press.apply_diff(&ActionDiff::Pressed { action: RUN });
    assert_eq!(value_then_press.value(RUN), VALUE_SCALE);
}

#[test]
fn axis_length_is_the_integer_magnitude() {
    assert_eq!(DualAxisData::new(300, 400).length(), 500);
    assert_eq!(DualAxisData::new(-300, 400).length(), 500);
    assert_eq!(DualAxisData::new(0, 0).length(), 0);
    assert_eq!(DualAxisData::new(VALUE_SCALE as i32, 0).length(), VALUE_SCALE);
    // One unit right and one up: sqrt(2) units, rounded down.
    assert_eq!(DualAxisData::new(1000, 1000).length(), 1414);
    assert_eq!(DualAxisData::new(i32::MIN, i32::MIN).length(), 3037000499);
}

#[test]
fn integer_square_root_rounds_down() {
    assert_eq!(isqrt64(0), 0);
    assert_eq!(isqrt64(1), 1);
    assert_eq!(isqrt64(2), 1);
    assert_eq!(isqrt64(3), 1);
    assert_eq!(isqrt64(4), 2);
    assert_eq!(isqrt64(15), 3);
    assert_eq!(isqrt64(16), 4);
    assert_eq!(isqrt64(1_000_000), 1000);
    assert_eq!(isqrt64(u64::MAX), 4294967295);
}

#[test]
fn clamped_value_saturates_at_one_unit() {
    let mut state = ActionState::default();
    state.press(RUN);
    let mut datum = *state.action_data(RUN).unwrap();
    datum.value = 2500;
    state.set_action_data(RUN, datum);
    assert_eq!(state.value(RUN), 2500);
    assert_eq!(state.clamped_value(RUN), VALUE_SCALE);

    datum.value = -2500;
    state.set_action_data(RUN, datum);
    assert_eq!(state.clamped_value(RUN), -VALUE_SCALE);

    datum.value = 700;
    state.set_action_data(RUN, datum);
    assert_eq!(state.clamped_value(RUN), 700);
}

#[test]
fn clamped_axis_pair_saturates_each_component() {
    let mut state = ActionState::default();
    state.press(RUN);
    let mut datum = *state.action_data(RUN).unwrap();
    datum.axis_pair = Some(DualAxisData::new(1500, -1500));
    state.set_action_data(RUN, datum);
    assert_eq!(
        state.clamped_axis_pair(RUN),
        Some(DualAxisData::new(VALUE_SCALE as i32, -VALUE_SCALE as i32))
    );
}

#[test]
fn action_data_defaults_are_the_never_touched_readings() {
    let datum = ActionData::default();
    assert!(!datum.consumed);
    assert_eq!(datum.value, 0);
    assert_eq!(datum.axis_pair, None);
    assert_eq!(datum.timing.instant_started, None);
    assert_eq!(datum.timing.current_duration, 0);
    assert_eq!(datum.timing.previous_duration, 0);
}
