//! The per-action state machine, driven through the public API.

use input_actions::VALUE_SCALE;
use input_actions::action_state::{ActionData, ActionState};
use input_actions::buttonlike::ButtonState;
use input_actions::input_map::{Binding, ClashStrategy, InputMap, RawActivation};
use input_actions::id_map::IdMap;

const RUN: u32 = 0;
const JUMP: u32 = 1;
const HIDE: u32 = 2;

const KEY_R: u32 = 100;

fn key_snapshot(keys: &[u32]) -> IdMap<RawActivation> {
    let mut snap = IdMap::new();
    for &k in keys {
        snap.set(k, RawActivation { value: VALUE_SCALE, axis_pair: None });
    }
    snap
}

#[test]
fn press_lifecycle() {
    let mut action_state = ActionState::default();

    let mut input_map = InputMap::new();
    input_map.insert(RUN, Binding::single(KEY_R));

    // Starting state: the key is up.
    let snap = key_snapshot(&[]);
    action_state.update(input_map.which_pressed(&snap, ClashStrategy::PressAll));

    assert!(!action_state.pressed(RUN));
    assert!(!action_state.just_pressed(RUN));
    assert!(action_state.released(RUN));
    assert!(!action_state.just_released(RUN));

    // Pressing.
    let snap = key_snapshot(&[KEY_R]);
    action_state.update(input_map.which_pressed(&snap, ClashStrategy::PressAll));

    assert!(action_state.pressed(RUN));
    assert!(action_state.just_pressed(RUN));
    assert!(!action_state.released(RUN));
    assert!(!action_state.just_released(RUN));

    // Waiting.
    action_state.tick(1001, 1000);
    action_state.update(input_map.which_pressed(&snap, ClashStrategy::PressAll));

    assert!(action_state.pressed(RUN));
    assert!(!action_state.just_pressed(RUN));
    assert!(!action_state.released(RUN));
    assert!(!action_state.just_released(RUN));

    // Releasing.
    let snap = key_snapshot(&[]);
    action_state.update(input_map.which_pressed(&snap, ClashStrategy::PressAll));

    assert!(!action_state.pressed(RUN));
    assert!(!action_state.just_pressed(RUN));
    assert!(action_state.released(RUN));
    assert!(action_state.just_released(RUN));

    // Waiting.
    action_state.tick(1002, 1001);
    action_state.update(input_map.which_pressed(&snap, ClashStrategy::PressAll));

    assert!(!action_state.pressed(RUN));
    assert!(!action_state.just_pressed(RUN));
    assert!(action_state.released(RUN));
    assert!(!action_state.just_released(RUN));
}

#[test]
fn repeated_press_is_idempotent() {
    let mut once = ActionState::default();
    once.press(RUN);

    let mut thrice = ActionState::default();
    thrice.press(RUN);
    thrice.press(RUN);
    thrice.press(RUN);

    assert_eq!(once.action_data(RUN), thrice.action_data(RUN));
    assert!(thrice.just_pressed(RUN));
    // The timing flipped exactly once: the snapshot stayed at zero.
    assert_eq!(thrice.previous_duration(RUN), 0);
    assert_eq!(thrice.current_duration(RUN), 0);
}

#[test]
fn repeated_release_is_idempotent() {
    let mut once = ActionState::default();
    once.press(RUN);
    once.release(RUN);

    let mut twice = ActionState::default();
    twice.press(RUN);
    twice.release(RUN);
    twice.release(RUN);

    assert_eq!(once.action_data(RUN), twice.action_data(RUN));
    assert!(twice.just_released(RUN));
}

#[test]
fn tick_collapses_just_flags_exactly_once() {
    let mut state = ActionState::default();
    state.press(RUN);
    assert!(state.just_pressed(RUN));

    state.tick(11, 10);
    assert!(state.pressed(RUN));
    assert!(!state.just_pressed(RUN));

    let before = state.action_data(RUN).copied().map(|d| d.state);
    state.tick(12, 11);
    let after = state.action_data(RUN).copied().map(|d| d.state);
    assert_eq!(before, Some(ButtonState::Pressed));
    assert_eq!(before, after);
}

#[test]
fn release_clears_consumption() {
    let mut state = ActionState::default();
    state.consume(RUN);
    assert!(state.consumed(RUN));
    state.release(RUN);
    assert!(!state.consumed(RUN));
    state.press(RUN);
    assert!(state.pressed(RUN));
}

#[test]
fn consumption_blocks_press() {
    let mut state = ActionState::default();
    state.press(RUN);
    assert!(state.pressed(RUN));
    state.consume(RUN);
    assert!(state.released(RUN));
    state.press(RUN);
    assert!(state.released(RUN));
    assert!(!state.pressed(RUN));
    assert!(state.consumed(RUN));
}

#[test]
fn consumption_freezes_duration() {
    let mut state = ActionState::default();
    state.press(RUN);
    state.tick(100, 90);
    state.tick(110, 100);
    assert_eq!(state.current_duration(RUN), 10);

    state.consume(RUN);
    let frozen = state.current_duration(RUN);
    state.tick(120, 110);
    state.tick(130, 120);
    state.tick(140, 130);
    assert_eq!(state.current_duration(RUN), frozen);
    assert!(state.consumed(RUN));
}

#[test]
fn unknown_action_reads_as_never_pressed() {
    let state = ActionState::default();
    assert!(!state.pressed(HIDE));
    assert!(state.released(HIDE));
    assert!(!state.just_pressed(HIDE));
    assert!(!state.just_released(HIDE));
    assert!(!state.consumed(HIDE));
    assert_eq!(state.value(HIDE), 0);
    assert_eq!(state.axis_pair(HIDE), None);
    assert_eq!(state.clamped_axis_pair(HIDE), None);
    assert_eq!(state.instant_started(HIDE), None);
    assert_eq!(state.current_duration(HIDE), 0);
    assert_eq!(state.previous_duration(HIDE), 0);
    assert_eq!(state.action_data(HIDE), None);
}

#[test]
fn run_scenario_end_to_end() {
    let mut state = ActionState::default();
    assert!(state.released(RUN));

    // A tick with nothing pressed is a no-op on the phase.
    state.tick(1, 0);
    assert!(state.released(RUN));
    assert!(!state.just_released(RUN));

    state.press(RUN);
    assert!(state.just_pressed(RUN));

    state.tick(2, 1);
    assert!(state.pressed(RUN));
    assert!(!state.just_pressed(RUN));

    state.release(RUN);
    assert!(state.just_released(RUN));

    state.tick(3, 2);
    assert!(state.released(RUN));
    assert!(!state.just_released(RUN));
}

#[test]
fn tick_anchors_timing_to_tick_boundaries() {
    let mut state = ActionState::default();
    state.press(RUN);
    // The flip left no start instant; the next tick anchors it.
    assert_eq!(state.instant_started(RUN), None);
    assert_eq!(state.current_duration(RUN), 0);

    state.tick(100, 90);
    assert_eq!(state.instant_started(RUN), Some(100));
    assert_eq!(state.current_duration(RUN), 0);

    state.tick(110, 100);
    assert_eq!(state.instant_started(RUN), Some(100));
    assert_eq!(state.current_duration(RUN), 10);

    // Releasing snapshots the held duration and restarts the clock.
    state.release(RUN);
    assert_eq!(state.previous_duration(RUN), 10);
    assert_eq!(state.current_duration(RUN), 0);
    assert_eq!(state.instant_started(RUN), None);
}

#[test]
fn update_merges_and_preserves_timing_and_consumption() {
    let mut state = ActionState::default();
    state.press(RUN);
    state.tick(100, 90);
    state.tick(110, 100);
    let held = state.current_duration(RUN);
    assert_eq!(held, 10);

    // An incoming pressed datum refreshes value and axis but keeps timing.
    let mut batch = IdMap::new();
    let incoming = ActionData {
        state: ButtonState::JustPressed,
        value: 700,
        axis_pair: None,
        timing: Default::default(),
        consumed: false,
    };
    batch.set(RUN, incoming);
    state.update(batch);
    assert!(state.pressed(RUN));
    assert!(!state.just_pressed(RUN));
    assert_eq!(state.value(RUN), 700);
    assert_eq!(state.current_duration(RUN), held);

    // A consumed action stays consumed across an update, and the incoming
    // phase drives the button state directly.
    state.consume(RUN);
    assert!(state.released(RUN));
    let mut batch = IdMap::new();
    batch.set(RUN, incoming);
    state.update(batch);
    assert!(state.pressed(RUN));
    assert!(state.consumed(RUN));

    // An unknown action receives the incoming datum verbatim.
    let mut batch = IdMap::new();
    batch.set(JUMP, incoming);
    state.update(batch);
    assert!(state.just_pressed(JUMP));
    assert_eq!(state.value(JUMP), 700);
}

#[test]
fn consume_all_and_release_all_touch_every_known_action() {
    let mut state = ActionState::default();
    state.press(RUN);
    state.press(JUMP);
    state.consume_all();
    assert!(state.consumed(RUN));
    assert!(state.consumed(JUMP));
    assert!(state.released(RUN));
    assert!(state.released(JUMP));
    // An action the map never saw is untouched.
    assert!(!state.consumed(HIDE));

    state.release_all();
    assert!(!state.consumed(RUN));
    assert!(!state.consumed(JUMP));
    state.press(RUN);
    assert!(state.pressed(RUN));
}

#[test]
fn pressed_and_released_key_lists() {
    let mut state = ActionState::default();
    state.press(RUN);
    state.press(JUMP);
    state.release(JUMP);

    let pressed = state.get_pressed();
    assert_eq!(pressed, vec![RUN]);
    let just_pressed = state.get_just_pressed();
    assert_eq!(just_pressed, vec![RUN]);
    let released = state.get_released();
    assert_eq!(released, vec![JUMP]);
    let just_released = state.get_just_released();
    assert_eq!(just_released, vec![JUMP]);
    let mut keys = state.keys();
    keys.sort();
    assert_eq!(keys, vec![RUN, JUMP]);

    state.tick(5, 4);
    assert!(state.get_just_pressed().is_empty());
    assert!(state.get_just_released().is_empty());
    assert_eq!(state.get_pressed(), vec![RUN]);
}

#[test]
fn action_data_mut_writes_through() {
    let mut state = ActionState::default();
    assert!(state.action_data_mut(RUN).is_none());

    state.press(RUN);
    {
        let datum = state.action_data_mut(RUN).unwrap();
        datum.value = 321;
    }
    assert_eq!(state.value(RUN), 321);
}

#[test]
fn set_action_data_transfers_a_datum() {
    let mut donor = ActionState::default();
    donor.press(RUN);
    donor.tick(20, 10);
    let datum = *donor.action_data(RUN).unwrap();

    let mut state = ActionState::default();
    state.set_action_data(JUMP, datum);
    assert!(state.pressed(JUMP));
    assert_eq!(state.instant_started(JUMP), donor.instant_started(RUN));
}
