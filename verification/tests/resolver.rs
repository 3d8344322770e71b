//! Binding resolution and clash arbitration.

use input_actions::VALUE_SCALE;
use input_actions::action_state::ActionState;
use input_actions::axislike::DualAxisData;
use input_actions::id_map::IdMap;
use input_actions::input_map::{Binding, ClashStrategy, InputMap, RawActivation};

const RUN: u32 = 0;
const JUMP: u32 = 1;
const DASH: u32 = 2;

const KEY_A: u32 = 10;
const KEY_B: u32 = 11;
const KEY_C: u32 = 12;
const STICK: u32 = 13;

fn button(snap: &mut IdMap<RawActivation>, key: u32) {
    snap.set(key, RawActivation { value: VALUE_SCALE, axis_pair: None });
}

#[test]
fn single_binding_presses_its_action() {
    let mut map = InputMap::new();
    map.insert(RUN, Binding::single(KEY_A));

    let mut snap = IdMap::new();
    button(&mut snap, KEY_A);

    let mut state = ActionState::default();
    state.update(map.which_pressed(&snap, ClashStrategy::PressAll));
    assert!(state.just_pressed(RUN));
    assert_eq!(state.value(RUN), VALUE_SCALE);
    assert!(state.released(JUMP));
}

#[test]
fn values_of_simultaneous_bindings_add_up() {
    let mut map = InputMap::new();
    map.insert(RUN, Binding::single(KEY_A));
    map.insert(RUN, Binding::single(KEY_B));

    let mut snap = IdMap::new();
    snap.set(KEY_A, RawActivation { value: 600, axis_pair: None });
    snap.set(KEY_B, RawActivation { value: 700, axis_pair: None });

    let mut state = ActionState::default();
    state.update(map.which_pressed(&snap, ClashStrategy::PressAll));
    assert!(state.pressed(RUN));
    assert_eq!(state.value(RUN), 1300);
    assert_eq!(state.clamped_value(RUN), VALUE_SCALE);
}

#[test]
fn chord_fires_only_when_complete() {
    let mut map = InputMap::new();
    map.insert(DASH, Binding::chord(vec![KEY_A, KEY_B]));

    let mut snap = IdMap::new();
    button(&mut snap, KEY_A);

    let batch = map.which_pressed(&snap, ClashStrategy::PressAll);
    let mut state = ActionState::default();
    state.update(batch);
    assert!(state.released(DASH));
    assert_eq!(state.value(DASH), 0);

    button(&mut snap, KEY_B);
    let mut state = ActionState::default();
    state.update(map.which_pressed(&snap, ClashStrategy::PressAll));
    assert!(state.just_pressed(DASH));
}

#[test]
fn press_all_lets_overlapping_bindings_clash() {
    let mut map = InputMap::new();
    map.insert(RUN, Binding::single(KEY_A));
    map.insert(DASH, Binding::chord(vec![KEY_A, KEY_B]));

    let mut snap = IdMap::new();
    button(&mut snap, KEY_A);
    button(&mut snap, KEY_B);

    let mut state = ActionState::default();
    state.update(map.which_pressed(&snap, ClashStrategy::PressAll));
    assert!(state.pressed(RUN));
    assert!(state.pressed(DASH));
}

#[test]
fn prioritize_longest_suppresses_the_contained_chord() {
    let mut map = InputMap::new();
    map.insert(RUN, Binding::single(KEY_A));
    map.insert(DASH, Binding::chord(vec![KEY_A, KEY_B]));

    let mut snap = IdMap::new();
    button(&mut snap, KEY_A);
    button(&mut snap, KEY_B);

    let mut state = ActionState::default();
    state.update(map.which_pressed(&snap, ClashStrategy::PrioritizeLongest));
    assert!(state.released(RUN));
    assert!(state.pressed(DASH));

    // With only the short chord down there is no clash to arbitrate.
    let mut snap = IdMap::new();
    button(&mut snap, KEY_A);
    let mut state = ActionState::default();
    state.update(map.which_pressed(&snap, ClashStrategy::PrioritizeLongest));
    assert!(state.pressed(RUN));
    assert!(state.released(DASH));
}

#[test]
fn identical_snapshots_resolve_identically() {
    let mut forward = InputMap::new();
    forward.insert(RUN, Binding::single(KEY_A));
    forward.insert(DASH, Binding::chord(vec![KEY_A, KEY_B]));
    forward.insert(JUMP, Binding::single(KEY_C));

    let mut backward = InputMap::new();
    backward.insert(JUMP, Binding::single(KEY_C));
    backward.insert(DASH, Binding::chord(vec![KEY_A, KEY_B]));
    backward.insert(RUN, Binding::single(KEY_A));

    let mut snap = IdMap::new();
    button(&mut snap, KEY_A);
    button(&mut snap, KEY_B);

    for strategy in [ClashStrategy::PressAll, ClashStrategy::PrioritizeLongest] {
        let mut from_forward = ActionState::default();
        from_forward.update(forward.which_pressed(&snap, strategy));
        let mut from_backward = ActionState::default();
        from_backward.update(backward.which_pressed(&snap, strategy));
        for action in [RUN, JUMP, DASH] {
            assert_eq!(from_forward.pressed(action), from_backward.pressed(action));
            assert_eq!(from_forward.value(action), from_backward.value(action));
            assert_eq!(from_forward.axis_pair(action), from_backward.axis_pair(action));
        }
    }
}

#[test]
fn summed_contributions_saturate_instead_of_wrapping() {
    let mut map = InputMap::new();
    map.insert(RUN, Binding::single(KEY_A));
    map.insert(RUN, Binding::single(KEY_B));

    let mut snap = IdMap::new();
    snap.set(KEY_A, RawActivation { value: i64::MAX, axis_pair: None });
    snap.set(KEY_B, RawActivation { value: 5, axis_pair: None });

    let mut state = ActionState::default();
    state.update(map.which_pressed(&snap, ClashStrategy::PressAll));
    assert_eq!(state.value(RUN), i64::MAX);

    let mut snap = IdMap::new();
    snap.set(
        KEY_A,
        RawActivation { value: 0, axis_pair: Some(DualAxisData::new(i32::MAX, i32::MIN)) },
    );
    snap.set(
        KEY_B,
        RawActivation { value: 0, axis_pair: Some(DualAxisData::new(10, -10)) },
    );
    let mut state = ActionState::default();
    state.update(map.which_pressed(&snap, ClashStrategy::PressAll));
    assert_eq!(state.axis_pair(RUN), Some(DualAxisData::new(i32::MAX, i32::MIN)));
}

#[test]
fn unbound_inputs_are_ignored_and_unbound_actions_yield_nothing() {
    let mut map = InputMap::new();
    map.insert(RUN, Binding::single(KEY_A));

    let mut snap = IdMap::new();
    button(&mut snap, KEY_C);

    let batch = map.which_pressed(&snap, ClashStrategy::PressAll);
    let mut state = ActionState::default();
    state.update(batch);
    // KEY_C is bound to nothing, so nothing fires; JUMP has no bindings,
    // so it is not even known to the state.
    assert!(state.released(RUN));
    assert!(state.action_data(JUMP).is_none());
    assert_eq!(state.keys(), vec![RUN]);
}

#[test]
fn axis_sample_of_the_triggering_binding_flows_through() {
    let mut map = InputMap::new();
    map.insert(RUN, Binding::single(STICK));

    let mut snap = IdMap::new();
    snap.set(
        STICK,
        RawActivation { value: 500, axis_pair: Some(DualAxisData::new(300, -400)) },
    );

    let mut state = ActionState::default();
    state.update(map.which_pressed(&snap, ClashStrategy::PressAll));
    assert!(state.pressed(RUN));
    assert_eq!(state.value(RUN), 500);
    assert_eq!(state.axis_pair(RUN), Some(DualAxisData::new(300, -400)));
}

#[test]
fn axis_samples_of_simultaneous_bindings_add_up() {
    let mut map = InputMap::new();
    map.insert(RUN, Binding::single(KEY_A));
    map.insert(RUN, Binding::single(STICK));

    let mut snap = IdMap::new();
    snap.set(KEY_A, RawActivation { value: 0, axis_pair: Some(DualAxisData::new(900, 900)) });
    snap.set(STICK, RawActivation { value: 0, axis_pair: Some(DualAxisData::new(300, -400)) });

    let mut state = ActionState::default();
    state.update(map.which_pressed(&snap, ClashStrategy::PressAll));
    assert_eq!(state.axis_pair(RUN), Some(DualAxisData::new(1200, 500)));
    assert_eq!(
        state.clamped_axis_pair(RUN),
        Some(DualAxisData::new(VALUE_SCALE as i32, 500))
    );
}
