//! The wire form of action diffs and action data.

use input_actions::action_diff::ActionDiff;
use input_actions::action_state::{ActionData, ActionState};
use input_actions::axislike::DualAxisData;
use input_actions::codec::{decode, decode_data, encode, encode_data};

const RUN: u32 = 0x01020304;

#[test]
fn encodings_are_tagged_little_endian() {
    let bytes = encode(&ActionDiff::Pressed { action: RUN });
    assert_eq!(bytes, vec![0, 0x04, 0x03, 0x02, 0x01]);

    let bytes = encode(&ActionDiff::Released { action: 7 });
    assert_eq!(bytes, vec![1, 7, 0, 0, 0]);

    let bytes = encode(&ActionDiff::ValueChanged { action: 7, value: -2 });
    assert_eq!(
        bytes,
        vec![2, 7, 0, 0, 0, 0xfe, 0xff, 0xff, 0xff, 0xff, 0xff, 0xff, 0xff]
    );

    let bytes = encode(&ActionDiff::AxisPairChanged { action: 7, axis_pair: (256, -1) });
    assert_eq!(bytes, vec![3, 7, 0, 0, 0, 0, 1, 0, 0, 0xff, 0xff, 0xff, 0xff]);
}

#[test]
fn every_diff_round_trips() {
    let diffs = [
        ActionDiff::Pressed { action: 0 },
        ActionDiff::Pressed { action: u32::MAX },
        ActionDiff::Released { action: 42 },
        ActionDiff::ValueChanged { action: 1, value: i64::MIN },
        ActionDiff::ValueChanged { action: 1, value: i64::MAX },
        ActionDiff::ValueChanged { action: 1, value: 0 },
        ActionDiff::AxisPairChanged { action: 2, axis_pair: (i32::MIN, i32::MAX) },
        ActionDiff::AxisPairChanged { action: 2, axis_pair: (0, -1) },
    ];
    for diff in diffs {
        assert_eq!(decode(&encode(&diff)), Some(diff));
    }
}

#[test]
fn action_data_round_trips() {
    // A fresh datum, and one with every optional field set.
    let fresh = ActionData::default();
    assert_eq!(decode_data(&encode_data(&fresh)), Some(fresh));

    let mut state = ActionState::default();
    state.press(9);
    state.tick(100, 90);
    state.consume(9);
    let mut rich = *state.action_data(9).unwrap();
    rich.value = -123456789;
    rich.axis_pair = Some(DualAxisData::new(i32::MIN, i32::MAX));
    assert_eq!(decode_data(&encode_data(&rich)), Some(rich));
}

#[test]
fn action_data_wire_form_is_fixed_width() {
    let bytes = encode_data(&ActionData::default());
    assert_eq!(bytes.len(), 44);
    // Released phase, everything else zero.
    assert_eq!(bytes[0], 2);
    assert!(bytes[1..].iter().all(|&b| b == 0));
}

#[test]
fn noncanonical_action_data_bytes_are_rejected() {
    let mut bytes = encode_data(&ActionData::default());
    // A payload in the axis field without its presence flag.
    bytes[10] = 1;
    assert_eq!(decode_data(&bytes), None);

    let bytes = encode_data(&ActionData::default());
    let short = bytes[..43].to_vec();
    assert_eq!(decode_data(&short), None);

    let mut bytes = encode_data(&ActionData::default());
    bytes[0] = 9;
    assert_eq!(decode_data(&bytes), None);
}

#[test]
fn malformed_byte_strings_are_rejected() {
    assert_eq!(decode(&vec![]), None);
    // An unknown tag.
    assert_eq!(decode(&vec![4, 7, 0, 0, 0]), None);
    // A known tag with the wrong payload length.
    assert_eq!(decode(&vec![0, 7, 0, 0]), None);
    assert_eq!(decode(&vec![0, 7, 0, 0, 0, 0]), None);
    assert_eq!(decode(&vec![2, 7, 0, 0, 0]), None);
}
