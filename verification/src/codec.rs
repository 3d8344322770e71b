//! Hand-written wire encoding of the small value types.
//!
//! [`ActionDiff`] and [`ActionData`] (button phase and timing included)
//! are framed as a tag or flag byte followed by their fields, each an
//! unsigned little-endian integer of fixed width; signed fields travel as
//! their two's-complement bits, absent optional fields as zeroes.  The
//! decoders accept exactly the byte strings that the encoders produce,
//! and the round-trip laws prove that decoding an encoding gives the
//! original value back.

use vstd::prelude::*;

use crate::action_diff::ActionDiff;
use crate::action_state::ActionData;
use crate::axislike::DualAxisData;
use crate::buttonlike::ButtonState;
use crate::timing::Timing;

verus! {

/// The four little-endian bytes of a `u32`.
pub open spec fn le32(v: u32) -> Seq<u8> {
    seq![v as u8, (v >> 8) as u8, (v >> 16) as u8, (v >> 24) as u8]
}

/// The eight little-endian bytes of a `u64`.
pub open spec fn le64(v: u64) -> Seq<u8> {
    seq![
        v as u8,
        (v >> 8) as u8,
        (v >> 16) as u8,
        (v >> 24) as u8,
        (v >> 32) as u8,
        (v >> 40) as u8,
        (v >> 48) as u8,
        (v >> 56) as u8,
    ]
}

/// The `u32` whose little-endian bytes start at `off`.
pub open spec fn u32_of(bytes: Seq<u8>, off: int) -> u32 {
    (bytes[off] as u32) | ((bytes[off + 1] as u32) << 8) | ((bytes[off + 2] as u32) << 16) | (
    (bytes[off + 3] as u32) << 24)
}

/// The `u64` whose little-endian bytes start at `off`.
pub open spec fn u64_of(bytes: Seq<u8>, off: int) -> u64 {
    (bytes[off] as u64) | ((bytes[off + 1] as u64) << 8) | ((bytes[off + 2] as u64) << 16) | (
    (bytes[off + 3] as u64) << 24) | ((bytes[off + 4] as u64) << 32) | ((bytes[off + 5] as u64)
        << 40) | ((bytes[off + 6] as u64) << 48) | ((bytes[off + 7] as u64) << 56)
}

/// The wire form of a diff: a tag byte, the action identifier, and the
/// variant's payload, if any.
pub open spec fn spec_encode(diff: ActionDiff) -> Seq<u8> {
    match diff {
        ActionDiff::Pressed { action } => seq![0u8] + le32(action),
        ActionDiff::Released { action } => seq![1u8] + le32(action),
        ActionDiff::ValueChanged { action, value } => seq![2u8] + le32(action) + le64(
            value as u64,
        ),
        ActionDiff::AxisPairChanged { action, axis_pair } => seq![3u8] + le32(action) + le32(
            axis_pair.0 as u32,
        ) + le32(axis_pair.1 as u32),
    }
}

/// The diff a byte string stands for, or `None` where it is not a wire
/// form that [`spec_encode`] produces.
pub open spec fn spec_decode(bytes: Seq<u8>) -> Option<ActionDiff> {
    if bytes.len() == 0 {
        None
    } else if bytes[0] == 0 && bytes.len() == 5 {
        Some(ActionDiff::Pressed { action: u32_of(bytes, 1) })
    } else if bytes[0] == 1 && bytes.len() == 5 {
        Some(ActionDiff::Released { action: u32_of(bytes, 1) })
    } else if bytes[0] == 2 && bytes.len() == 13 {
        Some(
            ActionDiff::ValueChanged { action: u32_of(bytes, 1), value: u64_of(bytes, 5) as i64 },
        )
    } else if bytes[0] == 3 && bytes.len() == 13 {
        Some(
            ActionDiff::AxisPairChanged {
                action: u32_of(bytes, 1),
                axis_pair: (u32_of(bytes, 5) as i32, u32_of(bytes, 9) as i32),
            },
        )
    } else {
        None
    }
}

fn push_le32(out: &mut Vec<u8>, v: u32)
    ensures
        final(out)@ == old(out)@ + le32(v),
{
    out.push(#[verifier::truncate] (v as u8));
    out.push(#[verifier::truncate] ((v >> 8) as u8));
    out.push(#[verifier::truncate] ((v >> 16) as u8));
    out.push(#[verifier::truncate] ((v >> 24) as u8));
    proof {
        assert(final(out)@ =~= old(out)@ + le32(v));
    }
}

fn push_le64(out: &mut Vec<u8>, v: u64)
    ensures
        final(out)@ == old(out)@ + le64(v),
{
    out.push(#[verifier::truncate] (v as u8));
    out.push(#[verifier::truncate] ((v >> 8) as u8));
    out.push(#[verifier::truncate] ((v >> 16) as u8));
    out.push(#[verifier::truncate] ((v >> 24) as u8));
    out.push(#[verifier::truncate] ((v >> 32) as u8));
    out.push(#[verifier::truncate] ((v >> 40) as u8));
    out.push(#[verifier::truncate] ((v >> 48) as u8));
    out.push(#[verifier::truncate] ((v >> 56) as u8));
    proof {
        assert(final(out)@ =~= old(out)@ + le64(v));
    }
}

fn read_u32(bytes: &Vec<u8>, off: usize) -> (r: u32)
    requires
        off + 4 <= bytes@.len(),
    ensures
        r == u32_of(bytes@, off as int),
{
    let _n: usize = bytes.len();
    (bytes[off] as u32) | ((bytes[off + 1] as u32) << 8) | ((bytes[off + 2] as u32) << 16) | (
    (bytes[off + 3] as u32) << 24)
}

fn read_u64(bytes: &Vec<u8>, off: usize) -> (r: u64)
    requires
        off + 8 <= bytes@.len(),
    ensures
        r == u64_of(bytes@, off as int),
{
    let _n: usize = bytes.len();
    (bytes[off] as u64) | ((bytes[off + 1] as u64) << 8) | ((bytes[off + 2] as u64) << 16) | (
    (bytes[off + 3] as u64) << 24) | ((bytes[off + 4] as u64) << 32) | ((bytes[off + 5] as u64)
        << 40) | ((bytes[off + 6] as u64) << 48) | ((bytes[off + 7] as u64) << 56)
}

/// Write a diff in its wire form.
pub fn encode(diff: &ActionDiff) -> (r: Vec<u8>)
    ensures
        r@ == spec_encode(*diff),
{
    let mut out: Vec<u8> = Vec::new();
    match *diff {
        ActionDiff::Pressed { action } => {
            out.push(0u8);
            push_le32(&mut out, action);
        }
        ActionDiff::Released { action } => {
            out.push(1u8);
            push_le32(&mut out, action);
        }
        ActionDiff::ValueChanged { action, value } => {
            out.push(2u8);
            push_le32(&mut out, action);
            push_le64(&mut out, #[verifier::truncate] (value as u64));
        }
        ActionDiff::AxisPairChanged { action, axis_pair } => {
            out.push(3u8);
            push_le32(&mut out, action);
            push_le32(&mut out, #[verifier::truncate] (axis_pair.0 as u32));
            push_le32(&mut out, #[verifier::truncate] (axis_pair.1 as u32));
        }
    }
    proof {
        assert(out@ =~= spec_encode(*diff));
    }
    out
}

/// Read a diff back from its wire form; `None` for any byte string that
/// [`encode`] cannot have produced.
pub fn decode(bytes: &Vec<u8>) -> (r: Option<ActionDiff>)
    ensures
        r == spec_decode(bytes@),
{
    if bytes.len() == 0 {
        return None;
    }
    let tag = bytes[0];
    if tag == 0 && bytes.len() == 5 {
        Some(ActionDiff::Pressed { action: read_u32(bytes, 1) })
    } else if tag == 1 && bytes.len() == 5 {
        Some(ActionDiff::Released { action: read_u32(bytes, 1) })
    } else if tag == 2 && bytes.len() == 13 {
        let value = #[verifier::truncate] (read_u64(bytes, 5) as i64);
        Some(ActionDiff::ValueChanged { action: read_u32(bytes, 1), value })
    } else if tag == 3 && bytes.len() == 13 {
        let x = #[verifier::truncate] (read_u32(bytes, 5) as i32);
        let y = #[verifier::truncate] (read_u32(bytes, 9) as i32);
        Some(ActionDiff::AxisPairChanged { action: read_u32(bytes, 1), axis_pair: (x, y) })
    } else {
        None
    }
}

/// The wire byte of a button phase.
pub open spec fn state_byte(s: ButtonState) -> u8 {
    match s {
        ButtonState::Pressed => 0u8,
        ButtonState::JustPressed => 1u8,
        ButtonState::Released => 2u8,
        ButtonState::JustReleased => 3u8,
    }
}

/// The button phase a wire byte stands for.
pub open spec fn byte_state(b: u8) -> Option<ButtonState> {
    if b == 0 {
        Some(ButtonState::Pressed)
    } else if b == 1 {
        Some(ButtonState::JustPressed)
    } else if b == 2 {
        Some(ButtonState::Released)
    } else if b == 3 {
        Some(ButtonState::JustReleased)
    } else {
        None
    }
}

/// The wire form of a whole action datum: the button phase byte, the
/// value, the axis sample behind a presence flag, the timing — start
/// instant behind a presence flag, then both durations — and the
/// consumption flag.  Absent optional fields are encoded as zeroes.
pub open spec fn spec_encode_data(d: ActionData) -> Seq<u8> {
    seq![state_byte(d.state)] + le64(d.value as u64) + (match d.axis_pair {
        Some(p) => seq![1u8] + le32(p.x as u32) + le32(p.y as u32),
        None => seq![0u8] + le32(0u32) + le32(0u32),
    }) + (match d.timing.instant_started {
        Some(s) => seq![1u8] + le64(s),
        None => seq![0u8] + le64(0u64),
    }) + le64(d.timing.current_duration) + le64(d.timing.previous_duration) + seq![
        if d.consumed {
            1u8
        } else {
            0u8
        },
    ]
}

/// The action datum a byte string stands for, or `None` where it is not
/// a wire form that [`spec_encode_data`] produces.
pub open spec fn spec_decode_data(bytes: Seq<u8>) -> Option<ActionData> {
    if bytes.len() != 44 {
        None
    } else {
        match byte_state(bytes[0]) {
            None => None,
            Some(st) => {
                let axis_flag = bytes[9];
                let x = u32_of(bytes, 10);
                let y = u32_of(bytes, 14);
                let started_flag = bytes[18];
                let started = u64_of(bytes, 19);
                let consumed_flag = bytes[43];
                if !(axis_flag == 0 || axis_flag == 1) {
                    None
                } else if axis_flag == 0 && !(x == 0 && y == 0) {
                    None
                } else if !(started_flag == 0 || started_flag == 1) {
                    None
                } else if started_flag == 0 && started != 0 {
                    None
                } else if !(consumed_flag == 0 || consumed_flag == 1) {
                    None
                } else {
                    Some(
                        ActionData {
                            state: st,
                            value: u64_of(bytes, 1) as i64,
                            axis_pair: if axis_flag == 1 {
                                Some(DualAxisData { x: x as i32, y: y as i32 })
                            } else {
                                None
                            },
                            timing: Timing {
                                instant_started: if started_flag == 1 {
                                    Some(started)
                                } else {
                                    None
                                },
                                current_duration: u64_of(bytes, 27),
                                previous_duration: u64_of(bytes, 35),
                            },
                            consumed: consumed_flag == 1,
                        },
                    )
                }
            },
        }
    }
}

fn state_to_byte(s: ButtonState) -> (r: u8)
    ensures
        r == state_byte(s),
{
    match s {
        ButtonState::Pressed => 0,
        ButtonState::JustPressed => 1,
        ButtonState::Released => 2,
        ButtonState::JustReleased => 3,
    }
}

/// Write an action datum in its wire form.
pub fn encode_data(d: &ActionData) -> (r: Vec<u8>)
    ensures
        r@ == spec_encode_data(*d),
{
    let mut out: Vec<u8> = Vec::new();
    out.push(state_to_byte(d.state));
    push_le64(&mut out, #[verifier::truncate] (d.value as u64));
    match d.axis_pair {
        Some(p) => {
            out.push(1u8);
            push_le32(&mut out, #[verifier::truncate] (p.x as u32));
            push_le32(&mut out, #[verifier::truncate] (p.y as u32));
        }
        None => {
            out.push(0u8);
            push_le32(&mut out, 0);
            push_le32(&mut out, 0);
        }
    }
    match d.timing.instant_started {
        Some(s) => {
            out.push(1u8);
            push_le64(&mut out, s);
        }
        None => {
            out.push(0u8);
            push_le64(&mut out, 0);
        }
    }
    push_le64(&mut out, d.timing.current_duration);
    push_le64(&mut out, d.timing.previous_duration);
    out.push(if d.consumed {
        1u8
    } else {
        0u8
    });
    proof {
        assert(out@ =~= spec_encode_data(*d));
    }
    out
}

/// Read an action datum back from its wire form; `None` for any byte
/// string that [`encode_data`] cannot have produced.
pub fn decode_data(bytes: &Vec<u8>) -> (r: Option<ActionData>)
    ensures
        r == spec_decode_data(bytes@),
{
    if bytes.len() != 44 {
        return None;
    }
    let tag = bytes[0];
    if tag > 3 {
        return None;
    }
    let state = if tag == 0 {
        ButtonState::Pressed
    } else if tag == 1 {
        ButtonState::JustPressed
    } else if tag == 2 {
        ButtonState::Released
    } else {
        ButtonState::JustReleased
    };
    let axis_flag = bytes[9];
    let x = read_u32(bytes, 10);
    let y = read_u32(bytes, 14);
    let started_flag = bytes[18];
    let started = read_u64(bytes, 19);
    let consumed_flag = bytes[43];
    if !(axis_flag == 0 || axis_flag == 1) {
        return None;
    }
    if axis_flag == 0 && !(x == 0 && y == 0) {
        return None;
    }
    if !(started_flag == 0 || started_flag == 1) {
        return None;
    }
    if started_flag == 0 && started != 0 {
        return None;
    }
    if !(consumed_flag == 0 || consumed_flag == 1) {
        return None;
    }
    let value = #[verifier::truncate] (read_u64(bytes, 1) as i64);
    Some(
        ActionData {
            state,
            value,
            axis_pair: if axis_flag == 1 {
                Some(
                    DualAxisData::new(
                        #[verifier::truncate] (x as i32),
                        #[verifier::truncate] (y as i32),
                    ),
                )
            } else {
                None
            },
            timing: Timing {
                instant_started: if started_flag == 1 {
                    Some(started)
                } else {
                    None
                },
                current_duration: read_u64(bytes, 27),
                previous_duration: read_u64(bytes, 35),
            },
            consumed: consumed_flag == 1,
        },
    )
}

proof fn lemma_u32_round_trip(v: u32)
    ensures
        ((v as u8) as u32) | ((((v >> 8) as u8) as u32) << 8) | ((((v >> 16) as u8) as u32) << 16)
            | ((((v >> 24) as u8) as u32) << 24) == v,
{
    assert(((v as u8) as u32) | ((((v >> 8) as u8) as u32) << 8) | ((((v >> 16) as u8) as u32)
        << 16) | ((((v >> 24) as u8) as u32) << 24) == v) by (bit_vector);
}

proof fn lemma_u64_round_trip(v: u64)
    ensures
        ((v as u8) as u64) | ((((v >> 8) as u8) as u64) << 8) | ((((v >> 16) as u8) as u64) << 16)
            | ((((v >> 24) as u8) as u64) << 24) | ((((v >> 32) as u8) as u64) << 32) | ((((v
            >> 40) as u8) as u64) << 40) | ((((v >> 48) as u8) as u64) << 48) | ((((v >> 56) as u8)
            as u64) << 56) == v,
{
    assert(((v as u8) as u64) | ((((v >> 8) as u8) as u64) << 8) | ((((v >> 16) as u8) as u64)
        << 16) | ((((v >> 24) as u8) as u64) << 24) | ((((v >> 32) as u8) as u64) << 32) | ((((v
        >> 40) as u8) as u64) << 40) | ((((v >> 48) as u8) as u64) << 48) | ((((v >> 56) as u8)
        as u64) << 56) == v) by (bit_vector);
}

/// Law: decoding an encoding gives the original diff back, for every
/// diff.  In particular the encoding is injective.
pub proof fn lemma_codec_round_trip(diff: ActionDiff)
    ensures
        spec_decode(spec_encode(diff)) == Some(diff),
{
    let bytes = spec_encode(diff);
    match diff {
        ActionDiff::Pressed { action } => {
            assert(bytes.len() == 5);
            assert(bytes[0] == 0u8);
            assert(u32_of(bytes, 1) == action) by {
                lemma_u32_round_trip(action);
            }
        },
        ActionDiff::Released { action } => {
            assert(bytes.len() == 5);
            assert(bytes[0] == 1u8);
            assert(u32_of(bytes, 1) == action) by {
                lemma_u32_round_trip(action);
            }
        },
        ActionDiff::ValueChanged { action, value } => {
            assert(bytes.len() == 13);
            assert(bytes[0] == 2u8);
            assert(u32_of(bytes, 1) == action) by {
                lemma_u32_round_trip(action);
            }
            assert(u64_of(bytes, 5) == value as u64) by {
                lemma_u64_round_trip(value as u64);
            }
            assert((value as u64) as i64 == value) by (bit_vector);
        },
        ActionDiff::AxisPairChanged { action, axis_pair } => {
            assert(bytes.len() == 13);
            assert(bytes[0] == 3u8);
            assert(u32_of(bytes, 1) == action) by {
                lemma_u32_round_trip(action);
            }
            assert(u32_of(bytes, 5) == axis_pair.0 as u32) by {
                lemma_u32_round_trip(axis_pair.0 as u32);
            }
            assert(u32_of(bytes, 9) == axis_pair.1 as u32) by {
                lemma_u32_round_trip(axis_pair.1 as u32);
            }
            let x = axis_pair.0;
            let y = axis_pair.1;
            assert((x as u32) as i32 == x) by (bit_vector);
            assert((y as u32) as i32 == y) by (bit_vector);
        },
    }
}

proof fn lemma_u32_of_le32(bytes: Seq<u8>, off: int, v: u32)
    requires
        0 <= off,
        off + 4 <= bytes.len(),
        bytes.subrange(off, off + 4) == le32(v),
    ensures
        u32_of(bytes, off) == v,
{
    assert(bytes[off] == v as u8) by {
        assert(bytes.subrange(off, off + 4)[0] == bytes[off]);
    }
    assert(bytes[off + 1] == (v >> 8) as u8) by {
        assert(bytes.subrange(off, off + 4)[1] == bytes[off + 1]);
    }
    assert(bytes[off + 2] == (v >> 16) as u8) by {
        assert(bytes.subrange(off, off + 4)[2] == bytes[off + 2]);
    }
    assert(bytes[off + 3] == (v >> 24) as u8) by {
        assert(bytes.subrange(off, off + 4)[3] == bytes[off + 3]);
    }
    lemma_u32_round_trip(v);
}

proof fn lemma_u64_of_le64(bytes: Seq<u8>, off: int, v: u64)
    requires
        0 <= off,
        off + 8 <= bytes.len(),
        bytes.subrange(off, off + 8) == le64(v),
    ensures
        u64_of(bytes, off) == v,
{
    assert forall|k: int| 0 <= k < 8 implies bytes[off + k] == le64(v)[k] by {
        assert(bytes.subrange(off, off + 8)[k] == bytes[off + k]);
    }
    assert(bytes[off] == v as u8);
    assert(bytes[off + 1] == (v >> 8) as u8);
    assert(bytes[off + 2] == (v >> 16) as u8);
    assert(bytes[off + 3] == (v >> 24) as u8);
    assert(bytes[off + 4] == (v >> 32) as u8);
    assert(bytes[off + 5] == (v >> 40) as u8);
    assert(bytes[off + 6] == (v >> 48) as u8);
    assert(bytes[off + 7] == (v >> 56) as u8);
    lemma_u64_round_trip(v);
}

/// Law: decoding an encoded action datum gives the original datum back,
/// for every datum; the encoding is injective.
#[verifier::rlimit(60)]
pub proof fn lemma_data_codec_round_trip(d: ActionData)
    ensures
        spec_decode_data(spec_encode_data(d)) == Some(d),
{
    let bytes = spec_encode_data(d);
    assert(bytes.len() == 44);
    assert(bytes[0] == state_byte(d.state));
    assert(byte_state(state_byte(d.state)) == Some(d.state));
    assert(bytes.subrange(1, 9) =~= le64(d.value as u64));
    lemma_u64_of_le64(bytes, 1, d.value as u64);
    let dv = d.value;
    assert((dv as u64) as i64 == dv) by (bit_vector);
    match d.axis_pair {
        Some(p) => {
            assert(bytes[9] == 1u8);
            assert(bytes.subrange(10, 14) =~= le32(p.x as u32));
            assert(bytes.subrange(14, 18) =~= le32(p.y as u32));
            lemma_u32_of_le32(bytes, 10, p.x as u32);
            lemma_u32_of_le32(bytes, 14, p.y as u32);
            let px = p.x;
            let py = p.y;
            assert((px as u32) as i32 == px) by (bit_vector);
            assert((py as u32) as i32 == py) by (bit_vector);
        },
        None => {
            assert(bytes[9] == 0u8);
            assert(bytes.subrange(10, 14) =~= le32(0u32));
            assert(bytes.subrange(14, 18) =~= le32(0u32));
            lemma_u32_of_le32(bytes, 10, 0u32);
            lemma_u32_of_le32(bytes, 14, 0u32);
        },
    }
    match d.timing.instant_started {
        Some(s) => {
            assert(bytes[18] == 1u8);
            assert(bytes.subrange(19, 27) =~= le64(s));
            lemma_u64_of_le64(bytes, 19, s);
        },
        None => {
            assert(bytes[18] == 0u8);
            assert(bytes.subrange(19, 27) =~= le64(0u64));
            lemma_u64_of_le64(bytes, 19, 0u64);
        },
    }
    assert(bytes.subrange(27, 35) =~= le64(d.timing.current_duration));
    lemma_u64_of_le64(bytes, 27, d.timing.current_duration);
    assert(bytes.subrange(35, 43) =~= le64(d.timing.previous_duration));
    lemma_u64_of_le64(bytes, 35, d.timing.previous_duration);
    assert(bytes[43] == (if d.consumed {
        1u8
    } else {
        0u8
    }));
}

} // verus!
