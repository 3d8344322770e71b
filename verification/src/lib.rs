//! Runtime core of an input-abstraction layer.
//!
//! Raw, heterogeneous input signals (keys, buttons, analog axes, chords) are
//! mapped to logical *actions* that gameplay code queries once per simulation
//! tick.  The crate provides:
//!
//! * [`buttonlike::ButtonState`]: the four-phase pressed/released machine of a
//!   single action, with transient `Just*` phases that a tick collapses;
//! * [`timing::Timing`]: tick-anchored duration bookkeeping for one action;
//! * [`axislike::DualAxisData`]: a two-dimensional axis sample in fixed-point
//!   units;
//! * [`action_state::ActionState`]: the per-action map of button phase,
//!   analog value, axis sample, timing and consumption flag;
//! * [`input_map::InputMap`]: the binding map and clash resolver that turns a
//!   snapshot of active raw inputs into one datum per bound action;
//! * [`action_diff::ActionDiff`]: the compact event form of a state change,
//!   replayed through [`action_state::ActionState::apply_diff`];
//! * [`codec`]: hand-written wire encodings of diffs and action data, with
//!   proven round trips.
//!
//! Actions and raw inputs are identified by stable `u32` discriminants chosen
//! by the application.  Analog values are fixed-point integers where
//! [`VALUE_SCALE`] stands for 1.0; timestamps and durations are plain `u64`
//! ticks of whatever monotonic clock the caller samples.

use vstd::prelude::*;

pub mod action_diff;
pub mod action_state;
pub mod axislike;
pub mod buttonlike;
pub mod codec;
pub mod id_map;
pub mod input_map;
pub mod timing;

verus! {

/// The fixed-point encoding of the analog value 1.0.
///
/// A plain button contributes `VALUE_SCALE` while pressed and 0 while
/// released; analog axes report values scaled by the same factor.
pub const VALUE_SCALE: i64 = 1000;

} // verus!
