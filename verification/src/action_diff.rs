//! Compact events describing one action-state change, for transport.

use vstd::prelude::*;

verus! {

/// A minimal event sufficient to replay one state transition remotely.
///
/// A stream of these, applied in per-action order through
/// [`crate::action_state::ActionState::apply_diff`], reconstructs the
/// pressed/value/axis readings of the originating action state.  Values
/// and axis components are in the fixed-point units of
/// [`crate::VALUE_SCALE`].
#[derive(Clone, Copy, Debug, PartialEq, Eq)]
pub enum ActionDiff {
    /// The action was pressed, at the full one-unit value.
    Pressed {
        /// The acted-on action.
        action: u32,
    },
    /// The action was released; its value and axis sample are cleared.
    Released {
        /// The acted-on action.
        action: u32,
    },
    /// The action was pressed with an explicit value.
    ValueChanged {
        /// The acted-on action.
        action: u32,
        /// The new value.
        value: i64,
    },
    /// The action was pressed with a two-dimensional axis sample; its
    /// value becomes the sample's magnitude.
    AxisPairChanged {
        /// The acted-on action.
        action: u32,
        /// The new axis sample, as an x/y component pair.
        axis_pair: (i32, i32),
    },
}

} // verus!
