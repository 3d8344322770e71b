//! Tick-anchored duration bookkeeping for one action.

use vstd::prelude::*;

verus! {

/// When a button-like action last changed state, and for how long it has
/// held its current state.
///
/// Timestamps and durations are `u64` ticks of whatever monotonic clock the
/// caller samples once per frame.
///
/// A state flip ([`Timing::flip`]) snapshots `current_duration` into
/// `previous_duration`, zeroes `current_duration` and clears
/// `instant_started`; the next [`Timing::tick`] then anchors
/// `instant_started` to that tick's timestamp.  Durations are therefore
/// always measured from tick boundaries, never from the sub-frame moment at
/// which a press or release call happened.
#[derive(Clone, Copy, Debug, PartialEq, Eq, Hash)]
pub struct Timing {
    /// The tick timestamp at which the current state was first seen by a
    /// tick, or `None` if no tick has run since the last state flip (or
    /// since construction).
    pub instant_started: Option<u64>,
    /// How long the action has held its current state.
    pub current_duration: u64,
    /// The value `current_duration` had when the state last flipped.
    pub previous_duration: u64,
}

impl Timing {
    /// The timing after a state flip: the duration held so far is
    /// snapshotted into `previous_duration`, the current duration restarts
    /// at zero, and the start instant is cleared until the next tick.
    pub open spec fn spec_flip(self) -> Timing {
        Timing {
            instant_started: None,
            current_duration: 0,
            previous_duration: self.current_duration,
        }
    }

    /// The timing after a tick at `current_instant`, where the previous
    /// tick ran at `previous_instant`: an unset start instant is set to
    /// `current_instant`, and the current duration becomes the time from
    /// the later of the start instant and `previous_instant` up to
    /// `current_instant` (zero when the clock did not advance that far).
    pub open spec fn spec_tick(self, current_instant: u64, previous_instant: u64) -> Timing {
        let started = match self.instant_started {
            Some(s) => s,
            None => current_instant,
        };
        let anchor = if started >= previous_instant {
            started
        } else {
            previous_instant
        };
        let duration = if current_instant >= anchor {
            (current_instant - anchor) as u64
        } else {
            0u64
        };
        Timing {
            instant_started: Some(started),
            current_duration: duration,
            previous_duration: self.previous_duration,
        }
    }

    /// Record a state flip; see [`Timing::spec_flip`].
    pub fn flip(&mut self)
        ensures
            *final(self) == old(self).spec_flip(),
    {
        self.previous_duration = self.current_duration;
        self.current_duration = 0;
        self.instant_started = None;
    }

    /// Advance one tick; see [`Timing::spec_tick`].
    pub fn tick(&mut self, current_instant: u64, previous_instant: u64)
        ensures
            *final(self) == old(self).spec_tick(current_instant, previous_instant),
    {
        let started: u64 = match self.instant_started {
            Some(s) => s,
            None => current_instant,
        };
        let anchor: u64 = if started >= previous_instant {
            started
        } else {
            previous_instant
        };
        self.current_duration = if current_instant >= anchor {
            current_instant - anchor
        } else {
            0
        };
        self.instant_started = Some(started);
    }
}

impl Default for Timing {
    /// Fresh timing: no start instant, zero durations.
    fn default() -> (r: Self)
        ensures
            r == (Timing { instant_started: None, current_duration: 0, previous_duration: 0 }),
    {
        Timing { instant_started: None, current_duration: 0, previous_duration: 0 }
    }
}

/// Law: a tick never alters the snapshot of the previous state's duration,
/// and once a start instant is set, further ticks keep it.
pub proof fn lemma_tick_keeps_anchor(t: Timing, c1: u64, p1: u64, c2: u64, p2: u64)
    ensures
        t.spec_tick(c1, p1).previous_duration == t.previous_duration,
        t.spec_tick(c1, p1).spec_tick(c2, p2).instant_started == t.spec_tick(c1, p1).instant_started,
{
}

} // verus!
