//! The four-phase state of a button-like action.

use vstd::prelude::*;

verus! {

/// The current phase of a button-like action.
///
/// `JustPressed` and `JustReleased` are transient: they record that an edge
/// happened since the last tick, and [`ButtonState::tick`] collapses them
/// into the steady `Pressed` and `Released` phases.  Repeated presses (or
/// releases) within one tick window are idempotent: pressing an already
/// pressed button changes nothing.
#[derive(Clone, Copy, Debug, PartialEq, Eq, Hash)]
pub enum ButtonState {
    /// The button has been held since before the last tick.
    Pressed,
    /// The button was pressed since the last tick.
    JustPressed,
    /// The button has been up since before the last tick.
    Released,
    /// The button was released since the last tick.
    JustReleased,
}

impl ButtonState {
    /// Is this phase one of the two pressed phases?
    pub open spec fn is_pressed(self) -> bool {
        self is Pressed || self is JustPressed
    }

    /// Is this phase one of the two released phases?
    pub open spec fn is_released(self) -> bool {
        self is Released || self is JustReleased
    }

    /// The phase after a press call: a released button becomes
    /// `JustPressed`, a pressed one is left alone.
    pub open spec fn spec_press(self) -> ButtonState {
        if self.is_released() {
            ButtonState::JustPressed
        } else {
            self
        }
    }

    /// The phase after a release call: a pressed button becomes
    /// `JustReleased`, a released one is left alone.
    pub open spec fn spec_release(self) -> ButtonState {
        if self.is_pressed() {
            ButtonState::JustReleased
        } else {
            self
        }
    }

    /// The phase after a tick: the transient `Just*` phases decay into the
    /// steady ones, the steady ones are unchanged.
    pub open spec fn spec_tick(self) -> ButtonState {
        match self {
            ButtonState::JustPressed => ButtonState::Pressed,
            ButtonState::JustReleased => ButtonState::Released,
            _ => self,
        }
    }

    /// Press the button: a released button becomes `JustPressed`.
    pub fn press(&mut self)
        ensures
            *final(self) == old(self).spec_press(),
    {
        if self.released() {
            *self = ButtonState::JustPressed;
        }
    }

    /// Release the button: a pressed button becomes `JustReleased`.
    pub fn release(&mut self)
        ensures
            *final(self) == old(self).spec_release(),
    {
        if self.pressed() {
            *self = ButtonState::JustReleased;
        }
    }

    /// Advance one tick: `JustPressed` decays to `Pressed` and
    /// `JustReleased` to `Released`.  This is the only operation that decays
    /// the transient phases.
    pub fn tick(&mut self)
        ensures
            *final(self) == old(self).spec_tick(),
    {
        match *self {
            ButtonState::JustPressed => {
                *self = ButtonState::Pressed;
            }
            ButtonState::JustReleased => {
                *self = ButtonState::Released;
            }
            _ => {}
        }
    }

    /// Is the button pressed (`Pressed` or `JustPressed`)?
    pub fn pressed(&self) -> (r: bool)
        ensures
            r == self.is_pressed(),
    {
        matches!(*self, ButtonState::Pressed | ButtonState::JustPressed)
    }

    /// Is the button released (`Released` or `JustReleased`)?
    ///
    /// Always the logical negation of [`ButtonState::pressed`].
    pub fn released(&self) -> (r: bool)
        ensures
            r == self.is_released(),
            r == !self.is_pressed(),
    {
        matches!(*self, ButtonState::Released | ButtonState::JustReleased)
    }

    /// Was the button pressed since the last tick?
    pub fn just_pressed(&self) -> (r: bool)
        ensures
            r == (self is JustPressed),
    {
        matches!(*self, ButtonState::JustPressed)
    }

    /// Was the button released since the last tick?
    pub fn just_released(&self) -> (r: bool)
        ensures
            r == (self is JustReleased),
    {
        matches!(*self, ButtonState::JustReleased)
    }
}

impl Default for ButtonState {
    /// A button-like action starts out fully released.
    fn default() -> (r: Self)
        ensures
            r == ButtonState::Released,
    {
        ButtonState::Released
    }
}

/// Law: pressing is idempotent within a tick window.  However many times a
/// button is pressed before the next tick, the phase is the one reached by
/// the first press.
pub proof fn lemma_press_idempotent(s: ButtonState)
    ensures
        s.spec_press().spec_press() == s.spec_press(),
{
}

/// Law: releasing is idempotent within a tick window.
pub proof fn lemma_release_idempotent(s: ButtonState)
    ensures
        s.spec_release().spec_release() == s.spec_release(),
{
}

/// Law: a tick collapses the transient phases exactly once.  After one tick
/// following a press the phase is steady `Pressed`; a further tick with no
/// intervening edge changes nothing.
pub proof fn lemma_tick_collapses_once(s: ButtonState)
    ensures
        s.spec_press().spec_tick() == ButtonState::Pressed,
        s.spec_release().spec_tick() == ButtonState::Released,
        s.spec_tick().spec_tick() == s.spec_tick(),
{
}

} // verus!
