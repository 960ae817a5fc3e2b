//! Key transitions and application-level signals.

use vstd::prelude::*;

verus! {

/// A validated transition of one physical switch.
#[derive(Clone, Copy, Debug, PartialEq, Eq, Structural)]
pub enum KeyEvent {
    /// The switch at `(row, col)` went down.
    Press(u8, u8),
    /// The switch at `(row, col)` went up.
    Release(u8, u8),
}

impl KeyEvent {
    /// Coordinate `(row, col)` of the switch that moved.
    pub open spec fn spec_coord(self) -> (u8, u8) {
        match self {
            KeyEvent::Press(r, c) => (r, c),
            KeyEvent::Release(r, c) => (r, c),
        }
    }

    /// Coordinate `(row, col)` of the switch that moved.
    #[verifier::when_used_as_spec(spec_coord)]
    pub fn coord(self) -> (rc: (u8, u8))
        ensures
            rc == self.spec_coord(),
    {
        match self {
            KeyEvent::Press(r, c) => (r, c),
            KeyEvent::Release(r, c) => (r, c),
        }
    }

    /// Whether the event is a press.
    pub open spec fn spec_is_press(self) -> bool {
        self is Press
    }

    /// Whether the event is a press.
    #[verifier::when_used_as_spec(spec_is_press)]
    pub fn is_press(self) -> (b: bool)
        ensures
            b == self.spec_is_press(),
    {
        match self {
            KeyEvent::Press(_, _) => true,
            KeyEvent::Release(_, _) => false,
        }
    }
}

/// A signal for the application, raised by the key reserved for it.
#[derive(Clone, Copy, Debug, PartialEq, Eq, Structural)]
pub enum CustomEvent {
    /// Nothing happened to the reserved key.
    NoEvent,
    /// The reserved key went down.
    Press,
    /// The reserved key went up.
    Release,
}

/// One input of the layout engine.
#[derive(Clone, Copy, Debug, PartialEq, Eq, Structural)]
pub enum Input {
    /// A validated key transition.
    Key(KeyEvent),
    /// The passing of one tick.
    Tick,
}

} // verus!
