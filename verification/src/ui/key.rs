use vstd::prelude::*;

verus! {

/// A key press, as the widgets see it.
#[derive(Debug, Clone, Copy, PartialEq, Eq, Structural)]
pub enum Key {
    Char(char),
    Backspace,
    Left,
    Right,
    Up,
    Down,
    Enter,
    Esc,
    Tab,
    PageUp,
    PageDown,
    /// Any other key.
    Other,
}

} // verus!
