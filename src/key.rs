use vstd::prelude::*;

verus! {

/// A decoded keystroke.
#[derive(Clone, Copy, Debug, PartialEq, Eq, Structural)]
pub enum Key {
    Backspace,
    Left,
    Right,
    Up,
    Down,
    Home,
    End,
    PageUp,
    PageDown,
    BackTab,
    Delete,
    Insert,
    /// A function key, by number.
    F(u8),
    /// A plain character.
    Char(char),
    /// A character typed with Alt.
    Alt(char),
    /// A character typed with Ctrl.
    Ctrl(char),
    Null,
    Esc,
}

} // verus!
