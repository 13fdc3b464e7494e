use vstd::prelude::*;

verus! {

/// A key of the keyboard, as far as the viewer tells keys apart.
#[derive(Debug, Clone, Copy, PartialEq, Eq, Structural)]
pub enum Key {
    Char(char),
    Esc,
    Enter,
    Up,
    Down,
    Left,
    Right,
    PageUp,
    PageDown,
    Delete,
    Other,
}

/// A key press with the modifiers that the viewer reads.
#[derive(Debug, Clone, Copy, PartialEq, Eq, Structural)]
pub struct KeyInput {
    pub key: Key,
    pub shift: bool,
    pub control: bool,
}

impl KeyInput {
    /// A key press without modifiers.
    pub fn plain(key: Key) -> (r: KeyInput)
        ensures
            r == (KeyInput { key, shift: false, control: false }),
    {
        KeyInput { key, shift: false, control: false }
    }
}

/// What the mouse did, as far as the viewer tells it apart.
#[derive(Debug, Clone, Copy, PartialEq, Eq, Structural)]
pub enum MouseKind {
    LeftDown,
    LeftDrag,
    LeftUp,
    ScrollUp,
    ScrollDown,
    Other,
}

} // verus!
