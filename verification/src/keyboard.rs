//! Keys, as a terminal reports them.

use vstd::prelude::*;

verus! {

/// Which key.
#[derive(Debug, Clone, Copy, PartialEq, Eq, Structural)]
pub enum KeyCode {
    Backspace,
    Enter,
    Left,
    Right,
    Up,
    Down,
    Home,
    End,
    PageUp,
    PageDown,
    Tab,
    BackTab,
    Delete,
    Insert,
    F(u8),
    Char(char),
    Esc,
    Null,
}

/// A key, and what was held down with it.
#[derive(Debug, Clone, Copy, PartialEq, Eq, Structural)]
pub struct Key {
    pub code: KeyCode,
    pub ctrl: bool,
    pub alt: bool,
    pub shift: bool,
}

impl Key {
    /// The key on its own.
    pub open spec fn plain(code: KeyCode) -> Key {
        Key { code, ctrl: false, alt: false, shift: false }
    }

    /// The key on its own.
    pub fn of(code: KeyCode) -> (r: Key)
        ensures
            r == Key::plain(code),
    {
        Key { code, ctrl: false, alt: false, shift: false }
    }

    /// Whether nothing was held down with it.
    pub fn bare(&self) -> (r: bool)
        ensures
            r == (!self.ctrl && !self.alt && !self.shift),
    {
        !self.ctrl && !self.alt && !self.shift
    }
}

} // verus!
