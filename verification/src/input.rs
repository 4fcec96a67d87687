//! What a session is told of the keyboard and the mouse, as plain values.
use vstd::prelude::*;

verus! {

/// The key of a key event, as far as a session tells keys apart.
#[derive(Debug, Clone, Copy, PartialEq, Eq)]
pub enum KeyCode {
    /// The backspace key.
    Backspace,
    /// A key that stands for a character.
    Char(char),
    /// Any other key.
    Other,
}

/// A key event: the key, and whether the control modifier was held.
#[derive(Debug, Clone, Copy, PartialEq, Eq)]
pub struct Key {
    pub code: KeyCode,
    pub control: bool,
}

/// An input event.
#[derive(Debug, Clone, Copy, PartialEq, Eq)]
pub enum Event {
    /// A key event.
    Key(Key),
    /// The left mouse button was pressed, anywhere.
    LeftClick,
    /// Any other event.
    Other,
}

/// What the loop that drives a session does after an event was handled.
#[derive(Debug, Clone, Copy, PartialEq, Eq)]
pub enum Step {
    /// The session ends.
    Exit,
    /// A key event was handled: the embedder's key hook is called with the
    /// event and the session, and what it returns replaces the session.
    Hook,
    /// The loop goes on.
    Continue,
}

/// The key combination that ends a session: control and `e`.
pub open spec fn quits(key: Key) -> bool {
    key.control && key.code == KeyCode::Char('e')
}

/// Tells whether `key` ends the session.
pub fn is_quit(key: Key) -> (quit: bool)
    ensures
        quit == quits(key),
{
    if key.control {
        match key.code {
            KeyCode::Char(c) => c == 'e',
            _ => false,
        }
    } else {
        false
    }
}

} // verus!
