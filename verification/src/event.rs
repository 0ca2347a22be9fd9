//! Input events and what a view answers to them.

use vstd::prelude::*;

verus! {

/// A key that is no character.
#[derive(Clone, Copy, Debug, PartialEq, Eq, Structural)]
pub enum Key {
    Enter,
    Tab,
    Esc,
    Backspace,
    Left,
    Right,
    Up,
    Down,
    PageUp,
    PageDown,
    Home,
    End,
}

/// One input event.
#[derive(Clone, Copy, Debug, PartialEq, Eq, Structural)]
pub enum Event {
    /// A character was typed.
    CharEvent(char),
    /// Another key was pressed.
    KeyEvent(Key),
}

/// Work that a view asks the driver to do once the event has been handled.
/// The driver knows the work by this number.
#[derive(Clone, Copy, Debug, PartialEq, Eq, Structural)]
pub struct Callback {
    pub id: usize,
}

/// What became of an event.
#[derive(Clone, Copy, Debug, PartialEq, Eq, Structural)]
pub enum EventResult {
    /// The view had no use for the event.
    Ignored,
    /// The view handled the event, and may ask for work to be done.
    Consumed(Option<Callback>),
}

} // verus!
