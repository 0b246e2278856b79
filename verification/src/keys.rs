//! A plain model of the keyboard events the panels decide on: which key
//! was involved and whether it was pressed, repeated or released.  The
//! surrounding program translates the terminal's own event type into this
//! one before asking any panel what to do.

use vstd::prelude::*;

verus! {

/// The keys the panels care about; any other key is `Other`.
#[derive(Clone, Copy, Debug)]
pub enum Key {
    Left,
    Right,
    Up,
    Down,
    PageUp,
    PageDown,
    Enter,
    Char(char),
    Other,
}

/// What happened to the key.
#[derive(Clone, Copy, Debug)]
pub enum KeyKind {
    Press,
    Repeat,
    Release,
}

/// One keyboard event.
#[derive(Clone, Copy, Debug)]
pub struct KeyEvent {
    /// What happened.
    pub kind: KeyKind,
    /// To which key.
    pub code: Key,
}

} // verus!
