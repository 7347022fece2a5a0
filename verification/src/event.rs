//! What the handler is told of: key events, timeouts, and the time.

use crate::keys::Key;
use vstd::prelude::*;

verus! {

/// The value of a key event when the key goes up.
pub const RELEASE: i32 = 0;

/// The value of a key event when the key goes down.
pub const PRESS: i32 = 1;

/// The value of a key event while the key is held down.
pub const REPEAT: i32 = 2;

/// Tells whether a key event with `value` finds the key down.
pub fn is_pressed(value: i32) -> (pressed: bool)
    ensures
        pressed == (value == PRESS || value == REPEAT),
{
    value == PRESS || value == REPEAT
}

/// A key and what happened to it.
#[derive(Debug, Clone, Copy, PartialEq, Eq, Structural)]
pub struct KeyEvent {
    pub code: Key,
    pub value: i32,
}

impl KeyEvent {
    /// The event of the key with `code`.
    pub fn new_with(code: Key, value: i32) -> (event: KeyEvent)
        ensures
            event == (KeyEvent { code, value }),
    {
        KeyEvent { code, value }
    }

    /// The code of the key.
    pub fn code(&self) -> (code: Key)
        ensures
            code == self.code,
    {
        self.code
    }

    /// What happened to the key.
    pub fn value(&self) -> (value: i32)
        ensures
            value == self.value,
    {
        self.value
    }
}

/// What the handler reacts to.
#[derive(Debug, Clone, Copy, PartialEq, Eq, Structural)]
pub enum Event {
    /// A key went down or up, or is held.
    KeyEvent(KeyEvent),
    /// The timer of a nested remap went off.
    OverrideTimeout,
}

/// A length of time: `secs` seconds and `nanos` nanoseconds. A point in time is the length of
/// time since an origin that never moves.
#[derive(Debug, Clone, Copy, PartialEq, Eq, Structural)]
pub struct Span {
    pub secs: u64,
    pub nanos: u32,
}

impl Span {
    /// The length in nanoseconds.
    pub open spec fn total(self) -> nat {
        self.secs as nat * 1_000_000_000 + self.nanos as nat
    }

    /// Gives the length in nanoseconds.
    pub fn as_nanos(&self) -> (nanos: u128)
        ensures
            nanos == self.total(),
            nanos < 0x1000_0000_0000_0000_0000_0000_0000,
    {
        self.secs as u128 * 1_000_000_000 + self.nanos as u128
    }
}

} // verus!
