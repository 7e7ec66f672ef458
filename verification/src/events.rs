//! The input events the builtins react to, as plain values: a
//! keyboard event (its DOM `key` string and modifier state).

use vstd::prelude::*;
use crate::dom::str_eq;

verus! {

/// Modifier keys held during an event.
#[derive(Clone, Copy, Debug, PartialEq, Eq, Structural)]
pub struct Modifiers {
    pub shift: bool,
    pub ctrl: bool,
    pub alt: bool,
    /// Super / Cmd.
    pub meta: bool,
}

impl Modifiers {
    pub open spec fn none_held(&self) -> bool {
        !self.shift && !self.ctrl && !self.alt && !self.meta
    }

    pub fn none() -> (r: Modifiers)
        ensures
            r.none_held(),
    {
        Modifiers { shift: false, ctrl: false, alt: false, meta: false }
    }
}

/// A `keydown`: the DOM `KeyboardEvent.key` value (`"ArrowUp"`, `"a"`,
/// `" "`, …) and the held modifiers.
pub struct KeyboardEvent {
    pub key: String,
    pub modifiers: Modifiers,
}

impl KeyboardEvent {
    pub fn new(key: &str, modifiers: Modifiers) -> (r: KeyboardEvent)
        ensures
            r.key@ == key@,
            r.modifiers == modifiers,
    {
        KeyboardEvent { key: key.to_owned(), modifiers }
    }

    /// Whether the key is `name`.
    pub fn is(&self, name: &str) -> (r: bool)
        ensures
            r == (self.key@ == name@),
    {
        str_eq(self.key.as_str(), name)
    }
}

/// A `toggle` event (non-bubbling, not cancelable): the element whose
/// open state changed, and whether it is now open (it was the other
/// state before).
#[derive(Clone, Copy, Debug, PartialEq, Eq, Structural)]
pub struct ToggleChange {
    pub target: u64,
    pub opened: bool,
}

} // verus!
