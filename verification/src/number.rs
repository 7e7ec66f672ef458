//! `<input type="number">`: inserted text must be made of digits, signs
//! and decimal points, and Up / Down step the value (the decimal
//! arithmetic is the caller's).

use vstd::prelude::*;
use crate::dom::Node;
use crate::events::KeyboardEvent;

verus! {

pub open spec fn numeric_char(c: char) -> bool {
    ('0' <= c && c <= '9') || c == '-' || c == '+' || c == '.'
}

/// Digits, a sign or a decimal point.
pub fn is_numeric_char(c: char) -> (r: bool)
    ensures
        r == numeric_char(c),
{
    (c >= '0' && c <= '9') || c == '-' || c == '+' || c == '.'
}

pub open spec fn is_number_input_spec(n: Node) -> bool {
    n.is_element("input"@) && n.attr("type"@) == Some("number"@)
}

/// Whether `n` is an `<input type="number">`.
pub fn is_number_input(n: &Node) -> (r: bool)
    ensures
        r == is_number_input_spec(*n),
{
    n.has_tag("input") && n.attribute_is("type", "number")
}

/// Whether a `beforeinput` inserting `data` into `target` is refused: the
/// event was not cancelled yet, the target is a number input, and the
/// inserted text is not empty and holds a non-numeric character.
/// Deletions (no data) always pass.
pub fn refuses_insert(target: &Node, data: Option<&str>, default_prevented: bool) -> (r: bool)
    ensures
        r == (!default_prevented && is_number_input_spec(*target) && match data {
            Some(d) => d@.len() > 0 && exists|i: int| 0 <= i < d@.len() && !numeric_char(#[trigger] d@[i]),
            None => false,
        }),
{
    if default_prevented || !is_number_input(target) {
        return false;
    }
    match data {
        None => false,
        Some(d) => {
            let cs = crate::text::chars_of(d);
            if cs.len() == 0 {
                return false;
            }
            let mut i: usize = 0;
            while i < cs.len()
                invariant
                    i <= cs@.len(),
                    cs@ == d@,
                    cs@.len() > 0,
                    !default_prevented,
                    is_number_input_spec(*target),
                    data == Some(d),
                    forall|k: int| 0 <= k < i ==> numeric_char(#[trigger] d@[k]),
                decreases cs@.len() - i,
            {
                if !is_numeric_char(cs[i]) {
                    assert(!numeric_char(d@[i as int]));
                    return true;
                }
                i = i + 1;
            }
            false
        },
    }
}

/// The step a `keydown` asks of the focused node: +1 for a bare Up, -1
/// for a bare Down, on an enabled, writable number input whose event
/// was not cancelled; none otherwise.
pub fn step_direction(focused: &Node, key: &KeyboardEvent, default_prevented: bool) -> (r: Option<i8>)
    ensures
        r == if default_prevented || !is_number_input_spec(*focused) || focused.has_attr("disabled"@)
            || focused.has_attr("readonly"@) || !key.modifiers.none_held() {
            None
        } else if key.key@ == "ArrowUp"@ {
            Some(1i8)
        } else if key.key@ == "ArrowDown"@ {
            Some(-1i8)
        } else {
            None
        },
{
    if default_prevented || !is_number_input(focused) {
        return None;
    }
    if focused.has_attribute("disabled") || focused.has_attribute("readonly") {
        return None;
    }
    if key.modifiers.ctrl || key.modifiers.shift || key.modifiers.alt || key.modifiers.meta {
        return None;
    }
    if key.is("ArrowUp") {
        Some(1)
    } else if key.is("ArrowDown") {
        Some(-1)
    } else {
        None
    }
}

} // verus!
