//! `<button>` and the button-like `<input>` types (`submit`, `reset`,
//! `button`): keyboard activation (a bare Enter or Space on a focused
//! one synthesizes a `click`), and the label a button paints inside its
//! `[ … ]` chrome.

use vstd::prelude::*;
use crate::dom::{collect_text, deep_text, Node};
use crate::events::KeyboardEvent;
use crate::text::{display_width, str_width};

verus! {

/// `<button>`, or an `<input>` of type `submit`, `reset` or `button`.
pub open spec fn is_button_like_spec(n: Node) -> bool {
    ||| n.is_element("button"@)
    ||| n.is_element("input"@) && (n.attr("type"@) == Some("submit"@) || n.attr("type"@) == Some("reset"@)
        || n.attr("type"@) == Some("button"@))
}

/// True for `<button>` and for the button-like `<input>` types. These
/// render as buttons and share keyboard activation.
pub fn is_button_like(n: &Node) -> (r: bool)
    ensures
        r == is_button_like_spec(*n),
{
    if n.has_tag("button") {
        true
    } else if n.has_tag("input") {
        n.attribute_is("type", "submit") || n.attribute_is("type", "reset") || n.attribute_is("type", "button")
    } else {
        false
    }
}

/// Whether a `keydown` on the focused node synthesizes a `click`: the
/// event was not cancelled, the node is button-like, and the key is a
/// bare Enter or Space (Ctrl / Alt / Meta combinations belong to other
/// paths; Shift does not matter).
pub fn activates(focused: &Node, key: &KeyboardEvent, default_prevented: bool) -> (r: bool)
    ensures
        r == (!default_prevented && is_button_like_spec(*focused) && !key.modifiers.ctrl && !key.modifiers.alt
            && !key.modifiers.meta && (key.key@ == "Enter"@ || key.key@ == " "@)),
{
    if default_prevented {
        return false;
    }
    if !is_button_like(focused) {
        return false;
    }
    if key.modifiers.ctrl || key.modifiers.alt || key.modifiers.meta {
        return false;
    }
    key.is("Enter") || key.is(" ")
}

/// The label of a button-like node: a `<button>` shows its own content;
/// a button-like `<input>` shows its `value`, or without one "Submit"
/// (submit), "Reset" (reset) or nothing (button).
pub open spec fn label_spec(n: Node) -> Seq<char> {
    if n.is_element("button"@) {
        deep_text(n.children@)
    } else {
        match n.attr("value"@) {
            Some(v) => v,
            None => if n.attr("type"@) == Some("submit"@) {
                "Submit"@
            } else if n.attr("type"@) == Some("reset"@) {
                "Reset"@
            } else {
                Seq::empty()
            },
        }
    }
}

/// The label painted inside a button-like node's chrome.
pub fn label(n: &Node) -> (r: String)
    requires
        is_button_like_spec(*n),
    ensures
        r@ == label_spec(*n),
{
    if n.has_tag("button") {
        let mut s = String::new();
        collect_text(&n.children, &mut s);
        assert(Seq::<char>::empty() + deep_text(n.children@) =~= deep_text(n.children@));
        s
    } else {
        match n.get_attribute("value") {
            Some(v) => v.clone(),
            None => if n.attribute_is("type", "submit") {
                "Submit".to_owned()
            } else if n.attribute_is("type", "reset") {
                "Reset".to_owned()
            } else {
                String::new()
            },
        }
    }
}

/// What a button-like node paints: `[ label ]`.
pub open spec fn chrome_spec(n: Node) -> Seq<char> {
    "[ "@ + label_spec(n) + " ]"@
}

/// The `[ label ]` chrome a button-like node paints, or `None` for any
/// other node.
pub fn chrome(n: &Node) -> (r: Option<String>)
    ensures
        match r {
            Some(s) => is_button_like_spec(*n) && s@ == chrome_spec(*n),
            None => !is_button_like_spec(*n),
        },
{
    if !is_button_like(n) {
        return None;
    }
    let mut s = "[ ".to_owned();
    let l = label(n);
    s.append(l.as_str());
    s.append(" ]");
    Some(s)
}

/// The width in cells of a button-like node's box: its chrome's display
/// width.
pub fn chrome_width(n: &Node) -> (r: Option<usize>)
    ensures
        match r {
            Some(w) => is_button_like_spec(*n) && w == str_width(chrome_spec(*n)),
            None => !is_button_like_spec(*n),
        },
{
    match chrome(n) {
        Some(s) => Some(display_width(s.as_str())),
        None => None,
    }
}

} // verus!
