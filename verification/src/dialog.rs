//! `<dialog>`: `show` / `showModal` / `close`, the `returnValue`, and
//! Esc on a focused element inside an open modal dialog, which fires
//! `cancel` and, unless cancelled, closes the dialog. A dialog is open
//! while it has the `open` attribute; modal ones carry a marker
//! attribute, and the return value is kept in another.

use vstd::prelude::*;
use crate::autofocus::{first_autofocus, focus_within};
use crate::dom::{Dom, Node, NodeId};
use crate::events::KeyboardEvent;
use crate::path::{
    ancestor, at, closest_tag, find_path, first_path, is_closest_tag, lemma_path_ok_prefix, node_at, node_by_id, node_of, prefix, lemma_replaced_same_shape, lemma_same_shape_first_path, lemma_same_shape_refl, node_by_id_mut, same_shape,
};

verus! {

/// Marker of a dialog opened modally.
pub const MODAL_ATTR: &'static str = "data-rdom-modal";

/// Where a dialog keeps its `returnValue`.
pub const RETURN_VALUE_ATTR: &'static str = "data-rdom-return-value";

pub open spec fn modal_name() -> Seq<char> {
    MODAL_ATTR@
}

pub open spec fn return_name() -> Seq<char> {
    RETURN_VALUE_ATTR@
}

proof fn lemma_names_distinct()
    ensures
        modal_name() != "open"@,
        return_name() != "open"@,
        modal_name() != return_name(),
{
    reveal_strlit("data-rdom-modal");
    reveal_strlit("data-rdom-return-value");
    reveal_strlit("open");
    assert(modal_name().len() != "open"@.len());
    assert(return_name().len() != "open"@.len());
    assert(modal_name().len() != return_name().len());
}

/// `new` is the dialog `old` shown non-modally: open, not modal, the
/// return value kept, nothing else changed.
pub open spec fn shown(old: Node, new: Node) -> bool {
    &&& new.has_attr("open"@)
    &&& !new.has_attr(modal_name())
    &&& new.attr(return_name()) == old.attr(return_name())
    &&& new.same_but_attrs(&old)
}

/// `new` is the dialog `old` after a close with `v`: an open one ends
/// closed, not modal, keeping `v`, nothing else changed; a closed one
/// is left as it is.
pub open spec fn closed_with(old: Node, new: Node, v: Seq<char>) -> bool {
    if old.has_attr("open"@) {
        &&& !new.has_attr("open"@)
        &&& !new.has_attr(modal_name())
        &&& new.attr(return_name()) == Some(v)
        &&& new.same_but_attrs(&old)
    } else {
        new == old
    }
}

/// Open `dialog` non-modally (a modal one becomes non-modal). Returns
/// whether it was closed before, i.e. whether `toggle` fires.
pub fn show(dialog: &mut Node) -> (opened: bool)
    ensures
        opened == !old(dialog).has_attr("open"@),
        shown(*old(dialog), *final(dialog)),
{
    let was_open = dialog.has_attribute("open");
    dialog.set_attribute("open", "");
    dialog.remove_attribute(MODAL_ATTR);
    proof {
        lemma_names_distinct();
    }
    !was_open
}

/// Mark `dialog` open and modal; returns whether it was open before.
fn open_modal(dialog: &mut Node) -> (was_open: bool)
    ensures
        was_open == old(dialog).has_attr("open"@),
        final(dialog).has_attr("open"@),
        final(dialog).has_attr(modal_name()),
        final(dialog).attr(return_name()) == old(dialog).attr(return_name()),
        final(dialog).same_but_attrs(old(dialog)),
{
    let was_open = dialog.has_attribute("open");
    dialog.set_attribute("open", "");
    dialog.set_attribute(MODAL_ATTR, "");
    proof {
        lemma_names_distinct();
    }
    was_open
}

/// Open the node `dialog` modally and focus its first focusable
/// `[autofocus]` descendant, if any. Returns whether it was closed
/// before, i.e. whether `toggle` fires. Nothing happens when there is
/// no such node.
pub fn show_modal(dom: &mut Dom, dialog: NodeId) -> (opened: bool)
    ensures
        match first_path(old(dom).root, dialog) {
            Some(p) => {
                let d = at(old(dom).root, p);
                let nd = at(final(dom).root, p);
                &&& opened == !d.has_attr("open"@)
                &&& first_path(final(dom).root, dialog) == Some(p)
                &&& nd.has_attr("open"@)
                &&& nd.has_attr(modal_name())
                &&& nd.attr(return_name()) == d.attr(return_name())
                &&& nd.same_but_attrs(&d)
                &&& final(dom).focused == match first_autofocus(nd) {
                    Some(t) => Some(t),
                    None => old(dom).focused,
                }
            },
            None => !opened && final(dom).root == old(dom).root && final(dom).focused == old(dom).focused,
        },
        final(dom).next_id == old(dom).next_id,
{
    let ghost old_root = dom.root;
    let ghost mut sub: Node = dom.root;
    let opened = match node_by_id_mut(&mut dom.root, dialog) {
        Some(d) => {
            let o = open_modal(d);
            proof {
                sub = *d;
            }
            !o
        },
        None => {
            return false;
        },
    };
    proof {
        let p = first_path(old_root, dialog)->0;
        let d = at(old_root, p);
        lemma_same_shape_refl(d);
        assert(same_shape(d, sub));
        lemma_replaced_same_shape(old_root, dom.root, p, sub);
        lemma_same_shape_first_path(old_root, dom.root, dialog);
    }
    focus_within(dom, dialog);
    opened
}

/// Close `dialog` with `return_value`: drop `open` and the modal marker
/// and keep the value. Returns whether it was open, i.e. whether
/// `toggle` and `close` fire; a closed dialog is left as it is.
pub fn close(dialog: &mut Node, return_value: &str) -> (closed: bool)
    ensures
        closed == old(dialog).has_attr("open"@),
        closed_with(*old(dialog), *final(dialog), return_value@),
{
    if !dialog.has_attribute("open") {
        return false;
    }
    dialog.remove_attribute("open");
    dialog.remove_attribute(MODAL_ATTR);
    dialog.set_attribute(RETURN_VALUE_ATTR, return_value);
    proof {
        lemma_names_distinct();
    }
    true
}

/// The dialog's `returnValue`: the value of the last close, or `""`.
pub fn return_value(dialog: &Node) -> (r: String)
    ensures
        r@ == match dialog.attr(return_name()) {
            Some(v) => v,
            None => Seq::empty(),
        },
{
    dialog.attribute_or_empty(RETURN_VALUE_ATTR)
}

/// Set the `returnValue` without closing or firing anything.
pub fn set_return_value(dialog: &mut Node, value: &str)
    ensures
        final(dialog).attr(return_name()) == Some(value@),
        final(dialog).attr("open"@) == old(dialog).attr("open"@),
        final(dialog).attr(modal_name()) == old(dialog).attr(modal_name()),
        final(dialog).same_but_attrs(old(dialog)),
{
    dialog.set_attribute(RETURN_VALUE_ATTR, value);
    proof {
        lemma_names_distinct();
    }
}

/// Whether `dialog` is open and was opened modally.
pub fn is_modal(dialog: &Node) -> (r: bool)
    ensures
        r == (dialog.has_attr("open"@) && dialog.has_attr(modal_name())),
{
    dialog.has_attribute("open") && dialog.has_attribute(MODAL_ATTR)
}

/// The nearest `<dialog>` ancestor-or-self of the path `p` from `root`.
pub open spec fn enclosing_dialog_at(root: Node, p: Seq<usize>) -> Option<NodeId> {
    if exists|k: int| is_closest_tag(root, p, "dialog"@, k) {
        Some(ancestor(root, p, choose|k: int| is_closest_tag(root, p, "dialog"@, k)).id)
    } else {
        None
    }
}

/// The nearest `<dialog>` ancestor-or-self of the node `id`.
pub open spec fn enclosing_dialog_spec(root: Node, id: NodeId) -> Option<NodeId> {
    match first_path(root, id) {
        Some(p) => enclosing_dialog_at(root, p),
        None => None,
    }
}

proof fn lemma_closest_unique(root: Node, p: Seq<usize>, tag: Seq<char>, k: int, m: int)
    requires
        is_closest_tag(root, p, tag, k),
        is_closest_tag(root, p, tag, m),
    ensures
        k == m,
{
}

/// The nearest `<dialog>` ancestor-or-self of the node `id`, if any.
pub fn enclosing_dialog(root: &Node, id: NodeId) -> (r: Option<NodeId>)
    ensures
        r == enclosing_dialog_spec(*root, id),
{
    let path = match find_path(root, id) {
        Some(p) => p,
        None => return None,
    };
    match closest_tag(root, &path, "dialog") {
        Some(k) => {
            let pre = prefix(&path, k);
            proof {
                lemma_path_ok_prefix(*root, path@, k as int);
                let c = choose|m: int| is_closest_tag(*root, path@, "dialog"@, m);
                lemma_closest_unique(*root, path@, "dialog"@, k as int, c);
            }
            Some(node_at(root, &pre).id)
        },
        None => {
            proof {
                if exists|k: int| is_closest_tag(*root, path@, "dialog"@, k) {
                    let k = choose|k: int| is_closest_tag(*root, path@, "dialog"@, k);
                    assert(ancestor(*root, path@, k).is_element("dialog"@));
                }
            }
            None
        },
    }
}

/// The modal dialog a `keydown` asks to cancel: a bare Escape, not
/// cancelled yet, with the focus inside an open modal dialog (its
/// nearest one).
pub fn escape_target(root: &Node, focused: Option<NodeId>, key: &KeyboardEvent, default_prevented: bool) -> (r: Option<
    NodeId,
>)
    ensures
        r == if default_prevented || !(key.key@ == "Escape"@) || !key.modifiers.none_held() {
            None
        } else {
            match focused {
                None => None,
                Some(f) => match enclosing_dialog_spec(*root, f) {
                    None => None,
                    Some(d) => match node_of(*root, d) {
                        Some(dn) => if dn.has_attr("open"@) && dn.has_attr(modal_name()) {
                            Some(d)
                        } else {
                            None
                        },
                        None => None,
                    },
                },
            }
        },
{
    if default_prevented {
        return None;
    }
    let no_mods = !key.modifiers.ctrl && !key.modifiers.shift && !key.modifiers.alt && !key.modifiers.meta;
    if !key.is("Escape") || !no_mods {
        return None;
    }
    let f = match focused {
        Some(f) => f,
        None => return None,
    };
    let d = match enclosing_dialog(root, f) {
        Some(d) => d,
        None => return None,
    };
    match node_by_id(root, d) {
        Some(dn) => if is_modal(dn) {
            Some(d)
        } else {
            None
        },
        None => None,
    }
}

/// Showing a dialog and then closing it with `v` leaves it closed and
/// not modal, with `v` as its return value and nothing else changed,
/// whatever state it was in before.
pub proof fn law_close_after_show(d0: Node, d1: Node, d2: Node, v: Seq<char>)
    requires
        shown(d0, d1),
        closed_with(d1, d2, v),
    ensures
        !d2.has_attr("open"@),
        !d2.has_attr(modal_name()),
        d2.attr(return_name()) == Some(v),
        d2.same_but_attrs(&d0),
{
}

} // verus!
