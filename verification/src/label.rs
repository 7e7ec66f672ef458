//! `<label>` click default: unless cancelled, a click inside a label
//! focuses its control — the element its non-empty `for` names (the
//! first with that `id`), else its first labelable descendant — and,
//! when that control is a checkbox or radio and was not itself the
//! click's target, the click is dispatched again on it so it toggles.

use vstd::prelude::*;
use crate::dom::{Dom, Node, NodeId, NodeType};
use crate::forms::{element_by_id, first_below, first_holding_child, first_node, has_id, holds, lemma_first_holder_is};
use crate::path::{ancestor, closest_tag, find_path, first_path, is_closest_tag, lemma_path_ok_prefix, node_at, node_by_id, node_of, prefix};
use crate::toggle::{is_toggle, is_toggle_spec};

verus! {

/// The labelable elements: `button`, `meter`, `output`, `progress`,
/// `select`, `textarea`, and `input` unless `type="hidden"`.
pub open spec fn is_labelable_spec(n: Node) -> bool {
    n.node_type == NodeType::Element && (n.tag@ == "button"@ || n.tag@ == "meter"@ || n.tag@ == "output"@ || n.tag@
        == "progress"@ || n.tag@ == "select"@ || n.tag@ == "textarea"@ || (n.tag@ == "input"@ && n.attr("type"@)
        != Some("hidden"@)))
}

pub open spec fn labelable() -> spec_fn(Node) -> bool {
    |n: Node| is_labelable_spec(n)
}

/// Whether `n` is labelable.
pub fn is_labelable(n: &Node) -> (r: bool)
    ensures
        r == is_labelable_spec(*n),
{
    if n.node_type != NodeType::Element {
        return false;
    }
    if n.has_tag("button") || n.has_tag("meter") || n.has_tag("output") || n.has_tag("progress") || n.has_tag("select")
        || n.has_tag("textarea") {
        return true;
    }
    n.has_tag("input") && !n.attribute_is("type", "hidden")
}

fn first_labelable(n: &Node) -> (r: Option<NodeId>)
    ensures
        match r {
            Some(id) => first_node(*n, labelable()) is Some && first_node(*n, labelable())->0.id == id,
            None => first_node(*n, labelable()) is None,
        },
        r is None <==> !holds(*n, labelable()),
    decreases n, 1int,
{
    if is_labelable(n) {
        return Some(n.id);
    }
    first_labelable_below(n)
}

fn first_labelable_below(n: &Node) -> (r: Option<NodeId>)
    ensures
        match r {
            Some(id) => first_below(*n, labelable()) is Some && first_below(*n, labelable())->0.id == id,
            None => first_below(*n, labelable()) is None,
        },
        r is None <==> !(exists|j: int| 0 <= j < n.children@.len() && holds(#[trigger] n.children@[j], labelable())),
    decreases n, 0int,
{
    let mut i: usize = 0;
    while i < n.children.len()
        invariant
            i <= n.children@.len(),
            forall|k: int| 0 <= k < i ==> !holds(#[trigger] n.children@[k], labelable()),
        decreases n.children@.len() - i,
    {
        assert(decreases_to!(n => n.children@[i as int]));
        match first_labelable(&n.children[i]) {
            Some(t) => {
                proof {
                    lemma_first_holder_is(n.children@, labelable(), i as int);
                }
                return Some(t);
            },
            None => {},
        }
        i = i + 1;
    }
    None
}

/// The control of the label `label` in the document `root`: the first
/// element with the `id` its non-empty `for` names; without such a
/// `for`, its first labelable descendant.
pub open spec fn control_of(root: Node, label: Node) -> Option<NodeId> {
    match label.attr("for"@) {
        Some(v) if v.len() > 0 => match first_node(root, has_id(v)) {
            Some(e) => Some(e.id),
            None => None,
        },
        _ => match first_below(label, labelable()) {
            Some(e) => Some(e.id),
            None => None,
        },
    }
}

/// The control of the node `label` of the document `root`.
pub open spec fn associated_control_spec(root: Node, label: NodeId) -> Option<NodeId> {
    match node_of(root, label) {
        Some(l) => control_of(root, l),
        None => None,
    }
}

/// The control the label `label` is associated with, if any.
pub fn associated_control(root: &Node, label: NodeId) -> (r: Option<NodeId>)
    ensures
        r == associated_control_spec(*root, label),
{
    let l = match node_by_id(root, label) {
        Some(l) => l,
        None => return None,
    };
    match l.get_attribute("for") {
        Some(v) => if v.as_str().is_empty() {
            first_labelable_below(l)
        } else {
            match element_by_id(root, v.as_str()) {
                Some(e) => Some(e.id),
                None => None,
            }
        },
        None => first_labelable_below(l),
    }
}

/// The nearest `<label>` ancestor-or-self of the node `target`.
pub open spec fn closest_label_spec(root: Node, target: NodeId) -> Option<NodeId> {
    match first_path(root, target) {
        Some(p) => if exists|k: int| is_closest_tag(root, p, "label"@, k) {
            Some(ancestor(root, p, choose|k: int| is_closest_tag(root, p, "label"@, k)).id)
        } else {
            None
        },
        None => None,
    }
}

proof fn lemma_closest_unique(root: Node, p: Seq<usize>, tag: Seq<char>, k: int, m: int)
    requires
        is_closest_tag(root, p, tag, k),
        is_closest_tag(root, p, tag, m),
    ensures
        k == m,
{
}

/// The nearest `<label>` ancestor-or-self of the node `target`.
pub fn closest_label(root: &Node, target: NodeId) -> (r: Option<NodeId>)
    ensures
        r == closest_label_spec(*root, target),
{
    let path = match find_path(root, target) {
        Some(p) => p,
        None => return None,
    };
    match closest_tag(root, &path, "label") {
        Some(k) => {
            let pre = prefix(&path, k);
            proof {
                lemma_path_ok_prefix(*root, path@, k as int);
                let c = choose|m: int| is_closest_tag(*root, path@, "label"@, m);
                lemma_closest_unique(*root, path@, "label"@, k as int, c);
            }
            Some(node_at(root, &pre).id)
        },
        None => {
            proof {
                if exists|k: int| is_closest_tag(*root, path@, "label"@, k) {
                    let k = choose|k: int| is_closest_tag(*root, path@, "label"@, k);
                    assert(ancestor(*root, path@, k).is_element("label"@));
                }
            }
            None
        },
    }
}

/// The control a click on the node `target` goes to: that of its
/// nearest label, unless the click was cancelled.
pub open spec fn click_control(root: Node, target: NodeId, default_prevented: bool) -> Option<NodeId> {
    if default_prevented {
        None
    } else {
        match closest_label_spec(root, target) {
            Some(l) => associated_control_spec(root, l),
            None => None,
        }
    }
}

/// The label click default: focus the control (see [`click_control`]);
/// returns the checkbox or radio to dispatch the click on again, when
/// the control is one and was not the click's target.
pub fn on_click(dom: &mut Dom, target: NodeId, default_prevented: bool) -> (redispatch: Option<NodeId>)
    ensures
        final(dom).root == old(dom).root,
        final(dom).next_id == old(dom).next_id,
        match click_control(old(dom).root, target, default_prevented) {
            Some(c) => {
                &&& final(dom).focused == Some(c)
                &&& redispatch == if c != target && match node_of(old(dom).root, c) {
                    Some(cn) => is_toggle_spec(cn),
                    None => false,
                } {
                    Some(c)
                } else {
                    None
                }
            },
            None => *final(dom) == *old(dom) && redispatch is None,
        },
{
    if default_prevented {
        return None;
    }
    let l = match closest_label(&dom.root, target) {
        Some(l) => l,
        None => return None,
    };
    let c = match associated_control(&dom.root, l) {
        Some(c) => c,
        None => return None,
    };
    dom.focused = Some(c);
    let toggles = match node_by_id(&dom.root, c) {
        Some(cn) => is_toggle(cn),
        None => false,
    };
    if toggles && c != target {
        Some(c)
    } else {
        None
    }
}

} // verus!
