//! The `autofocus` attribute: on mount (and when a modal dialog opens)
//! the first focusable `[autofocus]` element in document order gets the
//! focus. Disabled or non-focusable candidates are skipped.

use vstd::prelude::*;
use crate::dom::{Dom, Node, NodeId, NodeType};
use crate::path::{node_by_id, node_of};

verus! {

/// A form control that honors `disabled`.
pub open spec fn is_form_control(n: Node) -> bool {
    n.is_element("button"@) || n.is_element("input"@) || n.is_element("select"@) || n.is_element("textarea"@)
}

/// Whether `n` can take focus: an element with a `tabindex`, or one of
/// the natively focusable elements (`<button>`, `<input>` other than
/// `type=hidden`, `<select>`, `<textarea>`, `<summary>`, `<a href>`); a
/// `disabled` form control cannot.
pub open spec fn focusable_spec(n: Node) -> bool {
    &&& n.node_type == NodeType::Element
    &&& !(is_form_control(n) && n.has_attr("disabled"@))
    &&& {
        ||| n.has_attr("tabindex"@)
        ||| n.is_element("button"@)
        ||| n.is_element("input"@) && n.attr("type"@) != Some("hidden"@)
        ||| n.is_element("select"@)
        ||| n.is_element("textarea"@)
        ||| n.is_element("summary"@)
        ||| n.is_element("a"@) && n.has_attr("href"@)
    }
}

/// Whether `n` can take focus.
pub fn is_focusable(n: &Node) -> (r: bool)
    ensures
        r == focusable_spec(*n),
{
    if n.node_type != NodeType::Element {
        return false;
    }
    let control = n.has_tag("button") || n.has_tag("input") || n.has_tag("select") || n.has_tag("textarea");
    if control && n.has_attribute("disabled") {
        return false;
    }
    n.has_attribute("tabindex") || n.has_tag("button") || (n.has_tag("input") && !n.attribute_is("type", "hidden"))
        || n.has_tag("select") || n.has_tag("textarea") || n.has_tag("summary") || (n.has_tag("a")
        && n.has_attribute("href"))
}

/// A focusable `[autofocus]` element.
pub open spec fn autofocus_candidate(n: Node) -> bool {
    n.has_attr("autofocus"@) && focusable_spec(n)
}

/// Whether the subtree of `n` holds a candidate.
pub open spec fn holds_candidate(n: Node) -> bool
    decreases n,
{
    autofocus_candidate(n) || exists|j: int|
        0 <= j < n.children@.len() && holds_candidate(#[trigger] n.children@[j])
}

/// The first child of `children` whose subtree holds a candidate.
pub open spec fn first_candidate_child(children: Seq<Node>) -> int {
    choose|j: int|
        0 <= j < children.len() && holds_candidate(#[trigger] children[j]) && forall|k: int|
            0 <= k < j ==> !holds_candidate(#[trigger] children[k])
}

/// The first candidate of the subtree of `n` in document order.
pub open spec fn first_autofocus(n: Node) -> Option<NodeId>
    decreases n,
{
    if autofocus_candidate(n) {
        Some(n.id)
    } else if exists|j: int| 0 <= j < n.children@.len() && holds_candidate(#[trigger] n.children@[j]) {
        let j = first_candidate_child(n.children@);
        if 0 <= j < n.children@.len() {
            first_autofocus(n.children@[j])
        } else {
            None
        }
    } else {
        None
    }
}

/// The first focusable `[autofocus]` element of the subtree of `n`, in
/// document order.
fn find_autofocus_in(n: &Node) -> (r: Option<NodeId>)
    ensures
        r == first_autofocus(*n),
        r is None <==> !holds_candidate(*n),
    decreases n,
{
    if n.has_attribute("autofocus") && is_focusable(n) {
        return Some(n.id);
    }
    let mut i: usize = 0;
    while i < n.children.len()
        invariant
            i <= n.children@.len(),
            !autofocus_candidate(*n),
            forall|k: int| 0 <= k < i ==> !holds_candidate(#[trigger] n.children@[k]),
        decreases n.children@.len() - i,
    {
        assert(decreases_to!(n => n.children@[i as int]));
        match find_autofocus_in(&n.children[i]) {
            Some(t) => {
                proof {
                    let j = first_candidate_child(n.children@);
                    assert(holds_candidate(n.children@[i as int]));
                    assert(0 <= j < n.children@.len() && holds_candidate(n.children@[j]) && forall|k: int|
                        0 <= k < j ==> !holds_candidate(#[trigger] n.children@[k]));
                    if j > i {
                        assert(!holds_candidate(n.children@[i as int]));
                    }
                    assert(j == i);
                }
                return Some(t);
            },
            None => {},
        }
        i = i + 1;
    }
    None
}

/// Focus the first focusable `[autofocus]` element of the document,
/// unless something is focused already.
pub fn focus_first_autofocus(dom: &mut Dom)
    ensures
        final(dom).root == old(dom).root,
        final(dom).next_id == old(dom).next_id,
        final(dom).focused == match old(dom).focused {
            Some(f) => Some(f),
            None => first_autofocus(old(dom).root),
        },
{
    if dom.focused.is_some() {
        return ;
    }
    match find_autofocus_in(&dom.root) {
        Some(target) => {
            dom.focused = Some(target);
        },
        None => {},
    }
}

/// Focus the first focusable `[autofocus]` element of the subtree of
/// node `root`; focus is untouched when there is none.
pub fn focus_within(dom: &mut Dom, root: NodeId)
    ensures
        final(dom).root == old(dom).root,
        final(dom).next_id == old(dom).next_id,
        final(dom).focused == match node_of(old(dom).root, root) {
            Some(n) => match first_autofocus(n) {
                Some(t) => Some(t),
                None => old(dom).focused,
            },
            None => old(dom).focused,
        },
{
    let found = match node_by_id(&dom.root, root) {
        Some(n) => find_autofocus_in(n),
        None => None,
    };
    match found {
        Some(t) => {
            dom.focused = Some(t);
        },
        None => {},
    }
}

} // verus!
