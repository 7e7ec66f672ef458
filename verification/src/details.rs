//! `<details>` / `<summary>` disclosure: a click inside a summary whose
//! parent is a `<details>`, or Enter / Space on a focused summary,
//! flips the details' boolean `open` attribute (present means open,
//! whatever its value) and fires a non-bubbling `toggle`.

use vstd::prelude::*;
use crate::dom::{attr_written, Dom, Node, NodeId};
use crate::events::{KeyboardEvent, ToggleChange};
use crate::path::{
    ancestor, at, changed_at_id, closest_tag, find_path, first_path, is_closest_tag, lemma_path_ok_prefix, lemma_replaced_at, node_at, node_by_id, node_by_id_mut, node_of, prefix,
};

verus! {

/// The `<details>` whose summary holds the node at path `p`: the
/// nearest `<summary>` ancestor-or-self, when its parent is a
/// `<details>`.
pub open spec fn details_of_summary_at(root: Node, p: Seq<usize>) -> Option<NodeId> {
    if exists|k: int| is_closest_tag(root, p, "summary"@, k) {
        let k = choose|k: int| is_closest_tag(root, p, "summary"@, k);
        if k >= 1 && ancestor(root, p, k - 1).is_element("details"@) {
            Some(ancestor(root, p, k - 1).id)
        } else {
            None
        }
    } else {
        None
    }
}

/// The `<details>` a click on the node `target` flips, if any.
pub open spec fn click_details(root: Node, target: NodeId) -> Option<NodeId> {
    match first_path(root, target) {
        Some(p) => details_of_summary_at(root, p),
        None => None,
    }
}

proof fn lemma_closest_unique(root: Node, p: Seq<usize>, tag: Seq<char>, k: int, m: int)
    requires
        is_closest_tag(root, p, tag, k),
        is_closest_tag(root, p, tag, m),
    ensures
        k == m,
{
}

/// The `<details>` a click on the node `target` flips, if any.
pub fn details_for_click(root: &Node, target: NodeId) -> (r: Option<NodeId>)
    ensures
        r == click_details(*root, target),
{
    let path = match find_path(root, target) {
        Some(p) => p,
        None => return None,
    };
    match closest_tag(root, &path, "summary") {
        Some(k) => {
            proof {
                let c = choose|m: int| is_closest_tag(*root, path@, "summary"@, m);
                lemma_closest_unique(*root, path@, "summary"@, k as int, c);
            }
            if k == 0 {
                return None;
            }
            let pre = prefix(&path, k - 1);
            proof {
                lemma_path_ok_prefix(*root, path@, k - 1);
            }
            let parent = node_at(root, &pre);
            if parent.has_tag("details") {
                Some(parent.id)
            } else {
                None
            }
        },
        None => {
            proof {
                if exists|k: int| is_closest_tag(*root, path@, "summary"@, k) {
                    let k = choose|k: int| is_closest_tag(*root, path@, "summary"@, k);
                    assert(ancestor(*root, path@, k).is_element("summary"@));
                }
            }
            None
        },
    }
}

/// The `<details>` a `keydown` flips: Enter or Space without Ctrl /
/// Alt / Meta, not cancelled, on a focused `<summary>` whose parent is
/// a `<details>`.
pub open spec fn key_details(root: Node, focused: Option<NodeId>, key: KeyboardEvent, default_prevented: bool) -> Option<
    NodeId,
> {
    if default_prevented || key.modifiers.ctrl || key.modifiers.alt || key.modifiers.meta || !(key.key@ == "Enter"@
        || key.key@ == " "@) {
        None
    } else {
        match focused {
            None => None,
            Some(f) => match first_path(root, f) {
                None => None,
                Some(q) => if at(root, q).is_element("summary"@) && q.len() >= 1 && ancestor(
                    root,
                    q,
                    q.len() - 1,
                ).is_element("details"@) {
                    Some(ancestor(root, q, q.len() - 1).id)
                } else {
                    None
                },
            },
        }
    }
}

/// The `<details>` a `keydown` flips, if any.
pub fn details_for_key(root: &Node, focused: Option<NodeId>, key: &KeyboardEvent, default_prevented: bool) -> (r: Option<
    NodeId,
>)
    ensures
        r == key_details(*root, focused, *key, default_prevented),
{
    if default_prevented || key.modifiers.ctrl || key.modifiers.alt || key.modifiers.meta {
        return None;
    }
    if !(key.is("Enter") || key.is(" ")) {
        return None;
    }
    let f = match focused {
        Some(f) => f,
        None => return None,
    };
    let q = match find_path(root, f) {
        Some(q) => q,
        None => return None,
    };
    if !node_at(root, &q).has_tag("summary") || q.len() == 0 {
        return None;
    }
    let pre = prefix(&q, q.len() - 1);
    proof {
        lemma_path_ok_prefix(*root, q@, q.len() - 1);
    }
    let parent = node_at(root, &pre);
    if parent.has_tag("details") {
        Some(parent.id)
    } else {
        None
    }
}

/// `new` is `old` with its `open` attribute flipped: removed when
/// present, added (empty) when absent.
pub open spec fn open_flipped(old: Node, new: Node) -> bool {
    attr_written(old, new, "open"@, if old.has_attr("open"@) {
        None
    } else {
        Some(Seq::empty())
    })
}

/// Flip `details` open or closed; returns the `toggle` to fire.
pub fn toggle(details: &mut Node) -> (r: ToggleChange)
    ensures
        open_flipped(*old(details), *final(details)),
        r == (ToggleChange { target: old(details).id, opened: !old(details).has_attr("open"@) }),
{
    proof {
        reveal_strlit("");
        assert(""@ =~= Seq::<char>::empty());
    }
    let was_open = details.has_attribute("open");
    if was_open {
        details.remove_attribute("open");
    } else {
        details.set_attribute("open", "");
    }
    ToggleChange { target: details.id, opened: !was_open }
}

/// Flip the node `id` (a `<details>`), returning the `toggle` to fire;
/// nothing happens without such a node.
pub fn toggle_by_id(dom: &mut Dom, id: NodeId) -> (r: Option<ToggleChange>)
    ensures
        final(dom).focused == old(dom).focused,
        final(dom).next_id == old(dom).next_id,
        changed_at_id(old(dom).root, final(dom).root, id, |o: Node, n: Node| open_flipped(o, n)),
        r == match node_of(old(dom).root, id) {
            Some(m) => Some(ToggleChange { target: id, opened: !m.has_attr("open"@) }),
            None => None,
        },
{
    let ghost old_root = dom.root;
    let ghost mut sub: Node = dom.root;
    let r = match node_by_id_mut(&mut dom.root, id) {
        Some(d) => {
            let t = toggle(d);
            proof {
                sub = *d;
            }
            Some(t)
        },
        None => None,
    };
    proof {
        if first_path(old_root, id) is Some {
            lemma_replaced_at(old_root, dom.root, first_path(old_root, id)->0, sub);
        }
    }
    r
}

/// The click default: unless cancelled, a click inside a summary flips
/// its `<details>`. Returns the `toggle` to fire.
pub fn on_click(dom: &mut Dom, target: NodeId, default_prevented: bool) -> (r: Option<ToggleChange>)
    ensures
        final(dom).focused == old(dom).focused,
        final(dom).next_id == old(dom).next_id,
        match (if default_prevented {
            None
        } else {
            click_details(old(dom).root, target)
        }) {
            Some(d) => {
                &&& changed_at_id(old(dom).root, final(dom).root, d, |o: Node, n: Node| open_flipped(o, n))
                &&& r == match node_of(old(dom).root, d) {
                    Some(m) => Some(ToggleChange { target: d, opened: !m.has_attr("open"@) }),
                    None => None,
                }
            },
            None => *final(dom) == *old(dom) && r is None,
        },
{
    if default_prevented {
        return None;
    }
    match details_for_click(&dom.root, target) {
        Some(d) => toggle_by_id(dom, d),
        None => None,
    }
}

/// The keyboard default: Enter / Space on a focused summary flips its
/// `<details>` (see [`key_details`]). Returns the `toggle` to fire.
pub fn on_keydown(dom: &mut Dom, key: &KeyboardEvent, default_prevented: bool) -> (r: Option<ToggleChange>)
    ensures
        final(dom).focused == old(dom).focused,
        final(dom).next_id == old(dom).next_id,
        match key_details(old(dom).root, old(dom).focused, *key, default_prevented) {
            Some(d) => {
                &&& changed_at_id(old(dom).root, final(dom).root, d, |o: Node, n: Node| open_flipped(o, n))
                &&& r == match node_of(old(dom).root, d) {
                    Some(m) => Some(ToggleChange { target: d, opened: !m.has_attr("open"@) }),
                    None => None,
                }
            },
            None => *final(dom) == *old(dom) && r is None,
        },
{
    match details_for_key(&dom.root, dom.focused, key, default_prevented) {
        Some(d) => toggle_by_id(dom, d),
        None => None,
    }
}

/// Two flips bring a `<details>` back to its open state, every other
/// attribute untouched.
pub proof fn law_flip_twice(a: Node, b: Node, c: Node)
    requires
        open_flipped(a, b),
        open_flipped(b, c),
    ensures
        c.has_attr("open"@) == a.has_attr("open"@),
        forall|x: Seq<char>| x != "open"@ ==> #[trigger] c.attr(x) == a.attr(x),
        c.same_but_attrs(&a),
{
    assert(b.attr("open"@) == if a.has_attr("open"@) { None::<Seq<char>> } else { Some(Seq::<char>::empty()) });
    assert(c.attr("open"@) == if b.has_attr("open"@) { None::<Seq<char>> } else { Some(Seq::<char>::empty()) });
    assert forall|x: Seq<char>| x != "open"@ implies #[trigger] c.attr(x) == a.attr(x) by {
        assert(c.attr(x) == b.attr(x));
        assert(b.attr(x) == a.attr(x));
    }
}

} // verus!
