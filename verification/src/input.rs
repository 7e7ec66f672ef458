//! `<input>` (text family) and `<textarea>` values. The live value of a
//! text control is the text of its text-node children, which the editing
//! pipeline works on; an `<input>` mirrors it in its `value` attribute.
//! Seeding gives every text control a text child matching its value;
//! the first known value is kept as the `defaultValue` a form reset
//! restores. A password input paints a bullet per grapheme cluster.

use vstd::prelude::*;
use crate::dom::{first_text, has_text_child, Dom, Node, NodeExt, NodeId, NodeType};
use crate::forms::{input_state, input_type_state, is_text_input, is_text_input_spec, InputTypeState};
use crate::gauge::{push_n, repeat};
use crate::number::{is_number_input_spec, numeric_char, refuses_insert};
use crate::path::{at, changed_at_id, first_path, lemma_replaced_at, node_by_id, node_by_id_mut, node_of};
use crate::text::{grapheme_count, graphemes_of};

verus! {

/// The live value of a text control: the content of its first text
/// child, empty when it has none.
pub open spec fn value_spec(n: Node) -> Seq<char> {
    first_text(n.children@)
}

/// The live value of a text control.
pub fn value(n: &Node) -> (r: String)
    ensures
        r@ == value_spec(*n),
{
    n.first_child_text()
}

pub open spec fn is_range_input(n: Node) -> bool {
    input_state(n) == Some(InputTypeState::Range)
}

/// A control that keeps its `defaultValue` apart from its live value:
/// `<textarea>`, text-family `<input>`s and range inputs. Every other
/// input is its `value` attribute.
pub open spec fn keeps_default_spec(n: Node) -> bool {
    n.is_element("textarea"@) || (n.is_element("input"@) && (is_text_input_spec(n) || is_range_input(n)))
}

pub fn keeps_default_value(n: &Node) -> (r: bool)
    ensures
        r == keeps_default_spec(*n),
{
    if n.has_tag("textarea") {
        return true;
    }
    if n.has_tag("input") {
        let range = match input_type_state(n) {
            Some(s) => s == InputTypeState::Range,
            None => false,
        };
        return is_text_input(n) || range;
    }
    false
}

/// The value a default is captured from: a range's `value` attribute
/// (`""` when absent), a text control's text.
pub open spec fn live_value_spec(n: Node) -> Seq<char> {
    if is_range_input(n) {
        match n.attr("value"@) {
            Some(v) => v,
            None => Seq::empty(),
        }
    } else {
        value_spec(n)
    }
}

fn live_value(n: &Node) -> (r: String)
    ensures
        r@ == live_value_spec(*n),
{
    let range = match input_type_state(n) {
        Some(s) => s == InputTypeState::Range,
        None => false,
    };
    if range {
        return n.attribute_or_empty("value");
    }
    value(n)
}

/// `ext` is `n`'s state with its live value captured as its
/// `defaultValue`, when it keeps one and none is known; else `n`'s state.
pub open spec fn default_noted(n: Node, ext: NodeExt) -> bool {
    if keeps_default_spec(n) && n.ext.default_value is None {
        &&& ext == (NodeExt { default_value: ext.default_value, ..n.ext })
        &&& ext.default_value is Some
        &&& ext.default_value->0@ == live_value_spec(n)
    } else {
        ext == n.ext
    }
}

/// Capture the control's live value as its `defaultValue` unless one is
/// known; controls without a separate default are left alone.
pub fn note_default_value(n: &mut Node)
    ensures
        default_noted(*old(n), final(n).ext),
        final(n).id == old(n).id,
        final(n).node_type == old(n).node_type,
        final(n).tag == old(n).tag,
        final(n).text == old(n).text,
        final(n).attrs == old(n).attrs,
        final(n).children == old(n).children,
{
    if !keeps_default_value(n) {
        return ;
    }
    if n.ext.default_value.is_some() {
        return ;
    }
    let current = live_value(n);
    n.ext.default_value = Some(current);
}

/// `n` is a text node holding `text`, with id `id` and nothing else.
pub open spec fn is_text_node(n: Node, id: NodeId, text: Seq<char>) -> bool {
    &&& n.id == id
    &&& n.node_type == NodeType::Text
    &&& n.text@ == text
    &&& n.tag@ == Seq::<char>::empty()
    &&& n.attrs@.len() == 0
    &&& n.children@.len() == 0
    &&& n.ext.is_fresh()
}

/// `new` is `old` with its children replaced by one text node of id
/// `tid` holding `text`.
pub open spec fn text_installed(old: Node, new: Node, tid: NodeId, text: Seq<char>) -> bool {
    &&& new.id == old.id
    &&& new.node_type == old.node_type
    &&& new.tag@ == old.tag@
    &&& new.text@ == old.text@
    &&& new.attrs == old.attrs
    &&& new.ext == old.ext
    &&& new.children@.len() == 1
    &&& is_text_node(new.children@[0], tid, text)
}

/// Replace `n`'s children by one text node of id `tid` holding `text`.
fn install_text(n: &mut Node, tid: NodeId, text: &str)
    ensures
        text_installed(*old(n), *final(n), tid, text@),
        first_text(final(n).children@) == text@,
        has_text_child(final(n).children@),
{
    let t = Node::text_node(tid, text);
    n.children.clear();
    n.children.push(t);
    proof {
        let c = n.children@;
        assert(c[0].node_type == NodeType::Text);
    }
}

/// `new` is `old` with the `value` attribute set to `v` and nothing else
/// about its attributes changed.
pub open spec fn value_attr_set(old: Node, new: Node, v: Seq<char>) -> bool {
    forall|a: Seq<char>|
        #![trigger new.attr(a)]
        new.attr(a) == if a == "value"@ {
            Some(v)
        } else {
            old.attr(a)
        }
}

/// The node after `set_value(v)`: default captured, `value` attribute
/// and text replaced (by a text node of id `tid`).
pub open spec fn value_written(old: Node, new: Node, tid: NodeId, v: Seq<char>) -> bool {
    &&& new.id == old.id
    &&& new.node_type == old.node_type
    &&& new.tag@ == old.tag@
    &&& new.text@ == old.text@
    &&& default_noted(old, new.ext)
    &&& value_attr_set(old, new, v)
    &&& new.children@.len() == 1
    &&& is_text_node(new.children@[0], tid, v)
}

/// `.value = v` on the node `input`: its default is captured first (the
/// authored value stays the default), then its `value` attribute and
/// its text become `v` (a new text node). Nothing happens without such
/// a node.
pub fn set_value(dom: &mut Dom, input: NodeId, v: &str)
    requires
        old(dom).next_id < u64::MAX,
    ensures
        final(dom).focused == old(dom).focused,
        match first_path(old(dom).root, input) {
            Some(p) => {
                &&& final(dom).next_id == old(dom).next_id + 1
                &&& changed_at_id(
                    old(dom).root,
                    final(dom).root,
                    input,
                    |o: Node, n: Node| value_written(o, n, old(dom).next_id, v@),
                )
            },
            None => *final(dom) == *old(dom),
        },
{
    if node_by_id(&dom.root, input).is_none() {
        return ;
    }
    let tid = dom.fresh_id();
    let ghost old_root = dom.root;
    let ghost mut sub: Node = dom.root;
    match node_by_id_mut(&mut dom.root, input) {
        Some(n) => {
            let ghost o = *n;
            note_default_value(n);
            let ghost o1 = *n;
            n.set_attribute("value", v);
            let ghost o2 = *n;
            install_text(n, tid, v);
            proof {
                sub = *n;
                assert forall|a: Seq<char>| #![trigger sub.attr(a)] sub.attr(a) == if a == "value"@ {
                    Some(v@)
                } else {
                    o.attr(a)
                } by {
                    assert(o2.attr(a) == if a == "value"@ {
                        Some(v@)
                    } else {
                        o1.attr(a)
                    });
                }
                assert(default_noted(o, sub.ext));
                assert(is_text_node(sub.children@[0], tid, v@));
                assert(value_written(o, sub, tid, v@));
            }
        },
        None => {},
    }
    proof {
        lemma_replaced_at(old_root, dom.root, first_path(old_root, input)->0, sub);
    }
}

/// `<input>` mirrors its live text in its `value` attribute after an
/// edit; any other node is left alone.
pub fn mirror_to_attribute(n: &mut Node)
    ensures
        !old(n).is_element("input"@) ==> *final(n) == *old(n),
        old(n).is_element("input"@) ==> final(n).same_but_attrs(old(n)) && value_attr_set(
            *old(n),
            *final(n),
            value_spec(*old(n)),
        ),
{
    if !n.has_tag("input") {
        return ;
    }
    let live = value(n);
    n.set_attribute("value", live.as_str());
}

/// The value a text-family input's text is seeded from: its `value`
/// attribute, or `""`.
pub open spec fn wanted(n: Node) -> Seq<char> {
    match n.attr("value"@) {
        Some(v) => v,
        None => Seq::empty(),
    }
}

/// The text a seeded `n` holds.
pub open spec fn seed_text(n: Node) -> Seq<char> {
    if is_text_input_spec(n) {
        wanted(n)
    } else {
        Seq::empty()
    }
}

/// The number of nodes of the subtree of `n`.
pub open spec fn tree_size(n: Node) -> nat
    decreases n, n.children@.len() + 1,
{
    1 + children_size(n, n.children@.len() as int)
}

/// The number of nodes below the first `k` children of `n`.
pub open spec fn children_size(n: Node, k: int) -> nat
    decreases n, k,
{
    if k <= 0 || k > n.children@.len() {
        0
    } else {
        children_size(n, k - 1) + tree_size(n.children@[k - 1])
    }
}

/// `new` is the subtree `old` after seeding its text-family inputs:
/// each one without a text child, or whose text differs from its
/// `value` attribute, gets one new text node holding that attribute
/// (with an id in `[lo, hi)`); each one captures its default; nothing
/// else changes.
pub open spec fn inputs_seeded(old: Node, new: Node, lo: NodeId, hi: NodeId) -> bool
    decreases old,
{
    &&& new.id == old.id
    &&& new.node_type == old.node_type
    &&& new.tag@ == old.tag@
    &&& new.text@ == old.text@
    &&& new.attrs == old.attrs
    &&& if is_text_input_spec(old) && (!has_text_child(old.children@) || value_spec(old) != wanted(old)) {
        &&& new.children@.len() == 1
        &&& lo <= new.children@[0].id < hi
        &&& is_text_node(new.children@[0], new.children@[0].id, wanted(old))
        &&& default_noted(Node { children: new.children, ..old }, new.ext)
    } else {
        &&& if is_text_input_spec(old) {
            default_noted(old, new.ext)
        } else {
            new.ext == old.ext
        }
        &&& new.children@.len() == old.children@.len()
        &&& forall|j: int| 0 <= j < old.children@.len() ==> inputs_seeded(old.children@[j], #[trigger] new.children@[j], lo, hi)
    }
}

/// `new` is the subtree `old` after seeding its textareas: each one
/// without a text child gets an empty one (with an id in `[lo, hi)`);
/// each one captures its default; nothing else changes.
pub open spec fn textareas_seeded(old: Node, new: Node, lo: NodeId, hi: NodeId) -> bool
    decreases old,
{
    &&& new.id == old.id
    &&& new.node_type == old.node_type
    &&& new.tag@ == old.tag@
    &&& new.text@ == old.text@
    &&& new.attrs == old.attrs
    &&& if old.is_element("textarea"@) && !has_text_child(old.children@) {
        &&& new.children@.len() == 1
        &&& lo <= new.children@[0].id < hi
        &&& is_text_node(new.children@[0], new.children@[0].id, Seq::empty())
        &&& default_noted(Node { children: new.children, ..old }, new.ext)
    } else {
        &&& if old.is_element("textarea"@) {
            default_noted(old, new.ext)
        } else {
            new.ext == old.ext
        }
        &&& new.children@.len() == old.children@.len()
        &&& forall|j: int| 0 <= j < old.children@.len() ==> textareas_seeded(old.children@[j], #[trigger] new.children@[j], lo, hi)
    }
}

proof fn lemma_children_size_grows(n: Node, k: int)
    requires
        0 <= k < n.children@.len(),
    ensures
        children_size(n, k + 1) == children_size(n, k) + tree_size(n.children@[k]),
        children_size(n, k) <= children_size(n, n.children@.len() as int),
    decreases n.children@.len() - k,
{
    if k + 1 < n.children@.len() {
        lemma_children_size_grows(n, k + 1);
    }
}

proof fn lemma_children_size_prefix(a: Node, b: Node, k: int)
    requires
        0 <= k <= a.children@.len(),
        k <= b.children@.len(),
        forall|j: int| 0 <= j < k ==> a.children@[j] == b.children@[j],
    ensures
        children_size(a, k) == children_size(b, k),
    decreases k,
{
    if k > 0 {
        lemma_children_size_prefix(a, b, k - 1);
    }
}

/// A text node alone counts one node; a node holding only it, two.
proof fn lemma_single_text_child_size(n: Node)
    requires
        n.children@.len() == 1,
        n.children@[0].children@.len() == 0,
    ensures
        tree_size(n) == 2,
{
    let c = n.children@[0];
    assert(children_size(c, 0) == 0);
    assert(tree_size(c) == 1);
    assert(children_size(n, 0) == 0);
    assert(children_size(n, 1) == 1);
}

proof fn lemma_inputs_seeded_widen(old: Node, new: Node, lo: NodeId, hi: NodeId, lo2: NodeId, hi2: NodeId)
    requires
        inputs_seeded(old, new, lo, hi),
        lo2 <= lo,
        hi <= hi2,
    ensures
        inputs_seeded(old, new, lo2, hi2),
    decreases old,
{
    if !(is_text_input_spec(old) && (!has_text_child(old.children@) || value_spec(old) != wanted(old))) {
        assert forall|j: int| 0 <= j < old.children@.len() implies inputs_seeded(old.children@[j], #[trigger] new.children@[j], lo2, hi2) by {
            lemma_inputs_seeded_widen(old.children@[j], new.children@[j], lo, hi, lo2, hi2);
        }
    }
}

proof fn lemma_textareas_seeded_widen(old: Node, new: Node, lo: NodeId, hi: NodeId, lo2: NodeId, hi2: NodeId)
    requires
        textareas_seeded(old, new, lo, hi),
        lo2 <= lo,
        hi <= hi2,
    ensures
        textareas_seeded(old, new, lo2, hi2),
    decreases old,
{
    if !(old.is_element("textarea"@) && !has_text_child(old.children@)) {
        assert forall|j: int| 0 <= j < old.children@.len() implies textareas_seeded(old.children@[j], #[trigger] new.children@[j], lo2, hi2) by {
            lemma_textareas_seeded_widen(old.children@[j], new.children@[j], lo, hi, lo2, hi2);
        }
    }
}

fn seed_inputs(n: &mut Node, next: &mut NodeId)
    requires
        *old(next) + tree_size(*old(n)) <= u64::MAX,
    ensures
        *old(next) <= *final(next) <= *old(next) + tree_size(*old(n)),
        tree_size(*final(n)) + *old(next) <= tree_size(*old(n)) + *final(next),
        inputs_seeded(*old(n), *final(n), *old(next), *final(next)),
    decreases *old(n),
{
    let ghost start = *next;
    if is_text_input(n) {
        let want = n.attribute_or_empty("value");
        let have = value(n);
        let reseed = !n.has_text_child() || have != want;
        if reseed {
            let tid = *next;
            *next = *next + 1;
            install_text(n, tid, want.as_str());
            note_default_value(n);
            proof {
                lemma_single_text_child_size(*n);
            }
            return ;
        }
        note_default_value(n);
    }
    let ghost top = *n;
    let mut i: usize = 0;
    while i < n.children.len()
        invariant
            i <= n.children@.len(),
            n.children@.len() == old(n).children@.len(),
            top.children == old(n).children,
            n.id == top.id,
            n.node_type == top.node_type,
            n.tag == top.tag,
            n.text == top.text,
            n.attrs == top.attrs,
            n.ext == top.ext,
            top.id == old(n).id,
            top.node_type == old(n).node_type,
            top.tag == old(n).tag,
            top.text == old(n).text,
            top.attrs == old(n).attrs,
            if is_text_input_spec(*old(n)) {
                default_noted(*old(n), top.ext)
            } else {
                top.ext == old(n).ext
            },
            !(is_text_input_spec(*old(n)) && (!has_text_child(old(n).children@) || value_spec(*old(n)) != wanted(*old(n)))),
            start == *old(next),
            start + tree_size(*old(n)) <= u64::MAX,
            start <= *next <= start + 1 + children_size(*old(n), i as int),
            children_size(*n, i as int) + start <= children_size(*old(n), i as int) + *next,
            forall|j: int| i <= j < n.children@.len() ==> #[trigger] n.children@[j] == old(n).children@[j],
            forall|j: int| 0 <= j < i ==> inputs_seeded(old(n).children@[j], #[trigger] n.children@[j], start, *next),
        decreases n.children@.len() - i,
    {
        assert(decreases_to!(*old(n) => old(n).children@[i as int]));
        proof {
            lemma_children_size_grows(*old(n), i as int);
            if i + 1 < n.children@.len() {
                lemma_children_size_grows(*old(n), i + 1);
            }
        }
        let ghost before = *next;
        let ghost kids = n.children@;
        let ghost whole = *n;
        seed_inputs(&mut n.children[i], next);
        proof {
            lemma_children_size_prefix(whole, *n, i as int);
            assert(children_size(*n, i + 1) == children_size(*n, i as int) + tree_size(n.children@[i as int]));
            assert forall|j: int| 0 <= j < i implies inputs_seeded(old(n).children@[j], #[trigger] n.children@[j], start, *next) by {
                assert(n.children@[j] == kids[j]);
                lemma_inputs_seeded_widen(old(n).children@[j], n.children@[j], start, before, start, *next);
            }
            lemma_inputs_seeded_widen(old(n).children@[i as int], n.children@[i as int], before, *next, start, *next);
        }
        i = i + 1;
    }
}

fn seed_textareas(n: &mut Node, next: &mut NodeId)
    requires
        *old(next) + tree_size(*old(n)) <= u64::MAX,
    ensures
        *old(next) <= *final(next) <= *old(next) + tree_size(*old(n)),
        textareas_seeded(*old(n), *final(n), *old(next), *final(next)),
    decreases *old(n),
{
    let ghost start = *next;
    if n.has_tag("textarea") {
        if !n.has_text_child() {
            let tid = *next;
            *next = *next + 1;
            install_text(n, tid, "");
            note_default_value(n);
            proof {
                reveal_strlit("");
                assert(""@ =~= Seq::<char>::empty());
            }
            return ;
        }
        note_default_value(n);
    }
    let ghost top = *n;
    let mut i: usize = 0;
    while i < n.children.len()
        invariant
            i <= n.children@.len(),
            n.children@.len() == old(n).children@.len(),
            n.id == top.id,
            n.node_type == top.node_type,
            n.tag == top.tag,
            n.text == top.text,
            n.attrs == top.attrs,
            n.ext == top.ext,
            top.id == old(n).id,
            top.node_type == old(n).node_type,
            top.tag == old(n).tag,
            top.text == old(n).text,
            top.attrs == old(n).attrs,
            if old(n).is_element("textarea"@) {
                default_noted(*old(n), top.ext)
            } else {
                top.ext == old(n).ext
            },
            !(old(n).is_element("textarea"@) && !has_text_child(old(n).children@)),
            start == *old(next),
            start + tree_size(*old(n)) <= u64::MAX,
            start <= *next <= start + 1 + children_size(*old(n), i as int),
            forall|j: int| i <= j < n.children@.len() ==> #[trigger] n.children@[j] == old(n).children@[j],
            forall|j: int| 0 <= j < i ==> textareas_seeded(old(n).children@[j], #[trigger] n.children@[j], start, *next),
        decreases n.children@.len() - i,
    {
        assert(decreases_to!(*old(n) => old(n).children@[i as int]));
        proof {
            lemma_children_size_grows(*old(n), i as int);
            if i + 1 < n.children@.len() {
                lemma_children_size_grows(*old(n), i + 1);
            }
        }
        let ghost before = *next;
        let ghost kids = n.children@;
        seed_textareas(&mut n.children[i], next);
        proof {
            assert forall|j: int| 0 <= j < i implies textareas_seeded(old(n).children@[j], #[trigger] n.children@[j], start, *next) by {
                assert(n.children@[j] == kids[j]);
                lemma_textareas_seeded_widen(old(n).children@[j], n.children@[j], start, before, start, *next);
            }
            lemma_textareas_seeded_widen(old(n).children@[i as int], n.children@[i as int], before, *next, start, *next);
        }
        i = i + 1;
    }
}

/// Give every text-family `<input>` of the document a text child holding
/// its `value` attribute (reusing a matching one), then every
/// `<textarea>` without a text child an empty one; each captures its
/// default. New text nodes get fresh ids.
pub fn seed_all(dom: &mut Dom)
    requires
        old(dom).next_id + 3 * tree_size(old(dom).root) <= u64::MAX,
    ensures
        final(dom).focused == old(dom).focused,
        old(dom).next_id <= final(dom).next_id,
        exists|mid: Node|
            inputs_seeded(old(dom).root, mid, old(dom).next_id, final(dom).next_id) && textareas_seeded(
                mid,
                final(dom).root,
                old(dom).next_id,
                final(dom).next_id,
            ),
{
    let mut next = dom.next_id;
    let ghost root0 = dom.root;
    seed_inputs(&mut dom.root, &mut next);
    let ghost mid = dom.root;
    let ghost next1 = next;
    seed_textareas(&mut dom.root, &mut next);
    dom.next_id = next;
    proof {
        lemma_inputs_seeded_widen(root0, mid, old(dom).next_id, next1, old(dom).next_id, next);
        lemma_textareas_seeded_widen(mid, dom.root, next1, next, old(dom).next_id, next);
        assert(inputs_seeded(root0, mid, old(dom).next_id, next) && textareas_seeded(mid, dom.root, old(dom).next_id, next));
    }
}

/// The `defaultValue` of `n`: the recorded one; else, for an
/// `<input>`, its `value` attribute (`""` when absent), for a
/// `<textarea>`, its text. Other elements have none.
pub open spec fn default_value_spec(n: Node) -> Option<Seq<char>> {
    match n.ext.default_value {
        Some(d) => Some(d@),
        None => if n.is_element("input"@) {
            Some(wanted(n))
        } else if n.is_element("textarea"@) {
            Some(value_spec(n))
        } else {
            None
        },
    }
}

/// The `defaultValue` of `n`.
pub fn default_value(n: &Node) -> (r: Option<String>)
    ensures
        match r {
            Some(s) => default_value_spec(*n) == Some(s@),
            None => default_value_spec(*n) is None,
        },
{
    match &n.ext.default_value {
        Some(d) => Some(d.clone()),
        None => {
            if n.has_tag("input") {
                Some(n.attribute_or_empty("value"))
            } else if n.has_tag("textarea") {
                Some(value(n))
            } else {
                None
            }
        },
    }
}

/// `new` is `old` reset to its recorded default `d`: a range's `value`
/// attribute becomes `d` (removed when `d` is empty); a text control's
/// text becomes `d` (a text node of id `tid`), mirrored in an
/// `<input>`'s `value` attribute. Without a recorded default nothing
/// changes.
pub open spec fn reset_written(old: Node, new: Node, tid: NodeId) -> bool {
    match old.ext.default_value {
        None => new == old,
        Some(d) => if is_range_input(old) {
            &&& new.same_but_attrs(&old)
            &&& forall|a: Seq<char>|
                #![trigger new.attr(a)]
                new.attr(a) == if a == "value"@ {
                    if d@.len() == 0 {
                        None
                    } else {
                        Some(d@)
                    }
                } else {
                    old.attr(a)
                }
        } else {
            &&& new.id == old.id
            &&& new.node_type == old.node_type
            &&& new.tag@ == old.tag@
            &&& new.text@ == old.text@
            &&& new.ext == old.ext
            &&& new.children@.len() == 1
            &&& is_text_node(new.children@[0], tid, d@)
            &&& if old.is_element("input"@) {
                value_attr_set(old, new, d@)
            } else {
                new.attrs == old.attrs
            }
        },
    }
}

/// Whether a reset of `n` writes a new text node.
pub open spec fn reset_installs_text(n: Node) -> bool {
    n.ext.default_value is Some && !is_range_input(n)
}

pub(crate) fn reset_node(n: &mut Node, tid: NodeId)
    ensures
        reset_written(*old(n), *final(n), tid),
{
    let d = match &n.ext.default_value {
        Some(d) => d.clone(),
        None => return ,
    };
    let range = match input_type_state(n) {
        Some(s) => s == InputTypeState::Range,
        None => false,
    };
    if range {
        if d.as_str().is_empty() {
            n.remove_attribute("value");
        } else {
            n.set_attribute("value", d.as_str());
        }
        return ;
    }
    let ghost o = *n;
    install_text(n, tid, d.as_str());
    if n.has_tag("input") {
        let ghost o1 = *n;
        n.set_attribute("value", d.as_str());
        proof {
            let fin = *n;
            assert forall|a: Seq<char>| #![trigger fin.attr(a)] fin.attr(a) == if a == "value"@ {
                Some(d@)
            } else {
                o.attr(a)
            } by {
                assert(o1.attr(a) == o.attr(a));
            }
        }
    }
}

/// Restore the control `control` to its recorded `defaultValue` (see
/// [`reset_written`]); nothing happens without such a node or default.
/// A text control's new text node takes the next fresh id.
pub fn reset_to_default(dom: &mut Dom, control: NodeId)
    requires
        old(dom).next_id < u64::MAX,
    ensures
        final(dom).focused == old(dom).focused,
        match node_of(old(dom).root, control) {
            Some(m) => {
                &&& final(dom).next_id == if reset_installs_text(m) {
                    old(dom).next_id + 1
                } else {
                    old(dom).next_id as int
                }
                &&& changed_at_id(
                    old(dom).root,
                    final(dom).root,
                    control,
                    |o: Node, n: Node| reset_written(o, n, old(dom).next_id),
                )
            },
            None => *final(dom) == *old(dom),
        },
{
    let installs = match node_by_id(&dom.root, control) {
        None => return ,
        Some(m) => {
            let range = match input_type_state(m) {
                Some(s) => s == InputTypeState::Range,
                None => false,
            };
            m.ext.default_value.is_some() && !range
        },
    };
    let tid = if installs {
        dom.fresh_id()
    } else {
        dom.next_id
    };
    let ghost old_root = dom.root;
    let ghost mut sub: Node = dom.root;
    match node_by_id_mut(&mut dom.root, control) {
        Some(n) => {
            reset_node(n, tid);
            proof {
                sub = *n;
            }
        },
        None => {},
    }
    proof {
        lemma_replaced_at(old_root, dom.root, first_path(old_root, control)->0, sub);
    }
}

/// Whether seeding a single control writes a text node: a text-family
/// `<input>` or a `<textarea>` without a text child.
pub open spec fn lacks_text(n: Node) -> bool {
    !has_text_child(n.children@) && (is_text_input_spec(n) || n.is_element("textarea"@))
}

/// `new` is `old` with the text child it lacked: a text-family input's
/// `value` attribute, a textarea's empty text (a text node of id `tid`).
pub open spec fn seeded_one(old: Node, new: Node, tid: NodeId) -> bool {
    if lacks_text(old) {
        text_installed(old, new, tid, seed_text(old))
    } else {
        new == old
    }
}

/// Give the single control `id` the text child it lacks (see
/// [`seeded_one`]), taking the next fresh id for it; anything else is
/// left alone.
pub fn ensure_seeded(dom: &mut Dom, id: NodeId)
    requires
        old(dom).next_id < u64::MAX,
    ensures
        final(dom).focused == old(dom).focused,
        match node_of(old(dom).root, id) {
            Some(m) => {
                &&& final(dom).next_id == if lacks_text(m) {
                    old(dom).next_id + 1
                } else {
                    old(dom).next_id as int
                }
                &&& changed_at_id(
                    old(dom).root,
                    final(dom).root,
                    id,
                    |o: Node, n: Node| seeded_one(o, n, old(dom).next_id),
                )
            },
            None => *final(dom) == *old(dom),
        },
{
    let lacks = match node_by_id(&dom.root, id) {
        None => return ,
        Some(m) => !m.has_text_child() && (is_text_input(m) || m.has_tag("textarea")),
    };
    let tid = if lacks {
        dom.fresh_id()
    } else {
        dom.next_id
    };
    let ghost old_root = dom.root;
    let ghost mut sub: Node = dom.root;
    match node_by_id_mut(&mut dom.root, id) {
        Some(n) => {
            if lacks {
                let want = if is_text_input(n) {
                    n.attribute_or_empty("value")
                } else {
                    String::new()
                };
                install_text(n, tid, want.as_str());
            }
            proof {
                sub = *n;
            }
        },
        None => {},
    }
    proof {
        lemma_replaced_at(old_root, dom.root, first_path(old_root, id)->0, sub);
    }
}

/// The mask a password input paints for a value of `count` grapheme
/// clusters: one bullet each.
pub fn bullets(count: usize) -> (r: String)
    ensures
        r@ == repeat('\u{2022}', count as nat),
{
    let mut out = String::new();
    push_n(&mut out, '\u{2022}', count);
    proof {
        assert(Seq::<char>::empty() + repeat('\u{2022}', count as nat) =~= repeat('\u{2022}', count as nat));
    }
    out
}

pub open spec fn is_password_spec(n: Node) -> bool {
    input_state(n) == Some(InputTypeState::Password)
}

/// What a password input paints in place of its text: a bullet per
/// grapheme cluster of its live value. `None` for any other node.
pub fn password_inline_chrome(n: &Node) -> (r: Option<String>)
    ensures
        match r {
            Some(s) => is_password_spec(*n) && s@ == repeat('\u{2022}', graphemes_of(value_spec(*n)) as nat),
            None => !is_password_spec(*n),
        },
{
    let password = match input_type_state(n) {
        Some(s) => s == InputTypeState::Password,
        None => false,
    };
    if !password {
        return None;
    }
    let v = value(n);
    Some(bullets(grapheme_count(v.as_str())))
}

/// What `.value = v` writes is what the value reads back: the live
/// value and the `value` attribute are both `v`.
pub proof fn law_set_value_reads_back(old: Node, new: Node, tid: NodeId, v: Seq<char>)
    requires
        value_written(old, new, tid, v),
    ensures
        value_spec(new) == v,
        new.attr("value"@) == Some(v),
{
    let c = new.children@;
    assert(c[0].node_type == NodeType::Text);
}

/// A reset after `.value = v` brings a text control back to its
/// authored value: the default it had, or else the value it held
/// before the write (captured then); an `<input>` mirrors it in its
/// `value` attribute.
pub proof fn law_reset_restores_default(o: Node, n1: Node, t1: NodeId, v: Seq<char>, n2: Node, t2: NodeId)
    requires
        keeps_default_spec(o),
        !is_range_input(o),
        value_written(o, n1, t1, v),
        reset_written(n1, n2, t2),
    ensures
        value_spec(n2) == match o.ext.default_value {
            Some(d) => d@,
            None => live_value_spec(o),
        },
        o.is_element("input"@) ==> n2.attr("value"@) == Some(value_spec(n2)),
{
    reveal_strlit("type");
    reveal_strlit("value");
    assert("type"@ != "value"@) by {
        assert("type"@[0] != "value"@[0]);
    }
    assert(n1.attr("type"@) == o.attr("type"@));
    assert(input_state(n1) == input_state(o));
    let c = n2.children@;
    assert(c[0].node_type == NodeType::Text);
    if o.is_element("input"@) {
        assert(n1.is_element("input"@));
        assert(n2.attr("value"@) == Some(n1.ext.default_value->0@));
    }
}

/// Whether typing `text` in the focused node `n` changes it: `n` is a
/// text-family `<input>` or a `<textarea>`, not read-only, and the
/// number filter lets the text through.
pub open spec fn accepts_typing_spec(n: Node, text: Seq<char>) -> bool {
    &&& is_text_input_spec(n) || n.is_element("textarea"@)
    &&& !n.has_attr("readonly"@)
    &&& !(is_number_input_spec(n) && text.len() > 0 && exists|i: int| 0 <= i < text.len() && !numeric_char(#[trigger] text[i]))
}

/// Whether typing `text` in the focused node `n` changes it.
pub fn accepts_typing(n: &Node, text: &str) -> (r: bool)
    ensures
        r == accepts_typing_spec(*n, text@),
{
    let control = is_text_input(n) || n.has_tag("textarea");
    let readonly = n.has_attribute("readonly");
    let refused = refuses_insert(n, Some(text), false);
    assert(refused == (is_number_input_spec(*n) && text@.len() > 0 && exists|i: int|
        0 <= i < text@.len() && !numeric_char(#[trigger] text@[i])));
    control && !readonly && !refused
}

} // verus!
