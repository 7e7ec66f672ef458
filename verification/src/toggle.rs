//! `<input type="checkbox">` and `<input type="radio">`: activation flips
//! a checkbox, or checks a radio and unchecks the rest of its group (the
//! radios of the document with the same non-empty `name`); a cancelled
//! activation is reverted; Space activates the focused one, and the
//! arrows move the focus within a radio group, wrapping. The state is
//! the presence of the `checked` attribute; its first known value is
//! kept as the `defaultChecked` a form reset restores. A disabled one
//! (by its own attribute or a disabled fieldset) is not activated.

use vstd::prelude::*;
use crate::dom::{Dom, Node, NodeExt, NodeId};
use crate::events::KeyboardEvent;
use crate::form::{control_of, control_state};
use crate::forms::{controls, input_state, input_type_state, InputTypeState};
use crate::path::{
    ancestor, at, changed_at_id, find_path, first_path, lemma_path_ok_prefix, lemma_replaced_at, node_at, node_by_id,
    node_by_id_mut, node_of, nodes_where, child_nodes_where, ids_of, path_ok, prefix, replaced_at, ids_unique,
    lemma_first_path_at, lemma_at_contained, lemma_replaced_attrs,
};

verus! {

pub open spec fn is_toggle_spec(n: Node) -> bool {
    input_state(n) == Some(InputTypeState::Checkbox) || input_state(n) == Some(InputTypeState::Radio)
}

pub open spec fn is_radio_spec(n: Node) -> bool {
    input_state(n) == Some(InputTypeState::Radio)
}

/// Whether `n` is a checkbox or a radio.
pub fn is_toggle(n: &Node) -> (r: bool)
    ensures
        r == is_toggle_spec(*n),
{
    match input_type_state(n) {
        Some(s) => s == InputTypeState::Checkbox || s == InputTypeState::Radio,
        None => false,
    }
}

/// Whether `n` is a radio.
pub fn is_radio(n: &Node) -> (r: bool)
    ensures
        r == is_radio_spec(*n),
{
    match input_type_state(n) {
        Some(s) => s == InputTypeState::Radio,
        None => false,
    }
}

/// `n`'s state with its current checkedness captured as its
/// `defaultChecked`, unless one is known.
pub open spec fn noted_ext(n: Node) -> NodeExt {
    if n.ext.default_checked is None {
        NodeExt { default_checked: Some(n.has_attr("checked"@)), ..n.ext }
    } else {
        n.ext
    }
}

/// `new` is node `old` (children aside) with its default captured and
/// `checked` present (empty) when `on`, absent otherwise.
pub open spec fn fields_toggled(old: Node, new: Node, on: bool) -> bool {
    &&& new.id == old.id
    &&& new.node_type == old.node_type
    &&& new.tag@ == old.tag@
    &&& new.text@ == old.text@
    &&& new.ext == noted_ext(old)
    &&& forall|a: Seq<char>|
        #![trigger new.attr(a)]
        new.attr(a) == if a == "checked"@ {
            if on {
                Some(Seq::<char>::empty())
            } else {
                None
            }
        } else {
            old.attr(a)
        }
}

/// `new` is node `old` (children aside) unchanged.
pub open spec fn fields_same(old: Node, new: Node) -> bool {
    &&& new.id == old.id
    &&& new.node_type == old.node_type
    &&& new.tag@ == old.tag@
    &&& new.text@ == old.text@
    &&& new.attrs == old.attrs
    &&& new.ext == old.ext
}

/// `new` is `old` with its children kept.
pub open spec fn toggled_node(old: Node, new: Node, on: bool) -> bool {
    fields_toggled(old, new, on) && new.children == old.children
}

/// Capture `n`'s checkedness as its `defaultChecked` unless one is known.
pub fn note_default_checked(n: &mut Node)
    ensures
        final(n).ext == noted_ext(*old(n)),
        final(n).same_but_attrs(old(n)) || old(n).ext.default_checked is None,
        final(n).attrs == old(n).attrs,
        final(n).id == old(n).id,
        final(n).node_type == old(n).node_type,
        final(n).tag == old(n).tag,
        final(n).text == old(n).text,
        final(n).children == old(n).children,
{
    if n.ext.default_checked.is_some() {
        return ;
    }
    let checked = n.has_attribute("checked");
    n.ext.default_checked = Some(checked);
}

/// Capture the default, then set `checked` to `on`.
fn toggle_to(n: &mut Node, on: bool)
    ensures
        toggled_node(*old(n), *final(n), on),
{
    note_default_checked(n);
    let ghost mid = *n;
    proof {
        reveal_strlit("");
        assert(""@ =~= Seq::<char>::empty());
        assert forall|a: Seq<char>| mid.attr(a) == old(n).attr(a) by {}
    }
    if on {
        n.set_attribute("checked", "");
    } else {
        n.remove_attribute("checked");
    }
    assert forall|a: Seq<char>| #![trigger n.attr(a)] n.attr(a) == if a == "checked"@ {
        if on {
            Some(Seq::<char>::empty())
        } else {
            None
        }
    } else {
        old(n).attr(a)
    } by {
        assert(mid.attr(a) == old(n).attr(a));
    }
}

/// `new` is the checkbox / radio `old` back at its `defaultChecked`:
/// `checked` present exactly when the default is; without a recorded
/// default, unchanged.
pub open spec fn checked_reset(old: Node, new: Node) -> bool {
    match old.ext.default_checked {
        Some(d) => set_checked(old, new, d),
        None => new == old,
    }
}

/// Restore a checkbox / radio to its `defaultChecked`; nothing happens
/// without a recorded default.
pub fn reset_to_default(n: &mut Node)
    ensures
        checked_reset(*old(n), *final(n)),
{
    proof {
        reveal_strlit("");
        assert(""@ =~= Seq::<char>::empty());
    }
    match n.ext.default_checked {
        Some(true) => n.set_attribute("checked", ""),
        Some(false) => n.remove_attribute("checked"),
        None => {},
    }
}

/// The radios of group `name`.
pub open spec fn radio_named(name: Seq<char>) -> spec_fn(Node) -> bool {
    |n: Node| is_radio_spec(n) && n.attr("name"@) == Some(name)
}

/// `new` is the subtree `old` with every radio of group `name` toggled:
/// `widget` checked, every other one unchecked.
pub open spec fn group_checked(old: Node, new: Node, name: Seq<char>, widget: NodeId) -> bool
    decreases old,
{
    &&& if radio_named(name)(old) {
        fields_toggled(old, new, old.id == widget)
    } else {
        fields_same(old, new)
    }
    &&& new.children@.len() == old.children@.len()
    &&& forall|j: int| 0 <= j < old.children@.len() ==> group_checked(old.children@[j], #[trigger] new.children@[j], name, widget)
}

/// After a radio of a named group is checked, the group holds one
/// checked radio: every radio of the group, wherever it stands in the
/// tree, is checked exactly when it is the activated one.
pub proof fn law_radio_group_one_checked(old: Node, new: Node, name: Seq<char>, widget: NodeId, q: Seq<usize>)
    requires
        group_checked(old, new, name, widget),
        path_ok(new, q),
        radio_named(name)(at(new, q)),
    ensures
        at(new, q).has_attr("checked"@) <==> at(new, q).id == widget,
    decreases q.len(),
{
    if q.len() == 0 {
        assert(at(new, q) == new);
        if !radio_named(name)(old) {
            assert(fields_same(old, new));
            assert(new.attr("type"@) == old.attr("type"@));
            assert(new.attr("name"@) == old.attr("name"@));
            assert(input_state(new) == input_state(old));
            assert(false);
        }
        assert(fields_toggled(old, new, old.id == widget));
        assert(new.attr("checked"@) == if old.id == widget { Some(Seq::<char>::empty()) } else { None::<Seq<char>> });
    } else {
        let i = q[0] as int;
        assert(0 <= i < new.children@.len());
        assert(group_checked(old.children@[i], new.children@[i], name, widget));
        assert(at(new, q) == at(new.children@[i], q.drop_first()));
        law_radio_group_one_checked(old.children@[i], new.children@[i], name, widget, q.drop_first());
    }
}

fn check_in_group(n: &mut Node, name: &str, widget: NodeId)
    ensures
        group_checked(*old(n), *final(n), name@, widget),
    decreases *old(n),
{
    if is_radio(n) && n.attribute_is("name", name) {
        toggle_to(n, n.id == widget);
    }
    let ghost top = *n;
    let mut i: usize = 0;
    while i < n.children.len()
        invariant
            i <= n.children@.len(),
            n.children@.len() == old(n).children@.len(),
            if radio_named(name@)(*old(n)) {
                fields_toggled(*old(n), top, old(n).id == widget)
            } else {
                fields_same(*old(n), top)
            },
            n.id == top.id,
            n.node_type == top.node_type,
            n.tag == top.tag,
            n.text == top.text,
            n.attrs == top.attrs,
            n.ext == top.ext,
            forall|j: int| i <= j < n.children@.len() ==> #[trigger] n.children@[j] == old(n).children@[j],
            forall|j: int| 0 <= j < i ==> group_checked(old(n).children@[j], #[trigger] n.children@[j], name@, widget),
        decreases n.children@.len() - i,
    {
        assert(decreases_to!(*old(n) => old(n).children@[i as int]));
        check_in_group(&mut n.children[i], name, widget);
        i = i + 1;
    }
    assert forall|a: Seq<char>| #![trigger n.attr(a)] n.attr(a) == top.attr(a) by {}
}

fn collect_radios<'a>(n: &'a Node, name: &str, out: &mut Vec<&'a Node>)
    ensures
        final(out)@.len() == old(out)@.len() + nodes_where(*n, radio_named(name@)).len(),
        forall|k: int| 0 <= k < old(out)@.len() ==> *#[trigger] final(out)@[k] == *old(out)@[k],
        forall|k: int|
            0 <= k < nodes_where(*n, radio_named(name@)).len() ==> *#[trigger] final(out)@[old(out)@.len() + k]
                == nodes_where(*n, radio_named(name@))[k],
    decreases n,
{
    let ghost start = out@;
    let ghost me = if radio_named(name@)(*n) {
        seq![*n]
    } else {
        Seq::<Node>::empty()
    };
    if is_radio(n) && n.attribute_is("name", name) {
        out.push(n);
    }
    let ghost kids = child_nodes_where(*n, radio_named(name@));
    let mut i: usize = 0;
    assert(kids.take(0).flatten() =~= Seq::<Node>::empty());
    while i < n.children.len()
        invariant
            i <= n.children@.len(),
            kids == child_nodes_where(*n, radio_named(name@)),
            out@.len() == start.len() + me.len() + kids.take(i as int).flatten().len(),
            forall|k: int| 0 <= k < start.len() ==> *#[trigger] out@[k] == *start[k],
            forall|k: int|
                0 <= k < (me + kids.take(i as int).flatten()).len() ==> *#[trigger] out@[start.len() + k] == (me
                    + kids.take(i as int).flatten())[k],
        decreases n.children@.len() - i,
    {
        assert(decreases_to!(n => n.children@[i as int]));
        let ghost before = out@;
        collect_radios(&n.children[i], name, out);
        proof {
            assert(kids[i as int] == nodes_where(n.children@[i as int], radio_named(name@)));
            assert(kids.take(i + 1) =~= kids.take(i as int).push(kids[i as int]));
            kids.take(i as int).lemma_flatten_push(kids[i as int]);
            let prev = me + kids.take(i as int).flatten();
            let next = me + kids.take(i + 1).flatten();
            assert(next =~= prev + kids[i as int]);
            assert forall|k: int| 0 <= k < next.len() implies *#[trigger] out@[start.len() + k] == next[k] by {
                if k < prev.len() {
                    assert(out@[start.len() + k] == before[start.len() + k]);
                } else {
                    assert(out@[before.len() + (k - prev.len())] == kids[i as int][k - prev.len()]);
                }
            }
        }
        i = i + 1;
    }
    proof {
        assert(kids.take(i as int) =~= kids);
        assert(nodes_where(*n, radio_named(name@)) == me + kids.flatten());
        assert forall|k: int| 0 <= k < nodes_where(*n, radio_named(name@)).len() implies *#[trigger] out@[start.len()
            + k] == nodes_where(*n, radio_named(name@))[k] by {}
    }
}

/// The radio group of `widget`: the radios of the document under `root`
/// with its non-empty `name`, in tree order; just `widget` when it has
/// no name.
pub open spec fn group_spec(root: Node, widget: Node) -> Seq<NodeId> {
    match widget.attr("name"@) {
        Some(nm) => if nm.len() > 0 {
            ids_of(nodes_where(root, radio_named(nm)))
        } else {
            seq![widget.id]
        },
        None => seq![widget.id],
    }
}

/// The ids of the radio group of `widget`.
pub fn radio_group(root: &Node, widget: &Node) -> (r: Vec<NodeId>)
    ensures
        r@ == group_spec(*root, *widget),
{
    let name = match widget.get_attribute("name") {
        Some(v) => v,
        None => {
            return vec![widget.id];
        },
    };
    if crate::text::chars_of(name.as_str()).len() == 0 {
        return vec![widget.id];
    }
    let mut nodes: Vec<&Node> = Vec::new();
    collect_radios(root, name.as_str(), &mut nodes);
    assert forall|k: int| 0 <= k < nodes@.len() implies *#[trigger] nodes@[k] == nodes_where(*root, radio_named(name@))[k] by {
        assert(nodes@[0 + k] == nodes@[k]);
    }
    let mut out: Vec<NodeId> = Vec::new();
    let mut i: usize = 0;
    while i < nodes.len()
        invariant
            i <= nodes@.len(),
            nodes@.len() == nodes_where(*root, radio_named(name@)).len(),
            forall|k: int| 0 <= k < nodes@.len() ==> *#[trigger] nodes@[k] == nodes_where(*root, radio_named(name@))[k],
            out@ =~= ids_of(nodes_where(*root, radio_named(name@))).take(i as int),
        decreases nodes@.len() - i,
    {
        assert(nodes@[i as int].id == ids_of(nodes_where(*root, radio_named(name@)))[i as int]);
        out.push(nodes[i].id);
        i = i + 1;
    }
    out
}

/// What undoing an activation needs.
#[derive(Clone, Copy, Debug, PartialEq, Eq, Structural)]
pub enum ToggleUndo {
    /// A checkbox was flipped.
    Checkbox,
    /// A radio was checked; the group member checked before, if any.
    Radio { previously_checked: Option<NodeId> },
    /// An already-checked radio: nothing changed.
    Nothing,
}

/// The first checked node of `ns` other than `widget`.
pub open spec fn first_checked_other(ns: Seq<Node>, widget: NodeId, i: int) -> Option<NodeId>
    decreases ns.len() - i,
{
    if i < 0 || i >= ns.len() {
        None
    } else if ns[i].id != widget && ns[i].has_attr("checked"@) {
        Some(ns[i].id)
    } else {
        first_checked_other(ns, widget, i + 1)
    }
}

/// `new` is `old` with the node `id` captured its default, nothing else.
pub open spec fn noted_only(old: Node, new: Node) -> bool {
    fields_same(old, Node { ext: old.ext, ..new }) && new.ext == noted_ext(old) && new.children == old.children
}

fn previously_checked(root: &Node, name: &str, widget: NodeId) -> (r: Option<NodeId>)
    ensures
        r == first_checked_other(nodes_where(*root, radio_named(name@)), widget, 0),
{
    let mut nodes: Vec<&Node> = Vec::new();
    collect_radios(root, name, &mut nodes);
    let ghost ns = nodes_where(*root, radio_named(name@));
    assert forall|k: int| 0 <= k < nodes@.len() implies *#[trigger] nodes@[k] == ns[k] by {
        assert(nodes@[0 + k] == nodes@[k]);
    }
    let mut i: usize = 0;
    while i < nodes.len()
        invariant
            i <= nodes@.len(),
            ns == nodes_where(*root, radio_named(name@)),
            nodes@.len() == ns.len(),
            forall|k: int| 0 <= k < nodes@.len() ==> *#[trigger] nodes@[k] == ns[k],
            first_checked_other(ns, widget, 0) == first_checked_other(ns, widget, i as int),
        decreases nodes@.len() - i,
    {
        assert(*nodes@[i as int] == ns[i as int]);
        if nodes[i].id != widget && nodes[i].has_attribute("checked") {
            return Some(nodes[i].id);
        }
        i = i + 1;
    }
    None
}

/// The state change of activating the node `widget` (before any
/// listener sees the click): a checked radio only captures its default;
/// another radio is checked and the rest of its group unchecked (every
/// member capturing its default first); a checkbox captures its default
/// and flips. Returns what undoing it needs.
pub fn pre_activate(dom: &mut Dom, widget: NodeId) -> (r: ToggleUndo)
    requires
        node_of(old(dom).root, widget) is Some,
        is_toggle_spec(node_of(old(dom).root, widget)->0),
    ensures
        final(dom).focused == old(dom).focused,
        final(dom).next_id == old(dom).next_id,
        ({
            let w = node_of(old(dom).root, widget)->0;
            if is_radio_spec(w) {
                if w.has_attr("checked"@) {
                    r == ToggleUndo::Nothing && changed_at_id(
                        old(dom).root,
                        final(dom).root,
                        widget,
                        |o: Node, n: Node| noted_only(o, n),
                    )
                } else {
                    match w.attr("name"@) {
                        Some(nm) if nm.len() > 0 => {
                            &&& r == ToggleUndo::Radio {
                                previously_checked: first_checked_other(
                                    nodes_where(old(dom).root, radio_named(nm)),
                                    widget,
                                    0,
                                ),
                            }
                            &&& group_checked(old(dom).root, final(dom).root, nm, widget)
                        },
                        _ => {
                            &&& r == ToggleUndo::Radio { previously_checked: None }
                            &&& changed_at_id(
                                old(dom).root,
                                final(dom).root,
                                widget,
                                |o: Node, n: Node| toggled_node(o, n, true),
                            )
                        },
                    }
                }
            } else {
                &&& r == ToggleUndo::Checkbox
                &&& changed_at_id(
                    old(dom).root,
                    final(dom).root,
                    widget,
                    |o: Node, n: Node| toggled_node(o, n, !o.has_attr("checked"@)),
                )
            }
        }),
{
    let (radio, checked, name) = match node_by_id(&dom.root, widget) {
        Some(w) => (is_radio(w), w.has_attribute("checked"), w.attribute_or_empty("name")),
        None => {
            return ToggleUndo::Nothing;
        },
    };
    let named_group = radio && !checked && crate::text::chars_of(name.as_str()).len() > 0;
    let mut prev: Option<NodeId> = None;
    if named_group {
        prev = previously_checked(&dom.root, name.as_str(), widget);
    }
    let ghost old_root = dom.root;
    if named_group {
        check_in_group(&mut dom.root, name.as_str(), widget);
        return ToggleUndo::Radio { previously_checked: prev };
    }
    let ghost mut sub: Node = dom.root;
    let r = match node_by_id_mut(&mut dom.root, widget) {
        Some(w) => {
            let r = if radio && checked {
                note_default_checked(w);
                ToggleUndo::Nothing
            } else if radio {
                toggle_to(w, true);
                ToggleUndo::Radio { previously_checked: None }
            } else {
                toggle_to(w, !checked);
                ToggleUndo::Checkbox
            };
            proof {
                sub = *w;
            }
            r
        },
        None => ToggleUndo::Nothing,
    };
    proof {
        let p = first_path(old_root, widget)->0;
        lemma_replaced_at(old_root, dom.root, p, sub);
    }
    r
}

/// Whether `input` then `change` fire on the widget once the click has
/// been dispatched: only when no listener cancelled it and the
/// activation changed the state (re-clicking a checked radio changes
/// nothing, so fires nothing; a cancelled one is reverted instead).
pub fn fires_input_change(undo: ToggleUndo, canceled: bool) -> (r: bool)
    ensures
        r == (!canceled && undo != ToggleUndo::Nothing),
{
    !canceled && !matches!(undo, ToggleUndo::Nothing)
}

/// `new` is `old` with the node of id `id` holding `checked` when `on`
/// and lacking it otherwise, and no other change.
pub open spec fn checked_set_at(old: Node, new: Node, id: NodeId, on: bool) -> bool {
    changed_at_id(old, new, id, |o: Node, n: Node| set_checked(o, n, on))
}

proof fn lemma_literals_differ()
    ensures
        "type"@ != "checked"@,
        "name"@ != "checked"@,
{
    reveal_strlit("type");
    reveal_strlit("name");
    reveal_strlit("checked");
    assert("type"@.len() != "checked"@.len());
    assert("name"@.len() != "checked"@.len());
}

/// Checking a group keeps every path, id and group membership; a member
/// ends checked exactly when it is `widget`.
proof fn lemma_group_paths(a: Node, b: Node, name: Seq<char>, widget: NodeId, q: Seq<usize>)
    requires
        group_checked(a, b, name, widget),
    ensures
        path_ok(b, q) == path_ok(a, q),
        path_ok(a, q) ==> at(b, q).id == at(a, q).id,
        path_ok(a, q) ==> radio_named(name)(at(b, q)) == radio_named(name)(at(a, q)),
        path_ok(a, q) && radio_named(name)(at(a, q)) ==> (at(b, q).has_attr("checked"@) <==> at(a, q).id == widget),
    decreases q.len(),
{
    if q.len() == 0 {
        lemma_literals_differ();
        if radio_named(name)(a) {
            assert(fields_toggled(a, b, a.id == widget));
            assert(b.attr("type"@) == a.attr("type"@));
            assert(b.attr("name"@) == a.attr("name"@));
            assert(b.attr("checked"@) == if a.id == widget { Some(Seq::<char>::empty()) } else { None::<Seq<char>> });
        } else {
            assert(fields_same(a, b));
        }
        assert(input_state(b) == input_state(a));
    } else {
        let i = q[0] as int;
        if 0 <= i < a.children@.len() {
            assert(group_checked(a.children@[i], b.children@[i], name, widget));
            lemma_group_paths(a.children@[i], b.children@[i], name, widget, q.drop_first());
            assert(at(a, q) == at(a.children@[i], q.drop_first()));
            assert(at(b, q) == at(b.children@[i], q.drop_first()));
        }
    }
}

/// Setting `checked` on one node keeps every path, id and group
/// membership, and every other node's attributes.
proof fn lemma_point_paths(old: Node, new: Node, id: NodeId, on: bool, name: Seq<char>, q: Seq<usize>)
    requires
        checked_set_at(old, new, id, on),
    ensures
        path_ok(new, q) == path_ok(old, q),
        path_ok(old, q) ==> at(new, q).id == at(old, q).id,
        path_ok(old, q) ==> radio_named(name)(at(new, q)) == radio_named(name)(at(old, q)),
        path_ok(old, q) && first_path(old, id) != Some(q) ==> at(new, q).attrs == at(old, q).attrs,
        first_path(old, id) == Some(q) ==> at(new, q).has_attr("checked"@) == on,
{
    lemma_first_path_at(old, id);
    match first_path(old, id) {
        Some(p) => {
            let sub = at(new, p);
            assert(set_checked(at(old, p), sub, on));
            lemma_replaced_attrs(old, new, p, sub, q);
            lemma_literals_differ();
            if q == p {
                assert(sub.attr("type"@) == at(old, p).attr("type"@));
                assert(sub.attr("name"@) == at(old, p).attr("name"@));
                assert(input_state(sub) == input_state(at(old, p)));
                reveal_strlit("");
                assert(sub.attr("checked"@) == if on { Some(Seq::<char>::empty()) } else { None::<Seq<char>> });
            } else if path_ok(old, q) {
                assert(at(new, q).attr("type"@) == at(old, q).attr("type"@));
                assert(input_state(at(new, q)) == input_state(at(old, q)));
            }
        },
        None => {},
    }
}

/// A cancelled radio activation leaves its group as it found it: after
/// the group is checked for `widget` and the undo unchecks `widget` and
/// re-checks the member that was checked before (`prev`, the one checked
/// member, if any), every member of the group is checked exactly when it
/// was before the activation.
pub proof fn law_cancelled_radio_restored(
    a: Node,
    b: Node,
    mid: Node,
    c: Node,
    name: Seq<char>,
    widget: NodeId,
    prev: Option<NodeId>,
    q: Seq<usize>,
)
    requires
        ids_unique(a),
        forall|r: Seq<usize>|
            #![trigger at(a, r)]
            path_ok(a, r) && radio_named(name)(at(a, r)) ==> (at(a, r).has_attr("checked"@) <==> prev == Some(
                at(a, r).id,
            )),
        prev != Some(widget),
        group_checked(a, b, name, widget),
        checked_set_at(b, mid, widget, false),
        match prev {
            Some(p) => checked_set_at(mid, c, p, true),
            None => c == mid,
        },
        path_ok(c, q),
        radio_named(name)(at(c, q)),
    ensures
        at(c, q).has_attr("checked"@) == at(a, q).has_attr("checked"@),
{
    lemma_group_paths(a, b, name, widget, q);
    lemma_point_paths(b, mid, widget, false, name, q);
    if let Some(p) = prev {
        lemma_point_paths(mid, c, p, true, name, q);
    }
    let id = at(a, q).id;
    assert(path_ok(a, q));
    assert(radio_named(name)(at(a, q)));
    assert(at(a, q).has_attr("checked"@) <==> prev == Some(id));
    lemma_first_path_at(mid, widget);
    lemma_first_path_at(b, widget);
    if prev is Some && first_path(mid, prev->0) == Some(q) {
        lemma_first_path_at(mid, prev->0);
    } else {
        assert(at(c, q).has_attr("checked"@) == at(mid, q).has_attr("checked"@));
        if first_path(b, widget) == Some(q) {
        } else {
            assert(at(mid, q).has_attr("checked"@) == at(b, q).has_attr("checked"@));
            if id == widget {
                lemma_at_contained(b, q);
                lemma_first_path_at(b, widget);
                let pw = first_path(b, widget)->0;
                lemma_group_paths(a, b, name, widget, pw);
                assert(at(a, pw).id == at(a, q).id);
                assert(pw == q);
            }
            if prev == Some(id) {
                lemma_at_contained(mid, q);
                lemma_first_path_at(mid, id);
                let pp = first_path(mid, id)->0;
                lemma_point_paths(b, mid, widget, false, name, pp);
                lemma_group_paths(a, b, name, widget, pp);
                assert(at(a, pp).id == at(a, q).id);
                assert(pp == q);
            }
        }
    }
}

/// Undo an activation a listener cancelled: a checkbox flips back; a
/// radio loses `checked` and the radio of its group that was checked
/// before, if any, gets it back.
pub fn revert(dom: &mut Dom, widget: NodeId, undo: ToggleUndo)
    ensures
        final(dom).focused == old(dom).focused,
        final(dom).next_id == old(dom).next_id,
        undo == ToggleUndo::Nothing ==> final(dom).root == old(dom).root,
        undo == ToggleUndo::Checkbox ==> changed_at_id(
            old(dom).root,
            final(dom).root,
            widget,
            |o: Node, n: Node| set_checked(o, n, !o.has_attr("checked"@)),
        ),
        match undo {
            ToggleUndo::Radio { previously_checked } => exists|mid: Node|
                #[trigger] checked_set_at(old(dom).root, mid, widget, false) && match previously_checked {
                    Some(p) => checked_set_at(mid, final(dom).root, p, true),
                    None => final(dom).root == mid,
                },
            _ => true,
        },
{
    match undo {
        ToggleUndo::Nothing => {},
        ToggleUndo::Checkbox => {
            proof {
                reveal_strlit("");
                assert(""@ =~= Seq::<char>::empty());
            }
            let ghost old_root = dom.root;
            let ghost mut sub: Node = dom.root;
            match node_by_id_mut(&mut dom.root, widget) {
                Some(w) => {
                    if w.has_attribute("checked") {
                        w.remove_attribute("checked");
                    } else {
                        w.set_attribute("checked", "");
                    }
                    proof {
                        sub = *w;
                    }
                },
                None => {},
            }
            proof {
                if first_path(old_root, widget) is Some {
                    lemma_replaced_at(old_root, dom.root, first_path(old_root, widget)->0, sub);
                }
            }
        },
        ToggleUndo::Radio { previously_checked } => {
            set_checked_at(&mut dom.root, widget, false);
            let ghost mid = dom.root;
            match previously_checked {
                Some(p) => set_checked_at(&mut dom.root, p, true),
                None => {},
            }
            assert(checked_set_at(old(dom).root, mid, widget, false));
        },
    }
}

/// Give the node of id `id` `checked` (when `on`) or take it away.
fn set_checked_at(root: &mut Node, id: NodeId, on: bool)
    ensures
        checked_set_at(*old(root), *final(root), id, on),
{
    proof {
        reveal_strlit("");
        assert(""@ =~= Seq::<char>::empty());
    }
    let ghost old_root = *root;
    let ghost mut sub: Node = *root;
    match node_by_id_mut(root, id) {
        Some(w) => {
            if on {
                w.set_attribute("checked", "");
            } else {
                w.remove_attribute("checked");
            }
            proof {
                sub = *w;
            }
        },
        None => {},
    }
    proof {
        if first_path(old_root, id) is Some {
            lemma_replaced_at(old_root, *root, first_path(old_root, id)->0, sub);
        }
    }
}

/// `new` is `old` with `checked` present (empty) when `on`, absent
/// otherwise, and nothing else changed.
pub open spec fn set_checked(old: Node, new: Node, on: bool) -> bool {
    &&& new.same_but_attrs(&old)
    &&& forall|a: Seq<char>|
        #![trigger new.attr(a)]
        new.attr(a) == if a == "checked"@ {
            if on {
                Some(Seq::<char>::empty())
            } else {
                None
            }
        } else {
            old.attr(a)
        }
}

/// Whether a `keydown` on the focused node activates it: a Space, not
/// cancelled, without Ctrl / Alt / Meta, on a checkbox or radio.
pub fn space_activates(focused: &Node, key: &KeyboardEvent, default_prevented: bool) -> (r: bool)
    ensures
        r == (!default_prevented && is_toggle_spec(*focused) && !key.modifiers.ctrl && !key.modifiers.meta
            && !key.modifiers.alt && key.key@ == " "@),
{
    if default_prevented || !is_toggle(focused) {
        return false;
    }
    if key.modifiers.ctrl || key.modifiers.meta || key.modifiers.alt {
        return false;
    }
    key.is(" ")
}

/// The direction a `keydown` on the focused node moves within its radio
/// group: -1 for Up / Left, +1 for Down / Right, on a radio, with no
/// modifier, not cancelled.
pub fn arrow_direction(focused: &Node, key: &KeyboardEvent, default_prevented: bool) -> (r: Option<i32>)
    ensures
        r == if default_prevented || !is_radio_spec(*focused) || !key.modifiers.none_held() {
            None
        } else if key.key@ == "ArrowUp"@ || key.key@ == "ArrowLeft"@ {
            Some(-1i32)
        } else if key.key@ == "ArrowDown"@ || key.key@ == "ArrowRight"@ {
            Some(1i32)
        } else {
            None
        },
{
    if default_prevented || !is_radio(focused) {
        return None;
    }
    if key.modifiers.ctrl || key.modifiers.shift || key.modifiers.alt || key.modifiers.meta {
        return None;
    }
    if key.is("ArrowUp") || key.is("ArrowLeft") {
        Some(-1)
    } else if key.is("ArrowDown") || key.is("ArrowRight") {
        Some(1)
    } else {
        None
    }
}

/// The index of `id` in `s`, the first one.
pub open spec fn index_in(s: Seq<NodeId>, id: NodeId, i: int) -> Option<int>
    decreases s.len() - i,
{
    if i < 0 || i >= s.len() {
        None
    } else if s[i] == id {
        Some(i)
    } else {
        index_in(s, id, i + 1)
    }
}

/// Move the focus from `focused` to the previous (`direction` -1) or
/// next (+1) radio of its group, wrapping; a group of one leaves it.
pub fn move_focus_within_group(dom: &mut Dom, focused: NodeId, direction: i32)
    requires
        direction == 1 || direction == -1,
    ensures
        final(dom).root == old(dom).root,
        final(dom).next_id == old(dom).next_id,
        final(dom).focused == match node_of(old(dom).root, focused) {
            Some(w) => {
                let g = group_spec(old(dom).root, w);
                if g.len() < 2 {
                    old(dom).focused
                } else {
                    match index_in(g, focused, 0) {
                        Some(i) => Some(g[(i + direction) % (g.len() as int)]),
                        None => old(dom).focused,
                    }
                }
            },
            None => old(dom).focused,
        },
{
    let group = match node_by_id(&dom.root, focused) {
        Some(w) => radio_group(&dom.root, w),
        None => return ,
    };
    if group.len() < 2 {
        return ;
    }
    let mut i: usize = 0;
    while i < group.len()
        invariant
            i <= group@.len(),
            group@.len() >= 2,
            direction == 1 || direction == -1,
            *dom == *old(dom),
            node_of(old(dom).root, focused) is Some,
            group@ == group_spec(old(dom).root, node_of(old(dom).root, focused)->0),
            index_in(group@, focused, 0) == index_in(group@, focused, i as int),
        decreases group@.len() - i,
    {
        if group[i] == focused {
            let len = group.len();
            let next = if direction > 0 {
                if i + 1 == len {
                    0
                } else {
                    i + 1
                }
            } else {
                if i == 0 {
                    len - 1
                } else {
                    i - 1
                }
            };
            proof {
                let g = group@;
                let ii = i as int;
                if direction > 0 {
                    if ii + 1 == g.len() {
                        vstd::arithmetic::div_mod::lemma_mod_self_0(g.len() as int);
                    } else {
                        vstd::arithmetic::div_mod::lemma_small_mod((ii + 1) as nat, g.len() as nat);
                    }
                } else {
                    if ii == 0 {
                        vstd::arithmetic::div_mod::lemma_mod_add_multiples_vanish(-1, g.len() as int);
                        vstd::arithmetic::div_mod::lemma_small_mod((g.len() - 1) as nat, g.len() as nat);
                    } else {
                        vstd::arithmetic::div_mod::lemma_small_mod((ii - 1) as nat, g.len() as nat);
                    }
                }
            }
            dom.focused = Some(group[next]);
            return ;
        }
        i = i + 1;
    }
}

/// Prefix length `k` of `p` leads to the nearest checkbox or radio on
/// the way from the root to the node at `p`.
pub open spec fn is_closest_toggle(root: Node, p: Seq<usize>, k: int) -> bool {
    &&& 0 <= k <= p.len()
    &&& is_toggle_spec(ancestor(root, p, k))
    &&& forall|j: int| k < j <= p.len() ==> !is_toggle_spec(#[trigger] ancestor(root, p, j))
}

/// The nearest checkbox or radio at or above the node `target`.
pub open spec fn closest_toggle_spec(root: Node, target: NodeId) -> Option<NodeId> {
    match first_path(root, target) {
        Some(p) => if exists|k: int| is_closest_toggle(root, p, k) {
            Some(ancestor(root, p, choose|k: int| is_closest_toggle(root, p, k)).id)
        } else {
            None
        },
        None => None,
    }
}

/// The nearest checkbox or radio at or above the node `target` (a click
/// on a wrapper of the widget activates it too).
pub fn closest_toggle(root: &Node, target: NodeId) -> (r: Option<NodeId>)
    ensures
        r == closest_toggle_spec(*root, target),
{
    let path = match find_path(root, target) {
        Some(p) => p,
        None => return None,
    };
    let mut k: usize = path.len();
    loop
        invariant
            k <= path@.len(),
            path_ok(*root, path@),
            first_path(*root, target) == Some(path@),
            forall|j: int| k < j <= path@.len() ==> !is_toggle_spec(#[trigger] ancestor(*root, path@, j)),
        decreases k,
    {
        let pre = prefix(&path, k);
        proof {
            lemma_path_ok_prefix(*root, path@, k as int);
        }
        let node = node_at(root, &pre);
        if is_toggle(node) {
            proof {
                let c = choose|m: int| is_closest_toggle(*root, path@, m);
                assert(is_closest_toggle(*root, path@, k as int));
                if c < k {
                    assert(!is_toggle_spec(ancestor(*root, path@, k as int)));
                }
                if c > k {
                    assert(!is_toggle_spec(ancestor(*root, path@, c)));
                }
            }
            return Some(node.id);
        }
        if k == 0 {
            proof {
                if exists|m: int| is_closest_toggle(*root, path@, m) {
                    let m = choose|m: int| is_closest_toggle(*root, path@, m);
                    assert(is_toggle_spec(ancestor(*root, path@, m)));
                }
            }
            return None;
        }
        k = k - 1;
    }
}

/// Undoing a checkbox activation restores it: flipping `checked`
/// twice leaves it present exactly when it was, and every other
/// attribute as it was.
pub proof fn law_revert_undoes_flip(a: Node, b: Node, c: Node)
    requires
        set_checked(a, b, !a.has_attr("checked"@)),
        set_checked(b, c, !b.has_attr("checked"@)),
    ensures
        c.has_attr("checked"@) == a.has_attr("checked"@),
        forall|x: Seq<char>| x != "checked"@ ==> #[trigger] c.attr(x) == a.attr(x),
        c.same_but_attrs(&a),
{
    assert(b.attr("checked"@) == if !a.has_attr("checked"@) { Some(Seq::<char>::empty()) } else { None::<Seq<char>> });
    assert(c.attr("checked"@) == if !b.has_attr("checked"@) { Some(Seq::<char>::empty()) } else { None::<Seq<char>> });
    assert forall|x: Seq<char>| x != "checked"@ implies #[trigger] c.attr(x) == a.attr(x) by {
        assert(c.attr(x) == b.attr(x));
        assert(b.attr(x) == a.attr(x));
    }
}

/// The checkbox or radio a click on the node `target` activates: the
/// nearest one at or above it, unless that one is disabled.
pub open spec fn activation_target_spec(root: Node, target: NodeId) -> Option<NodeId> {
    match closest_toggle_spec(root, target) {
        Some(w) => match control_of(controls(root), w, 0) {
            Some(c) => if c.disabled {
                None
            } else {
                Some(w)
            },
            None => Some(w),
        },
        None => None,
    }
}

/// The checkbox or radio a click on the node `target` activates, if any.
pub fn activation_target(root: &Node, target: NodeId) -> (r: Option<NodeId>)
    ensures
        r == activation_target_spec(*root, target),
{
    match closest_toggle(root, target) {
        Some(w) => match control_state(root, w) {
            Some((_, true)) => None,
            _ => Some(w),
        },
        None => None,
    }
}

} // verus!
