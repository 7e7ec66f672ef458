//! `<form>`: the entry list a submission sends, the form's default
//! button and implicit submission (Enter in a single-line text input),
//! what activating a button does to its form, the effective method of a
//! submission, and `requestSubmit`'s checks. Events are fired by the
//! caller, which hands back whether a listener cancelled them.

use vstd::prelude::*;
use crate::dialog::{enclosing_dialog, enclosing_dialog_spec};
use crate::dom::{direct_text, first_text, Node, NodeId};
use crate::path::{ancestor, find_path, first_path, lemma_path_ok_prefix, node_at, node_by_id, node_of, path_ok, prefix};
use crate::events::KeyboardEvent;
use crate::forms::{
    button_action, button_action_spec, control_table, controls, infos, input_state, input_type_state, is_keyword,
    is_submit_button, is_submit_button_spec, is_text_input, is_text_input_spec, ButtonAction, Control, ControlInfo,
    InputTypeState,
};
use crate::select::model::{info_of, option_infos, option_texts, options_of, text_matches, value_of};
use crate::text::eq_ignore_ascii_case;

verus! {

/// A control's `name`, or `""`.
pub open spec fn name_of(n: Node) -> Seq<char> {
    match n.attr("name"@) {
        Some(v) => v,
        None => Seq::empty(),
    }
}

/// Attribute `a` of `n`, or `d`.
pub open spec fn attr_or(n: Node, a: Seq<char>, d: Seq<char>) -> Seq<char> {
    match n.attr(a) {
        Some(v) => v,
        None => d,
    }
}

/// The values a `<select>` submits: those of its selected options that
/// are not disabled (by their own attribute or a disabled `<optgroup>`).
pub open spec fn selected_values(opts: Seq<(Node, bool)>) -> Seq<Seq<char>>
    decreases opts.len(),
{
    if opts.len() == 0 {
        Seq::empty()
    } else {
        let o = opts.last();
        selected_values(opts.drop_last()) + if o.0.has_attr("selected"@) && !(o.0.has_attr("disabled"@) || o.1) {
            seq![value_of(o.0)]
        } else {
            Seq::empty()
        }
    }
}

/// `(name, v)` for each of `vs`.
pub open spec fn named(name: Seq<char>, vs: Seq<Seq<char>>) -> Seq<(Seq<char>, Seq<char>)>
    decreases vs.len(),
{
    if vs.len() == 0 {
        Seq::empty()
    } else {
        named(name, vs.drop_last()).push((name, vs.last()))
    }
}

/// The entries one control contributes to the entry list of a
/// submission by `submitter`: nothing when it is disabled or has no
/// name; a checked checkbox or radio its `value` (or `"on"`); a button
/// its `value` (or `""`) only when it is the submitter and a submit
/// button; a hidden input its `value` when it has one; any other input
/// its live value (its first text child); a textarea the text of all its
/// text children; a select the values of its selected,
/// enabled options.
pub open spec fn entry_of(c: ControlInfo, submitter: Option<NodeId>) -> Seq<(Seq<char>, Seq<char>)> {
    let n = c.node;
    let name = name_of(n);
    let st = input_state(n);
    if c.disabled || name.len() == 0 {
        Seq::empty()
    } else if st == Some(InputTypeState::Checkbox) || st == Some(InputTypeState::Radio) {
        if n.has_attr("checked"@) {
            seq![(name, attr_or(n, "value"@, "on"@))]
        } else {
            Seq::empty()
        }
    } else if st == Some(InputTypeState::Submit) || st == Some(InputTypeState::Reset) || st == Some(
        InputTypeState::Button,
    ) || n.is_element("button"@) {
        if submitter == Some(n.id) && button_action_spec(n) == ButtonAction::Submit {
            seq![(name, attr_or(n, "value"@, Seq::empty()))]
        } else {
            Seq::empty()
        }
    } else if st == Some(InputTypeState::Hidden) {
        match n.attr("value"@) {
            Some(v) => seq![(name, v)],
            None => Seq::empty(),
        }
    } else if n.is_element("input"@) {
        seq![(name, first_text(n.children@))]
    } else if n.is_element("textarea"@) {
        seq![(name, direct_text(n.children@))]
    } else if n.is_element("select"@) {
        named(name, selected_values(options_of(n)))
    } else {
        Seq::empty()
    }
}

/// A checkbox or a radio submits only when checked: a named, enabled one
/// contributes exactly one entry, its name with its `value` (`"on"`
/// without one), when it carries `checked`, and nothing otherwise,
/// whoever submits.
pub proof fn law_checked_toggle_submits_its_value(c: ControlInfo, submitter: Option<NodeId>, nm: Seq<char>)
    requires
        input_state(c.node) == Some(InputTypeState::Checkbox) || input_state(c.node) == Some(InputTypeState::Radio),
        c.node.attr("name"@) == Some(nm),
        nm.len() > 0,
        !c.disabled,
    ensures
        c.node.has_attr("checked"@) ==> entry_of(c, submitter) == seq![
            (
                nm,
                match c.node.attr("value"@) {
                    Some(v) => v,
                    None => "on"@,
                },
            ),
        ],
        !c.node.has_attr("checked"@) ==> entry_of(c, submitter) == Seq::<(Seq<char>, Seq<char>)>::empty(),
{
}

/// What the other named, enabled controls submit: a hidden input its
/// `value` when it has one; a button (a `<button>`, or a submit, reset
/// or button input) its `value` (`""` without one) only when it is the
/// submitter and submits; any other input the text of its first text
/// child; a textarea all its text.
pub proof fn law_control_entries(c: ControlInfo, submitter: Option<NodeId>, nm: Seq<char>)
    requires
        c.node.attr("name"@) == Some(nm),
        nm.len() > 0,
        !c.disabled,
        input_state(c.node) != Some(InputTypeState::Checkbox),
        input_state(c.node) != Some(InputTypeState::Radio),
    ensures
        input_state(c.node) == Some(InputTypeState::Hidden) ==> entry_of(c, submitter) == match c.node.attr("value"@) {
            Some(v) => seq![(nm, v)],
            None => Seq::<(Seq<char>, Seq<char>)>::empty(),
        },
        (c.node.is_element("button"@) || input_state(c.node) == Some(InputTypeState::Submit) || input_state(c.node)
            == Some(InputTypeState::Reset) || input_state(c.node) == Some(InputTypeState::Button)) ==> entry_of(
            c,
            submitter,
        ) == if submitter == Some(c.node.id) && button_action_spec(c.node) == ButtonAction::Submit {
            seq![
                (
                    nm,
                    match c.node.attr("value"@) {
                        Some(v) => v,
                        None => Seq::<char>::empty(),
                    },
                ),
            ]
        } else {
            Seq::<(Seq<char>, Seq<char>)>::empty()
        },
        (c.node.is_element("input"@) && input_state(c.node) != Some(InputTypeState::Hidden) && input_state(c.node)
            != Some(InputTypeState::Submit) && input_state(c.node) != Some(InputTypeState::Reset) && input_state(c.node)
            != Some(InputTypeState::Button)) ==> entry_of(c, submitter) == seq![(nm, first_text(c.node.children@))],
        c.node.is_element("textarea"@) ==> entry_of(c, submitter) == seq![(nm, direct_text(c.node.children@))],
{
    reveal_strlit("textarea");
    reveal_strlit("button");
    reveal_strlit("input");
    assert("textarea"@ != "button"@) by {
        assert("textarea"@.len() != "button"@.len());
    }
    assert("input"@ != "button"@) by {
        assert("input"@[0] != "button"@[0]);
    }
    assert("textarea"@ != "input"@) by {
        assert("textarea"@.len() != "input"@.len());
    }
}

/// The entry list of `form` for a submission by `submitter`: the entries
/// of the controls it owns, in tree order.
pub open spec fn entries_of(cs: Seq<ControlInfo>, form: NodeId, submitter: Option<NodeId>) -> Seq<
    (Seq<char>, Seq<char>),
>
    decreases cs.len(),
{
    if cs.len() == 0 {
        Seq::empty()
    } else {
        entries_of(cs.drop_last(), form, submitter) + if cs.last().owner == Some(form) {
            entry_of(cs.last(), submitter)
        } else {
            Seq::empty()
        }
    }
}

/// The plain view of an entry list.
pub open spec fn pairs_view(s: Seq<(String, String)>) -> Seq<(Seq<char>, Seq<char>)> {
    s.map_values(|p: (String, String)| (p.0@, p.1@))
}

fn push_pair(out: &mut Vec<(String, String)>, name: &String, value: String)
    ensures
        pairs_view(final(out)@) == pairs_view(old(out)@).push((name@, value@)),
{
    out.push((name.clone(), value));
    assert(pairs_view(out@) =~= pairs_view(old(out)@).push((name@, value@)));
}

/// Append the values a `<select>` submits, each under `name`.
fn push_select_entries(select: &Node, name: &String, out: &mut Vec<(String, String)>)
    ensures
        pairs_view(final(out)@) == pairs_view(old(out)@) + named(name@, selected_values(options_of(*select))),
{
    let infos = option_infos(select);
    let texts = option_texts(select);
    let ghost opts = options_of(*select);
    let ghost start = pairs_view(out@);
    let mut i: usize = 0;
    assert(opts.take(0) =~= Seq::<(Node, bool)>::empty());
    assert(start + named(name@, selected_values(opts.take(0))) =~= start);
    while i < infos.len()
        invariant
            i <= infos@.len(),
            opts == options_of(*select),
            infos@ == opts.map_values(|o: (Node, bool)| info_of(o)),
            texts@.len() == opts.len(),
            forall|k: int| 0 <= k < texts@.len() ==> text_matches(#[trigger] texts@[k], opts[k]),
            pairs_view(out@) == start + named(name@, selected_values(opts.take(i as int))),
        decreases infos@.len() - i,
    {
        assert(opts.take(i + 1).drop_last() =~= opts.take(i as int));
        assert(opts.take(i + 1).last() == opts[i as int]);
        assert(infos@[i as int] == info_of(opts[i as int]));
        assert(text_matches(texts@[i as int], opts[i as int]));
        let ghost prev = selected_values(opts.take(i as int));
        if infos[i].selected && !infos[i].disabled {
            let v = texts[i].value.clone();
            push_pair(out, name, v);
            proof {
                let nv = prev + seq![value_of(opts[i as int].0)];
                assert(selected_values(opts.take(i + 1)) == nv);
                assert(nv.drop_last() =~= prev);
                assert(named(name@, nv) == named(name@, prev).push((name@, value_of(opts[i as int].0))));
                assert(pairs_view(out@) =~= start + named(name@, nv));
            }
        } else {
            assert(selected_values(opts.take(i + 1)) =~= prev);
        }
        i = i + 1;
    }
    assert(opts.take(i as int) =~= opts);
}

/// Append the entries control `c` contributes.
fn collect_entry(c: &Control, submitter: Option<NodeId>, out: &mut Vec<(String, String)>)
    ensures
        pairs_view(final(out)@) == pairs_view(old(out)@) + entry_of(c.info(), submitter),
{
    let n = c.node;
    if c.disabled {
        assert(pairs_view(out@) =~= pairs_view(out@) + Seq::<(Seq<char>, Seq<char>)>::empty());
        return ;
    }
    let name = n.attribute_or_empty("name");
    if crate::text::chars_of(name.as_str()).len() == 0 {
        assert(pairs_view(out@) =~= pairs_view(out@) + Seq::<(Seq<char>, Seq<char>)>::empty());
        return ;
    }
    let st = input_type_state(n);
    let is_toggle = st == Some(InputTypeState::Checkbox) || st == Some(InputTypeState::Radio);
    let is_buttonish = st == Some(InputTypeState::Submit) || st == Some(InputTypeState::Reset) || st == Some(
        InputTypeState::Button,
    ) || n.has_tag("button");
    let ghost before = pairs_view(out@);
    if is_toggle {
        if n.has_attribute("checked") {
            let v = match n.get_attribute("value") {
                Some(v) => v.clone(),
                None => "on".to_owned(),
            };
            push_pair(out, &name, v);
        }
    } else if is_buttonish {
        if submitter == Some(n.id) && button_action(n) == ButtonAction::Submit {
            let v = n.attribute_or_empty("value");
            push_pair(out, &name, v);
        }
    } else if st == Some(InputTypeState::Hidden) {
        match n.get_attribute("value") {
            Some(v) => push_pair(out, &name, v.clone()),
            None => {},
        }
    } else if n.has_tag("input") {
        let t = n.first_child_text();
        push_pair(out, &name, t);
    } else if n.has_tag("textarea") {
        let t = n.child_text();
        push_pair(out, &name, t);
    } else if n.has_tag("select") {
        push_select_entries(n, &name, out);
    }
    assert(pairs_view(out@) =~= before + entry_of(c.info(), submitter));
}

/// The entry list of a submission of `form` by `submitter` — the
/// entries of every control it owns, in tree order of the document,
/// controls outside it that name it with `form=` included.
pub fn collect_with_submitter(root: &Node, form: NodeId, submitter: Option<NodeId>) -> (r: Vec<(String, String)>)
    ensures
        pairs_view(r@) == entries_of(controls(*root), form, submitter),
{
    let table = control_table(root);
    let ghost cs = controls(*root);
    let mut out: Vec<(String, String)> = Vec::new();
    let mut i: usize = 0;
    assert(cs.take(0) =~= Seq::<ControlInfo>::empty());
    assert(pairs_view(out@) =~= Seq::<(Seq<char>, Seq<char>)>::empty());
    while i < table.len()
        invariant
            i <= table@.len(),
            cs == controls(*root),
            infos(table@) == cs,
            pairs_view(out@) == entries_of(cs.take(i as int), form, submitter),
        decreases table@.len() - i,
    {
        assert(cs.take(i + 1).drop_last() =~= cs.take(i as int));
        assert(cs.take(i + 1).last() == table@[i as int].info());
        let c = &table[i];
        if c.owner == Some(form) {
            collect_entry(c, submitter, &mut out);
        } else {
            assert(pairs_view(out@) =~= pairs_view(out@) + Seq::<(Seq<char>, Seq<char>)>::empty());
        }
        i = i + 1;
    }
    assert(cs.take(i as int) =~= cs);
    out
}

/// The entry list of `form` with no submitter (`new FormData(form)`).
pub fn collect(root: &Node, form: NodeId) -> (r: Vec<(String, String)>)
    ensures
        pairs_view(r@) == entries_of(controls(*root), form, None),
{
    collect_with_submitter(root, form, None)
}

/// The controls of `form` (`form.elements`), in tree order.
pub open spec fn owned(cs: Seq<ControlInfo>, form: NodeId) -> Seq<NodeId>
    decreases cs.len(),
{
    if cs.len() == 0 {
        Seq::empty()
    } else {
        owned(cs.drop_last(), form) + if cs.last().owner == Some(form) {
            seq![cs.last().node.id]
        } else {
            Seq::empty()
        }
    }
}

/// The ids of the controls `form` owns, in tree order of the document.
pub fn elements(root: &Node, form: NodeId) -> (r: Vec<NodeId>)
    ensures
        r@ == owned(controls(*root), form),
{
    let table = control_table(root);
    let ghost cs = controls(*root);
    let mut out: Vec<NodeId> = Vec::new();
    let mut i: usize = 0;
    assert(cs.take(0) =~= Seq::<ControlInfo>::empty());
    while i < table.len()
        invariant
            i <= table@.len(),
            cs == controls(*root),
            infos(table@) == cs,
            out@ == owned(cs.take(i as int), form),
        decreases table@.len() - i,
    {
        assert(cs.take(i + 1).drop_last() =~= cs.take(i as int));
        assert(cs.take(i + 1).last() == table@[i as int].info());
        if table[i].owner == Some(form) {
            out.push(table[i].node.id);
        }
        i = i + 1;
    }
    assert(cs.take(i as int) =~= cs);
    out
}

/// The first control of `cs` from `i` on that `form` owns and that is a
/// submit button: the form's default button.
pub open spec fn default_button_from(cs: Seq<ControlInfo>, form: NodeId, i: int) -> Option<ControlInfo>
    decreases cs.len() - i,
{
    if i < 0 || i >= cs.len() {
        None
    } else if cs[i].owner == Some(form) && is_submit_button_spec(cs[i].node) {
        Some(cs[i])
    } else {
        default_button_from(cs, form, i + 1)
    }
}

/// The default button of `form` — its first submit button in tree
/// order, disabled or not — and whether it is disabled.
pub fn default_button(root: &Node, form: NodeId) -> (r: Option<(NodeId, bool)>)
    ensures
        r == match default_button_from(controls(*root), form, 0) {
            Some(c) => Some((c.node.id, c.disabled)),
            None => None,
        },
{
    let table = control_table(root);
    let ghost cs = controls(*root);
    let mut i: usize = 0;
    while i < table.len()
        invariant
            i <= table@.len(),
            cs == controls(*root),
            infos(table@) == cs,
            default_button_from(cs, form, 0) == default_button_from(cs, form, i as int),
        decreases table@.len() - i,
    {
        assert(cs[i as int] == table@[i as int].info());
        if table[i].owner == Some(form) && is_submit_button(table[i].node) {
            return Some((table[i].node.id, table[i].disabled));
        }
        i = i + 1;
    }
    None
}

/// The number of single-line text inputs among the controls of `cs`
/// that `form` owns.
pub open spec fn text_input_count(cs: Seq<ControlInfo>, form: NodeId) -> nat
    decreases cs.len(),
{
    if cs.len() == 0 {
        0
    } else {
        text_input_count(cs.drop_last(), form) + if cs.last().owner == Some(form) && is_text_input_spec(
            cs.last().node,
        ) {
            1nat
        } else {
            0nat
        }
    }
}

/// The fields of `form` that block implicit submission: its single-line
/// text inputs.
pub fn count_text_inputs(root: &Node, form: NodeId) -> (r: usize)
    ensures
        r == text_input_count(controls(*root), form),
{
    let table = control_table(root);
    let ghost cs = controls(*root);
    let mut n: usize = 0;
    let mut i: usize = 0;
    assert(cs.take(0) =~= Seq::<ControlInfo>::empty());
    while i < table.len()
        invariant
            i <= table@.len(),
            cs == controls(*root),
            infos(table@) == cs,
            n == text_input_count(cs.take(i as int), form),
            n <= i,
        decreases table@.len() - i,
    {
        assert(cs.take(i + 1).drop_last() =~= cs.take(i as int));
        assert(cs.take(i + 1).last() == table@[i as int].info());
        if table[i].owner == Some(form) && is_text_input(table[i].node) {
            n = n + 1;
        }
        i = i + 1;
    }
    assert(cs.take(i as int) =~= cs);
    n
}

/// The control record of node `id` among `cs` from `i` on.
pub open spec fn control_of(cs: Seq<ControlInfo>, id: NodeId, i: int) -> Option<ControlInfo>
    decreases cs.len() - i,
{
    if i < 0 || i >= cs.len() {
        None
    } else if cs[i].node.id == id {
        Some(cs[i])
    } else {
        control_of(cs, id, i + 1)
    }
}

/// The form owner and disabled state of the control `id`, when it is a
/// listed element of the document.
pub fn control_state(root: &Node, id: NodeId) -> (r: Option<(Option<NodeId>, bool)>)
    ensures
        r == match control_of(controls(*root), id, 0) {
            Some(c) => Some((c.owner, c.disabled)),
            None => None,
        },
{
    let table = control_table(root);
    let ghost cs = controls(*root);
    let mut i: usize = 0;
    while i < table.len()
        invariant
            i <= table@.len(),
            cs == controls(*root),
            infos(table@) == cs,
            control_of(cs, id, 0) == control_of(cs, id, i as int),
        decreases table@.len() - i,
    {
        assert(cs[i as int] == table@[i as int].info());
        if table[i].node.id == id {
            return Some((table[i].owner, table[i].disabled));
        }
        i = i + 1;
    }
    None
}

/// What an Enter asks of a form.
#[derive(Clone, Copy, Debug, PartialEq, Eq, Structural)]
pub enum ImplicitSubmission {
    /// Nothing.
    Ignore,
    /// Click the form's default button (which then submits it).
    Click(NodeId),
    /// Submit the form with no submitter.
    Submit(NodeId),
}

/// Implicit submission: a bare Enter, not cancelled, in a single-line
/// text input with a form owner clicks the form's default button, or
/// does nothing when that button is disabled; a form without a submit
/// button submits itself only when the input is its one field that
/// blocks implicit submission.
pub open spec fn implicit_spec(root: Node, focused: Node, key: KeyboardEvent, default_prevented: bool) -> ImplicitSubmission {
    if default_prevented || !key.modifiers.none_held() || key.key@ != "Enter"@ || !is_text_input_spec(focused) {
        ImplicitSubmission::Ignore
    } else {
        match control_of(controls(root), focused.id, 0) {
            Some(c) => match c.owner {
                Some(form) => match default_button_from(controls(root), form, 0) {
                    Some(b) => if b.disabled {
                        ImplicitSubmission::Ignore
                    } else {
                        ImplicitSubmission::Click(b.node.id)
                    },
                    None => if text_input_count(controls(root), form) == 1 {
                        ImplicitSubmission::Submit(form)
                    } else {
                        ImplicitSubmission::Ignore
                    },
                },
                None => ImplicitSubmission::Ignore,
            },
            None => ImplicitSubmission::Ignore,
        }
    }
}

/// What a `keydown` in the focused node `focused` asks of its form.
pub fn implicit_submission(root: &Node, focused: &Node, key: &KeyboardEvent, default_prevented: bool) -> (r: ImplicitSubmission)
    ensures
        r == implicit_spec(*root, *focused, *key, default_prevented),
{
    if default_prevented {
        return ImplicitSubmission::Ignore;
    }
    let no_mods = !key.modifiers.ctrl && !key.modifiers.shift && !key.modifiers.alt && !key.modifiers.meta;
    if !no_mods || !key.is("Enter") {
        return ImplicitSubmission::Ignore;
    }
    if !is_text_input(focused) {
        return ImplicitSubmission::Ignore;
    }
    let form = match control_state(root, focused.id) {
        Some((Some(f), _)) => f,
        _ => return ImplicitSubmission::Ignore,
    };
    match default_button(root, form) {
        Some((b, disabled)) => if disabled {
            ImplicitSubmission::Ignore
        } else {
            ImplicitSubmission::Click(b)
        },
        None => if count_text_inputs(root, form) == 1 {
            ImplicitSubmission::Submit(form)
        } else {
            ImplicitSubmission::Ignore
        },
    }
}

/// A `<button>`, or an `<input>` in the Submit, Reset or Button state.
pub open spec fn is_form_button(n: Node) -> bool {
    n.is_element("button"@) || input_state(n) == Some(InputTypeState::Submit) || input_state(n) == Some(
        InputTypeState::Reset,
    ) || input_state(n) == Some(InputTypeState::Button)
}

fn form_button(n: &Node) -> (r: bool)
    ensures
        r == is_form_button(*n),
{
    if n.has_tag("button") {
        return true;
    }
    match input_type_state(n) {
        Some(s) => s == InputTypeState::Submit || s == InputTypeState::Reset || s == InputTypeState::Button,
        None => false,
    }
}

/// Prefix length `k` of `p` leads to the nearest form button on the way
/// from the root to the node at `p`.
pub open spec fn is_closest_button(root: Node, p: Seq<usize>, k: int) -> bool {
    &&& 0 <= k <= p.len()
    &&& is_form_button(ancestor(root, p, k))
    &&& forall|j: int| k < j <= p.len() ==> !is_form_button(#[trigger] ancestor(root, p, j))
}

/// The nearest form button at or above the node `target`.
pub open spec fn closest_button_spec(root: Node, target: NodeId) -> Option<NodeId> {
    match first_path(root, target) {
        Some(p) => if exists|k: int| is_closest_button(root, p, k) {
            Some(ancestor(root, p, choose|k: int| is_closest_button(root, p, k)).id)
        } else {
            None
        },
        None => None,
    }
}

/// The nearest `<button>` or button-like `<input>` at or above the node
/// `target`.
pub fn closest_form_button(root: &Node, target: NodeId) -> (r: Option<NodeId>)
    ensures
        r == closest_button_spec(*root, target),
{
    let path = match find_path(root, target) {
        Some(p) => p,
        None => return None,
    };
    let mut k: usize = path.len();
    loop
        invariant
            k <= path@.len(),
            path_ok(*root, path@),
            first_path(*root, target) == Some(path@),
            forall|j: int| k < j <= path@.len() ==> !is_form_button(#[trigger] ancestor(*root, path@, j)),
        decreases k,
    {
        let pre = prefix(&path, k);
        proof {
            lemma_path_ok_prefix(*root, path@, k as int);
        }
        let node = node_at(root, &pre);
        if form_button(node) {
            proof {
                let c = choose|m: int| is_closest_button(*root, path@, m);
                assert(is_closest_button(*root, path@, k as int));
                if c < k {
                    assert(!is_form_button(ancestor(*root, path@, k as int)));
                }
                if c > k {
                    assert(!is_form_button(ancestor(*root, path@, c)));
                }
            }
            return Some(node.id);
        }
        if k == 0 {
            proof {
                if exists|m: int| is_closest_button(*root, path@, m) {
                    let m = choose|m: int| is_closest_button(*root, path@, m);
                    assert(is_form_button(ancestor(*root, path@, m)));
                }
            }
            return None;
        }
        k = k - 1;
    }
}

/// What activating a button asks of its form.
#[derive(Clone, Copy, Debug, PartialEq, Eq, Structural)]
pub enum FormClick {
    Ignore,
    /// Submit form `form` with `submitter`.
    Submit { form: NodeId, submitter: NodeId },
    /// Fire `reset` on `form` and, unless cancelled, reset its controls.
    Reset(NodeId),
}

/// The default action of a `click` on the node `target`: the nearest
/// button at or above it, when enabled and owned by a form, submits or
/// resets that form according to its type.
pub open spec fn click_spec(root: Node, target: NodeId, default_prevented: bool) -> FormClick {
    if default_prevented {
        FormClick::Ignore
    } else {
        match closest_button_spec(root, target) {
            None => FormClick::Ignore,
            Some(b) => match control_of(controls(root), b, 0) {
                None => FormClick::Ignore,
                Some(c) => if c.disabled {
                    FormClick::Ignore
                } else {
                    match c.owner {
                        None => FormClick::Ignore,
                        Some(form) => match button_action_spec(c.node) {
                            ButtonAction::Submit => FormClick::Submit { form, submitter: b },
                            ButtonAction::Reset => FormClick::Reset(form),
                            ButtonAction::Button => FormClick::Ignore,
                        },
                    }
                },
            },
        }
    }
}

/// The control record of node `id`, with its node.
fn control_record<'a>(root: &'a Node, id: NodeId) -> (r: Option<Control<'a>>)
    ensures
        match r {
            Some(c) => control_of(controls(*root), id, 0) == Some(c.info()),
            None => control_of(controls(*root), id, 0) is None,
        },
{
    let table = control_table(root);
    let ghost cs = controls(*root);
    let mut i: usize = 0;
    while i < table.len()
        invariant
            i <= table@.len(),
            cs == controls(*root),
            infos(table@) == cs,
            control_of(cs, id, 0) == control_of(cs, id, i as int),
        decreases table@.len() - i,
    {
        assert(cs[i as int] == table@[i as int].info());
        if table[i].node.id == id {
            let c = Control { node: table[i].node, owner: table[i].owner, disabled: table[i].disabled };
            return Some(c);
        }
        i = i + 1;
    }
    None
}

/// The default action of a `click` on the node `target`.
pub fn click_action(root: &Node, target: NodeId, default_prevented: bool) -> (r: FormClick)
    ensures
        r == click_spec(*root, target, default_prevented),
{
    if default_prevented {
        return FormClick::Ignore;
    }
    let b = match closest_form_button(root, target) {
        Some(b) => b,
        None => return FormClick::Ignore,
    };
    let c = match control_record(root, b) {
        Some(c) => c,
        None => return FormClick::Ignore,
    };
    if c.disabled {
        return FormClick::Ignore;
    }
    let form = match c.owner {
        Some(f) => f,
        None => return FormClick::Ignore,
    };
    match button_action(c.node) {
        ButtonAction::Submit => FormClick::Submit { form, submitter: b },
        ButtonAction::Reset => FormClick::Reset(form),
        ButtonAction::Button => FormClick::Ignore,
    }
}

/// A submission method.
#[derive(Clone, Copy, Debug, PartialEq, Eq, Structural)]
pub enum FormMethod {
    Get,
    Post,
    Dialog,
}

/// The method a `method` / `formmethod` value names (GET for anything
/// else).
pub open spec fn method_of(v: Seq<char>) -> FormMethod {
    if is_keyword(v, "post"@) {
        FormMethod::Post
    } else if is_keyword(v, "dialog"@) {
        FormMethod::Dialog
    } else {
        FormMethod::Get
    }
}

/// The effective method of a submission of `form` by `submitter`: the
/// submitter's `formmethod`, else the form's `method`, else GET.
pub open spec fn effective_method_spec(form: Node, submitter: Option<Node>) -> FormMethod {
    match submitter {
        Some(s) if s.attr("formmethod"@) is Some => method_of(s.attr("formmethod"@)->0),
        _ => match form.attr("method"@) {
            Some(m) => method_of(m),
            None => FormMethod::Get,
        },
    }
}

fn method_keyword(v: &str) -> (r: FormMethod)
    ensures
        r == method_of(v@),
{
    if eq_ignore_ascii_case(v, "post") {
        FormMethod::Post
    } else if eq_ignore_ascii_case(v, "dialog") {
        FormMethod::Dialog
    } else {
        FormMethod::Get
    }
}

/// The effective method of a submission of `form` by `submitter`.
pub fn effective_method(form: &Node, submitter: Option<&Node>) -> (r: FormMethod)
    ensures
        r == effective_method_spec(
            *form,
            match submitter {
                Some(s) => Some(*s),
                None => None,
            },
        ),
{
    match submitter {
        Some(s) => match s.get_attribute("formmethod") {
            Some(m) => {
                return method_keyword(m.as_str());
            },
            None => {},
        },
        None => {},
    }
    match form.get_attribute("method") {
        Some(m) => method_keyword(m.as_str()),
        None => FormMethod::Get,
    }
}

/// An entry-list encoding.
#[derive(Clone, Copy, Debug, PartialEq, Eq, Structural)]
pub enum FormEnctype {
    UrlEncoded,
    MultipartFormData,
    TextPlain,
}

/// The encoding an `enctype` / `formenctype` value names (URL-encoded
/// for anything else).
pub open spec fn enctype_of(v: Seq<char>) -> FormEnctype {
    if is_keyword(v, "multipart/form-data"@) {
        FormEnctype::MultipartFormData
    } else if is_keyword(v, "text/plain"@) {
        FormEnctype::TextPlain
    } else {
        FormEnctype::UrlEncoded
    }
}

fn enctype_keyword(v: &str) -> (r: FormEnctype)
    ensures
        r == enctype_of(v@),
{
    if eq_ignore_ascii_case(v, "multipart/form-data") {
        FormEnctype::MultipartFormData
    } else if eq_ignore_ascii_case(v, "text/plain") {
        FormEnctype::TextPlain
    } else {
        FormEnctype::UrlEncoded
    }
}

/// A submission attribute: the submitter's override `sub_name` when it
/// has one, else the form's `form_name`.
pub open spec fn submission_attr(form: Node, submitter: Option<Node>, sub_name: Seq<char>, form_name: Seq<char>) -> Option<
    Seq<char>,
> {
    match submitter {
        Some(s) if s.attr(sub_name) is Some => s.attr(sub_name),
        _ => form.attr(form_name),
    }
}

fn submission_attr_of(form: &Node, submitter: Option<&Node>, sub_name: &str, form_name: &str) -> (r: Option<String>)
    ensures
        match r {
            Some(v) => submission_attr(
                *form,
                match submitter {
                    Some(s) => Some(*s),
                    None => None,
                },
                sub_name@,
                form_name@,
            ) == Some(v@),
            None => submission_attr(
                *form,
                match submitter {
                    Some(s) => Some(*s),
                    None => None,
                },
                sub_name@,
                form_name@,
            ) is None,
        },
{
    match submitter {
        Some(s) => match s.get_attribute(sub_name) {
            Some(v) => {
                return Some(v.clone());
            },
            None => {},
        },
        None => {},
    }
    match form.get_attribute(form_name) {
        Some(v) => Some(v.clone()),
        None => None,
    }
}

/// What a `submit` event reports: the submitter and the effective
/// `action`, `method`, `enctype`, `target` and no-validate state.
#[derive(Clone, Debug)]
pub struct SubmitDetail {
    pub submitter: Option<NodeId>,
    pub action: String,
    pub method: FormMethod,
    pub enctype: FormEnctype,
    pub target: String,
    pub no_validate: bool,
}

/// The value of an optional attribute, `""` when absent.
pub open spec fn or_empty(v: Option<Seq<char>>) -> Seq<char> {
    match v {
        Some(s) => s,
        None => Seq::empty(),
    }
}

/// The submission of `form` by `submitter`: each attribute is the
/// submitter's `form*` override when it has one, else the form's own
/// (`""`, GET, URL-encoded when absent); no-validate when either the
/// submitter has `formnovalidate` or the form `novalidate`.
pub fn submit_detail(form: &Node, submitter: Option<&Node>) -> (r: SubmitDetail)
    ensures
        ({
            let s = match submitter {
                Some(s) => Some(*s),
                None => None,
            };
            &&& r.submitter == match submitter {
                Some(n) => Some(n.id),
                None => None,
            }
            &&& r.action@ == or_empty(submission_attr(*form, s, "formaction"@, "action"@))
            &&& r.method == effective_method_spec(*form, s)
            &&& r.enctype == match submission_attr(*form, s, "formenctype"@, "enctype"@) {
                Some(v) => enctype_of(v),
                None => FormEnctype::UrlEncoded,
            }
            &&& r.target@ == or_empty(submission_attr(*form, s, "formtarget"@, "target"@))
            &&& r.no_validate == (form.has_attr("novalidate"@) || match submitter {
                Some(n) => n.has_attr("formnovalidate"@),
                None => false,
            })
        }),
{
    let action = match submission_attr_of(form, submitter, "formaction", "action") {
        Some(v) => v,
        None => String::new(),
    };
    let target = match submission_attr_of(form, submitter, "formtarget", "target") {
        Some(v) => v,
        None => String::new(),
    };
    let enctype = match submission_attr_of(form, submitter, "formenctype", "enctype") {
        Some(v) => enctype_keyword(v.as_str()),
        None => FormEnctype::UrlEncoded,
    };
    let no_validate = form.has_attribute("novalidate") || match submitter {
        Some(n) => n.has_attribute("formnovalidate"),
        None => false,
    };
    SubmitDetail {
        submitter: match submitter {
            Some(n) => Some(n.id),
            None => None,
        },
        action,
        method: effective_method(form, submitter),
        enctype,
        target,
        no_validate,
    }
}

/// What one run of the submission algorithm did.
#[derive(Clone, Copy, Debug, PartialEq, Eq, Structural)]
pub enum SubmitOutcome {
    /// `submit` fired and was not cancelled; a dialog-method form closed
    /// its dialog.
    Submitted,
    /// A listener cancelled `submit`.
    Canceled,
    /// The node is not a `<form>`.
    NotAForm,
}

/// The rest of the submission once `submit` was dispatched at `form`
/// and `canceled` says whether a listener cancelled it: the outcome,
/// and, for a dialog-method submission, the dialog to close (the
/// form's nearest `<dialog>`) with the submitter's `value` (or `""`).
pub fn finish_submit(root: &Node, form: NodeId, submitter: Option<NodeId>, canceled: bool) -> (r: (
    SubmitOutcome,
    Option<(NodeId, String)>,
))
    ensures
        canceled ==> r.0 == SubmitOutcome::Canceled && r.1 is None,
        !canceled ==> r.0 == SubmitOutcome::Submitted && match r.1 {
            Some((d, rv)) => {
                &&& node_of(*root, form) is Some
                &&& effective_method_spec(
                    node_of(*root, form)->0,
                    match submitter {
                        Some(s) => node_of(*root, s),
                        None => None,
                    },
                ) == FormMethod::Dialog
                &&& enclosing_dialog_spec(*root, form) == Some(d)
                &&& rv@ == match submitter {
                    Some(s) => match node_of(*root, s) {
                        Some(sn) => attr_or(sn, "value"@, Seq::empty()),
                        None => Seq::empty(),
                    },
                    None => Seq::empty(),
                }
            },
            None => match node_of(*root, form) {
                Some(f) => effective_method_spec(
                    f,
                    match submitter {
                        Some(s) => node_of(*root, s),
                        None => None,
                    },
                ) != FormMethod::Dialog || enclosing_dialog_spec(*root, form) is None,
                None => true,
            },
        },
{
    if canceled {
        return (SubmitOutcome::Canceled, None);
    }
    let f = match node_by_id(root, form) {
        Some(f) => f,
        None => return (SubmitOutcome::Submitted, None),
    };
    let s = match submitter {
        Some(id) => node_by_id(root, id),
        None => None,
    };
    if effective_method(f, s) != FormMethod::Dialog {
        return (SubmitOutcome::Submitted, None);
    }
    match enclosing_dialog(root, form) {
        Some(d) => {
            let rv = match s {
                Some(sn) => sn.attribute_or_empty("value"),
                None => String::new(),
            };
            (SubmitOutcome::Submitted, Some((d, rv)))
        },
        None => (SubmitOutcome::Submitted, None),
    }
}

/// Why `requestSubmit(submitter)` refuses.
#[derive(Clone, Copy, Debug, PartialEq, Eq, Structural)]
pub enum RequestSubmitError {
    /// The submitter is not a submit button.
    NotASubmitButton,
    /// The submitter's form owner is another form (or none).
    NotOwned,
}

/// `form.requestSubmit(submitter)`'s checks: a submitter must be a
/// submit button owned by `form`. On success the caller runs the
/// submission algorithm with it.
pub fn check_request_submit(root: &Node, form: NodeId, submitter: Option<NodeId>) -> (r: Result<(), RequestSubmitError>)
    ensures
        r == match submitter {
            None => Ok(()),
            Some(s) => match node_of(*root, s) {
                Some(sn) => if !is_submit_button_spec(sn) {
                    Err(RequestSubmitError::NotASubmitButton)
                } else if match control_of(controls(*root), s, 0) {
                    Some(c) => c.owner == Some(form),
                    None => false,
                } {
                    Ok(())
                } else {
                    Err(RequestSubmitError::NotOwned)
                },
                None => Err(RequestSubmitError::NotASubmitButton),
            },
        },
{
    let s = match submitter {
        None => return Ok(()),
        Some(s) => s,
    };
    let sn = match node_by_id(root, s) {
        Some(sn) => sn,
        None => return Err(RequestSubmitError::NotASubmitButton),
    };
    if !is_submit_button(sn) {
        return Err(RequestSubmitError::NotASubmitButton);
    }
    match control_state(root, s) {
        Some((Some(f), _)) => if f == form {
            Ok(())
        } else {
            Err(RequestSubmitError::NotOwned)
        },
        _ => Err(RequestSubmitError::NotOwned),
    }
}

/// `new` is the listed control `old` after a form reset: a checkbox or
/// radio back at its `defaultChecked`, a text control or range at its
/// `defaultValue` (a text node of id `tid` for the text), a select's
/// options at their `defaultSelected`; anything else unchanged.
pub open spec fn control_reset(old: Node, new: Node, tid: NodeId) -> bool {
    if crate::toggle::is_toggle_spec(old) {
        crate::toggle::checked_reset(old, new)
    } else if old.is_element("input"@) || old.is_element("textarea"@) {
        crate::input::reset_written(old, new, tid)
    } else if old.is_element("select"@) {
        crate::select::selectedness::select_reset(old, new)
    } else {
        new == old
    }
}

/// Whether resetting `n` takes a fresh id (for a new text node).
pub open spec fn reset_takes_id(n: Node) -> bool {
    !crate::toggle::is_toggle_spec(n) && (n.is_element("input"@) || n.is_element("textarea"@))
        && crate::input::reset_installs_text(n)
}

/// `roots` / `nexts` are the document and its next fresh id before and
/// after each control of `ids` is reset in turn.
pub open spec fn reset_chain(ids: Seq<NodeId>, roots: Seq<Node>, nexts: Seq<u64>) -> bool {
    &&& roots.len() == ids.len() + 1
    &&& nexts.len() == ids.len() + 1
    &&& forall|k: int| #![trigger ids[k]] 0 <= k < ids.len() ==> reset_step(roots[k], roots[k + 1], ids[k], nexts[k], nexts[k + 1])
}

/// `new` (with next fresh id `n1`) is `old` (with `n0`) after resetting
/// the controls `ids` one after another, each as [`control_reset`]
/// says, a control that writes text taking the next fresh id.
pub open spec fn resets_applied(old: Node, new: Node, ids: Seq<NodeId>, n0: u64, n1: u64) -> bool {
    exists|roots: Seq<Node>, nexts: Seq<u64>|
        #[trigger] reset_chain(ids, roots, nexts) && roots[0] == old && roots.last() == new && nexts[0] == n0 && nexts.last() == n1
}

/// One control of a reset: `new` / `n1` from `mid` / `nm`.
pub open spec fn reset_step(mid: Node, new: Node, id: NodeId, nm: u64, n1: u64) -> bool {
    &&& crate::path::changed_at_id(mid, new, id, |o: Node, n: Node| control_reset(o, n, nm))
    &&& n1 == match node_of(mid, id) {
        Some(m) => if reset_takes_id(m) {
            nm + 1
        } else {
            nm as int
        },
        None => nm as int,
    }
}

/// Reset the control `id` of the document.
fn reset_one(dom: &mut crate::dom::Dom, id: NodeId)
    requires
        old(dom).next_id < u64::MAX,
    ensures
        final(dom).focused == old(dom).focused,
        reset_step(old(dom).root, final(dom).root, id, old(dom).next_id, final(dom).next_id),
{
    let kind: u8 = match node_by_id(&dom.root, id) {
        None => return ,
        Some(n) => if crate::toggle::is_toggle(n) {
            1
        } else if n.has_tag("input") || n.has_tag("textarea") {
            let range = match crate::forms::input_type_state(n) {
                Some(t) => t == crate::forms::InputTypeState::Range,
                None => false,
            };
            if n.ext.default_value.is_some() && !range {
                2
            } else {
                3
            }
        } else if n.has_tag("select") {
            4
        } else {
            0
        },
    };
    let tid = if kind == 2 {
        dom.fresh_id()
    } else {
        dom.next_id
    };
    let ghost old_root = dom.root;
    let ghost mut sub: Node = dom.root;
    match crate::path::node_by_id_mut(&mut dom.root, id) {
        Some(n) => {
            if kind == 1 {
                crate::toggle::reset_to_default(n);
            } else if kind == 2 || kind == 3 {
                crate::input::reset_node(n, tid);
            } else if kind == 4 {
                crate::select::selectedness::reset_to_default(n);
            }
            proof {
                sub = *n;
            }
        },
        None => {},
    }
    proof {
        crate::path::lemma_replaced_at(old_root, dom.root, first_path(old_root, id)->0, sub);
    }
}

/// HTML reset algorithm: every control `form` owns, in tree order, goes
/// back to its default (see [`control_reset`]). No events fire.
pub fn reset_controls(dom: &mut crate::dom::Dom, form: NodeId)
    requires
        old(dom).next_id + owned(controls(old(dom).root), form).len() < u64::MAX,
    ensures
        final(dom).focused == old(dom).focused,
        resets_applied(
            old(dom).root,
            final(dom).root,
            owned(controls(old(dom).root), form),
            old(dom).next_id,
            final(dom).next_id,
        ),
{
    let ids = elements(&dom.root, form);
    let ghost root0 = dom.root;
    let ghost n0 = dom.next_id;
    let ghost mut roots: Seq<Node> = seq![dom.root];
    let ghost mut nexts: Seq<u64> = seq![dom.next_id];
    let mut i: usize = 0;
    while i < ids.len()
        invariant
            i <= ids@.len(),
            ids@ == owned(controls(root0), form),
            n0 + ids@.len() < u64::MAX,
            n0 <= dom.next_id <= n0 + i,
            dom.focused == old(dom).focused,
            reset_chain(ids@.take(i as int), roots, nexts),
            roots[0] == root0,
            nexts[0] == n0,
            roots.last() == dom.root,
            nexts.last() == dom.next_id,
        decreases ids.len() - i,
    {
        let ghost mid = dom.root;
        let ghost nm = dom.next_id;
        reset_one(dom, ids[i]);
        proof {
            let t = ids@.take(i + 1);
            let r2 = roots.push(dom.root);
            let x2 = nexts.push(dom.next_id);
            assert forall|k: int| #![trigger t[k]] 0 <= k < t.len() implies reset_step(r2[k], r2[k + 1], t[k], x2[k], x2[k + 1]) by {
                if k < i {
                    assert(t[k] == ids@.take(i as int)[k]);
                    assert(r2[k] == roots[k] && r2[k + 1] == roots[k + 1]);
                    assert(x2[k] == nexts[k] && x2[k + 1] == nexts[k + 1]);
                } else {
                    assert(k == i);
                    assert(r2[k] == mid && x2[k] == nm);
                }
            }
            roots = r2;
            nexts = x2;
        }
        i = i + 1;
    }
    assert(ids@.take(i as int) =~= ids@);
    assert(reset_chain(ids@, roots, nexts));
}

} // verus!
