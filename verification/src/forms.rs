//! The HTML form model the form builtins work on: an `<input>`'s type
//! state, submit buttons, the listed controls of a document in tree
//! order with their form owner (the form their `form` attribute names,
//! else their nearest ancestor `<form>`) and whether they are actually
//! disabled (their own `disabled`, or inside a disabled `<fieldset>`
//! outside its first `<legend>`).

use vstd::prelude::*;
use crate::dom::{Node, NodeId, NodeType};
use crate::path::{at, path_ok};
use crate::text::{ascii_lower_seq, eq_ignore_ascii_case};

verus! {

/// The state an `<input>`'s `type` attribute puts it in.
#[derive(Clone, Copy, Debug, PartialEq, Eq, Structural)]
pub enum InputTypeState {
    Hidden,
    Text,
    Search,
    Tel,
    Url,
    Email,
    Password,
    Date,
    Month,
    Week,
    Time,
    DateTimeLocal,
    Number,
    Range,
    Color,
    Checkbox,
    Radio,
    File,
    Submit,
    Image,
    Reset,
    Button,
}

/// Whether `v` is keyword `k`, ignoring ASCII case.
pub open spec fn is_keyword(v: Seq<char>, k: Seq<char>) -> bool {
    ascii_lower_seq(v) == ascii_lower_seq(k)
}

/// The state of a `type` attribute: its keyword, matched ignoring ASCII
/// case; a missing or unknown value is the Text state.
pub open spec fn type_state_of(t: Option<Seq<char>>) -> InputTypeState {
    match t {
        None => InputTypeState::Text,
        Some(v) => if is_keyword(v, "hidden"@) {
            InputTypeState::Hidden
        } else if is_keyword(v, "text"@) {
            InputTypeState::Text
        } else if is_keyword(v, "search"@) {
            InputTypeState::Search
        } else if is_keyword(v, "tel"@) {
            InputTypeState::Tel
        } else if is_keyword(v, "url"@) {
            InputTypeState::Url
        } else if is_keyword(v, "email"@) {
            InputTypeState::Email
        } else if is_keyword(v, "password"@) {
            InputTypeState::Password
        } else if is_keyword(v, "date"@) {
            InputTypeState::Date
        } else if is_keyword(v, "month"@) {
            InputTypeState::Month
        } else if is_keyword(v, "week"@) {
            InputTypeState::Week
        } else if is_keyword(v, "time"@) {
            InputTypeState::Time
        } else if is_keyword(v, "datetime-local"@) {
            InputTypeState::DateTimeLocal
        } else if is_keyword(v, "number"@) {
            InputTypeState::Number
        } else if is_keyword(v, "range"@) {
            InputTypeState::Range
        } else if is_keyword(v, "color"@) {
            InputTypeState::Color
        } else if is_keyword(v, "checkbox"@) {
            InputTypeState::Checkbox
        } else if is_keyword(v, "radio"@) {
            InputTypeState::Radio
        } else if is_keyword(v, "file"@) {
            InputTypeState::File
        } else if is_keyword(v, "submit"@) {
            InputTypeState::Submit
        } else if is_keyword(v, "image"@) {
            InputTypeState::Image
        } else if is_keyword(v, "reset"@) {
            InputTypeState::Reset
        } else if is_keyword(v, "button"@) {
            InputTypeState::Button
        } else {
            InputTypeState::Text
        },
    }
}

/// The type state of `n` when it is an `<input>`.
pub open spec fn input_state(n: Node) -> Option<InputTypeState> {
    if n.is_element("input"@) {
        Some(type_state_of(n.attr("type"@)))
    } else {
        None
    }
}

fn keyword_state(v: &str) -> (r: InputTypeState)
    ensures
        r == type_state_of(Some(v@)),
{
    if eq_ignore_ascii_case(v, "hidden") {
        InputTypeState::Hidden
    } else if eq_ignore_ascii_case(v, "text") {
        InputTypeState::Text
    } else if eq_ignore_ascii_case(v, "search") {
        InputTypeState::Search
    } else if eq_ignore_ascii_case(v, "tel") {
        InputTypeState::Tel
    } else if eq_ignore_ascii_case(v, "url") {
        InputTypeState::Url
    } else if eq_ignore_ascii_case(v, "email") {
        InputTypeState::Email
    } else if eq_ignore_ascii_case(v, "password") {
        InputTypeState::Password
    } else if eq_ignore_ascii_case(v, "date") {
        InputTypeState::Date
    } else if eq_ignore_ascii_case(v, "month") {
        InputTypeState::Month
    } else if eq_ignore_ascii_case(v, "week") {
        InputTypeState::Week
    } else if eq_ignore_ascii_case(v, "time") {
        InputTypeState::Time
    } else if eq_ignore_ascii_case(v, "datetime-local") {
        InputTypeState::DateTimeLocal
    } else if eq_ignore_ascii_case(v, "number") {
        InputTypeState::Number
    } else if eq_ignore_ascii_case(v, "range") {
        InputTypeState::Range
    } else if eq_ignore_ascii_case(v, "color") {
        InputTypeState::Color
    } else if eq_ignore_ascii_case(v, "checkbox") {
        InputTypeState::Checkbox
    } else if eq_ignore_ascii_case(v, "radio") {
        InputTypeState::Radio
    } else if eq_ignore_ascii_case(v, "file") {
        InputTypeState::File
    } else if eq_ignore_ascii_case(v, "submit") {
        InputTypeState::Submit
    } else if eq_ignore_ascii_case(v, "image") {
        InputTypeState::Image
    } else if eq_ignore_ascii_case(v, "reset") {
        InputTypeState::Reset
    } else if eq_ignore_ascii_case(v, "button") {
        InputTypeState::Button
    } else {
        InputTypeState::Text
    }
}

/// The type state of `n`, `None` for anything but an `<input>`.
pub fn input_type_state(n: &Node) -> (r: Option<InputTypeState>)
    ensures
        r == input_state(*n),
{
    if !n.has_tag("input") {
        return None;
    }
    match n.get_attribute("type") {
        None => Some(InputTypeState::Text),
        Some(v) => Some(keyword_state(v.as_str())),
    }
}

/// A single-line text-family state: text, search, tel, url, email,
/// password or number.
pub open spec fn is_text_state(s: InputTypeState) -> bool {
    s == InputTypeState::Text || s == InputTypeState::Search || s == InputTypeState::Tel || s == InputTypeState::Url
        || s == InputTypeState::Email || s == InputTypeState::Password || s == InputTypeState::Number
}

pub open spec fn is_text_input_spec(n: Node) -> bool {
    match input_state(n) {
        Some(s) => is_text_state(s),
        None => false,
    }
}

/// Whether `n` is a single-line text-family `<input>` (not a
/// `<textarea>`, where Enter inserts a newline).
pub fn is_text_input(n: &Node) -> (r: bool)
    ensures
        r == is_text_input_spec(*n),
{
    match input_type_state(n) {
        Some(s) => s == InputTypeState::Text || s == InputTypeState::Search || s == InputTypeState::Tel || s
            == InputTypeState::Url || s == InputTypeState::Email || s == InputTypeState::Password || s
            == InputTypeState::Number,
        None => false,
    }
}

/// A `<button>` is a submit button unless its `type` is `reset` or
/// `button` (a missing or invalid type is submit); an `<input>` is one
/// in the Submit state.
pub open spec fn is_submit_button_spec(n: Node) -> bool {
    if n.is_element("button"@) {
        match n.attr("type"@) {
            None => true,
            Some(t) => !is_keyword(t, "reset"@) && !is_keyword(t, "button"@),
        }
    } else {
        input_state(n) == Some(InputTypeState::Submit)
    }
}

pub fn is_submit_button(n: &Node) -> (r: bool)
    ensures
        r == is_submit_button_spec(*n),
{
    if n.has_tag("button") {
        match n.get_attribute("type") {
            None => true,
            Some(t) => !eq_ignore_ascii_case(t.as_str(), "reset") && !eq_ignore_ascii_case(t.as_str(), "button"),
        }
    } else {
        match input_type_state(n) {
            Some(s) => s == InputTypeState::Submit,
            None => false,
        }
    }
}

/// What activating a button does.
#[derive(Clone, Copy, Debug, PartialEq, Eq, Structural)]
pub enum ButtonAction {
    Submit,
    Reset,
    Button,
}

pub open spec fn button_action_spec(n: Node) -> ButtonAction {
    if is_submit_button_spec(n) {
        ButtonAction::Submit
    } else if (n.is_element("button"@) && match n.attr("type"@) {
        Some(t) => is_keyword(t, "reset"@),
        None => false,
    }) || (!n.is_element("button"@) && input_state(n) == Some(InputTypeState::Reset)) {
        ButtonAction::Reset
    } else {
        ButtonAction::Button
    }
}

/// The default action of activating `n`: submit, reset, or nothing.
pub fn button_action(n: &Node) -> (r: ButtonAction)
    ensures
        r == button_action_spec(*n),
{
    if is_submit_button(n) {
        return ButtonAction::Submit;
    }
    let reset = if n.has_tag("button") {
        match n.get_attribute("type") {
            Some(t) => eq_ignore_ascii_case(t.as_str(), "reset"),
            None => false,
        }
    } else {
        match input_type_state(n) {
            Some(s) => s == InputTypeState::Reset,
            None => false,
        }
    };
    if reset {
        ButtonAction::Reset
    } else {
        ButtonAction::Button
    }
}

/// A listed element: `<button>`, `<fieldset>`, `<input>`, `<object>`,
/// `<output>`, `<select>`, `<textarea>`.
pub open spec fn is_listed(n: Node) -> bool {
    n.is_element("button"@) || n.is_element("fieldset"@) || n.is_element("input"@) || n.is_element("object"@)
        || n.is_element("output"@) || n.is_element("select"@) || n.is_element("textarea"@)
}

fn listed(n: &Node) -> (r: bool)
    ensures
        r == is_listed(*n),
{
    n.has_tag("button") || n.has_tag("fieldset") || n.has_tag("input") || n.has_tag("object") || n.has_tag("output")
        || n.has_tag("select") || n.has_tag("textarea")
}

/// An element its own `disabled` attribute disables.
pub open spec fn own_disabled(n: Node) -> bool {
    n.has_attr("disabled"@) && (n.is_element("button"@) || n.is_element("input"@) || n.is_element("select"@)
        || n.is_element("textarea"@) || n.is_element("fieldset"@))
}

fn is_own_disabled(n: &Node) -> (r: bool)
    ensures
        r == own_disabled(*n),
{
    n.has_attribute("disabled") && (n.has_tag("button") || n.has_tag("input") || n.has_tag("select") || n.has_tag(
        "textarea",
    ) || n.has_tag("fieldset"))
}

/// Whether `e` is an element whose `id` attribute is `v`.
pub open spec fn has_id(v: Seq<char>) -> spec_fn(Node) -> bool {
    |e: Node| e.node_type == NodeType::Element && e.attr("id"@) == Some(v)
}

/// Whether the subtree of `n` holds a node `pred` accepts.
pub open spec fn holds(n: Node, pred: spec_fn(Node) -> bool) -> bool
    decreases n,
{
    pred(n) || exists|j: int| 0 <= j < n.children@.len() && holds(#[trigger] n.children@[j], pred)
}

/// The first child of `children` whose subtree holds a node `pred`
/// accepts.
pub open spec fn first_holding_child(children: Seq<Node>, pred: spec_fn(Node) -> bool) -> int {
    choose|j: int|
        0 <= j < children.len() && holds(#[trigger] children[j], pred) && forall|k: int|
            0 <= k < j ==> !holds(#[trigger] children[k], pred)
}

/// The first node of the subtree of `n`, in tree order, that `pred`
/// accepts.
pub open spec fn first_node(n: Node, pred: spec_fn(Node) -> bool) -> Option<Node>
    decreases n,
{
    if pred(n) {
        Some(n)
    } else if exists|j: int| 0 <= j < n.children@.len() && holds(#[trigger] n.children@[j], pred) {
        let j = first_holding_child(n.children@, pred);
        if 0 <= j < n.children@.len() {
            first_node(n.children@[j], pred)
        } else {
            None
        }
    } else {
        None
    }
}

/// The first node strictly below `n`, in tree order, that `pred`
/// accepts.
pub open spec fn first_below(n: Node, pred: spec_fn(Node) -> bool) -> Option<Node> {
    if exists|j: int| 0 <= j < n.children@.len() && holds(#[trigger] n.children@[j], pred) {
        let j = first_holding_child(n.children@, pred);
        if 0 <= j < n.children@.len() {
            first_node(n.children@[j], pred)
        } else {
            None
        }
    } else {
        None
    }
}

/// A node on a path that `pred` accepts makes the subtree hold one.
pub proof fn lemma_holds_at(n: Node, q: Seq<usize>, pred: spec_fn(Node) -> bool)
    requires
        path_ok(n, q),
        pred(at(n, q)),
    ensures
        holds(n, pred),
    decreases q.len(),
{
    if q.len() > 0 {
        let c = n.children@[q[0] as int];
        lemma_holds_at(c, q.drop_first(), pred);
        assert(holds(c, pred));
    }
}

/// Some child holds a node `pred` accepts, so the first such child is
/// well defined.
proof fn lemma_first_holding_exists(children: Seq<Node>, pred: spec_fn(Node) -> bool, w: int)
    requires
        0 <= w < children.len(),
        holds(children[w], pred),
    ensures
        ({
            let j = first_holding_child(children, pred);
            &&& 0 <= j < children.len()
            &&& holds(children[j], pred)
            &&& forall|k: int| 0 <= k < j ==> !holds(#[trigger] children[k], pred)
        }),
    decreases w,
{
    let good = |j: int|
        0 <= j < children.len() && holds(children[j], pred) && forall|k: int|
            0 <= k < j ==> !holds(#[trigger] children[k], pred);
    if forall|k: int| 0 <= k < w ==> !holds(#[trigger] children[k], pred) {
        assert(good(w));
    } else {
        let k = choose|k: int| 0 <= k < w && holds(#[trigger] children[k], pred);
        lemma_first_holding_exists(children, pred, k);
    }
}

/// What `first_node` finds is on a path of the subtree and `pred`
/// accepts it; it finds one exactly when the subtree holds one.
pub proof fn lemma_first_node_path(n: Node, pred: spec_fn(Node) -> bool)
    ensures
        first_node(n, pred) matches Some(e) ==> pred(e) && exists|q: Seq<usize>|
            path_ok(n, q) && #[trigger] at(n, q) == e,
        first_node(n, pred) is Some <==> holds(n, pred),
    decreases n,
{
    if pred(n) {
        assert(path_ok(n, Seq::<usize>::empty()) && at(n, Seq::<usize>::empty()) == n);
    } else if exists|j: int| 0 <= j < n.children@.len() && holds(#[trigger] n.children@[j], pred) {
        let w = choose|j: int| 0 <= j < n.children@.len() && holds(#[trigger] n.children@[j], pred);
        lemma_first_holding_exists(n.children@, pred, w);
        let j = first_holding_child(n.children@, pred);
        lemma_first_node_path(n.children@[j], pred);
        if let Some(e) = first_node(n.children@[j], pred) {
            let p = choose|q: Seq<usize>| path_ok(n.children@[j], q) && #[trigger] at(n.children@[j], q) == e;
            let s = seq![j as usize] + p;
            assert(n.children@.len() == n.children.len());
            assert(s.drop_first() =~= p);
            assert(s[0] as int == j);
            assert(path_ok(n, s) && at(n, s) == e);
        }
    }
}

/// What `first_below` finds is on a nonempty path and `pred` accepts
/// it; when it finds nothing, no node strictly below is accepted.
pub proof fn lemma_first_below_path(n: Node, pred: spec_fn(Node) -> bool)
    ensures
        first_below(n, pred) matches Some(e) ==> pred(e) && exists|q: Seq<usize>|
            q.len() > 0 && path_ok(n, q) && #[trigger] at(n, q) == e,
        first_below(n, pred) is None ==> forall|q: Seq<usize>|
            q.len() > 0 && path_ok(n, q) ==> !pred(#[trigger] at(n, q)),
{
    if exists|j: int| 0 <= j < n.children@.len() && holds(#[trigger] n.children@[j], pred) {
        let w = choose|j: int| 0 <= j < n.children@.len() && holds(#[trigger] n.children@[j], pred);
        lemma_first_holding_exists(n.children@, pred, w);
        let j = first_holding_child(n.children@, pred);
        lemma_first_node_path(n.children@[j], pred);
        if let Some(e) = first_node(n.children@[j], pred) {
            let p = choose|q: Seq<usize>| path_ok(n.children@[j], q) && #[trigger] at(n.children@[j], q) == e;
            let s = seq![j as usize] + p;
            assert(n.children@.len() == n.children.len());
            assert(s.drop_first() =~= p);
            assert(s[0] as int == j);
            assert(s.len() > 0 && path_ok(n, s) && at(n, s) == e);
        }
    } else {
        assert forall|q: Seq<usize>| q.len() > 0 && path_ok(n, q) implies !pred(#[trigger] at(n, q)) by {
            if pred(at(n, q)) {
                let c = n.children@[q[0] as int];
                assert(at(n, q) == at(c, q.drop_first()));
                lemma_holds_at(c, q.drop_first(), pred);
            }
        }
    }
}

/// The first child whose subtree holds a node `pred` accepts, when
/// none before `i` does and child `i` does, is `i`.
pub proof fn lemma_first_holder_is(children: Seq<Node>, pred: spec_fn(Node) -> bool, i: int)
    requires
        0 <= i < children.len(),
        holds(children[i], pred),
        forall|k: int| 0 <= k < i ==> !holds(#[trigger] children[k], pred),
    ensures
        first_holding_child(children, pred) == i,
{
    let j = first_holding_child(children, pred);
    assert(0 <= j < children.len() && holds(children[j], pred) && forall|k: int|
        0 <= k < j ==> !holds(#[trigger] children[k], pred));
    if j > i {
        assert(!holds(children[i], pred));
    }
}

/// The element of `n`'s subtree with `id` attribute `v` (the first one,
/// as `getElementById`).
pub(crate) fn element_by_id<'a>(n: &'a Node, v: &str) -> (r: Option<&'a Node>)
    ensures
        match r {
            Some(e) => first_node(*n, has_id(v@)) == Some(*e),
            None => first_node(*n, has_id(v@)) is None,
        },
        r is None <==> !holds(*n, has_id(v@)),
    decreases n,
{
    if n.node_type == NodeType::Element && n.attribute_is("id", v) {
        return Some(n);
    }
    let mut i: usize = 0;
    while i < n.children.len()
        invariant
            i <= n.children@.len(),
            !has_id(v@)(*n),
            forall|k: int| 0 <= k < i ==> !holds(#[trigger] n.children@[k], has_id(v@)),
        decreases n.children@.len() - i,
    {
        assert(decreases_to!(n => n.children@[i as int]));
        match element_by_id(&n.children[i], v) {
            Some(t) => {
                proof {
                    let j = first_holding_child(n.children@, has_id(v@));
                    assert(holds(n.children@[i as int], has_id(v@)));
                    assert(0 <= j < n.children@.len() && holds(n.children@[j], has_id(v@)) && forall|k: int|
                        0 <= k < j ==> !holds(#[trigger] n.children@[k], has_id(v@)));
                    if j > i {
                        assert(!holds(n.children@[i as int], has_id(v@)));
                    }
                    assert(j == i);
                }
                return Some(t);
            },
            None => {},
        }
        i = i + 1;
    }
    None
}

/// The form a `form="v"` attribute names: the element with id `v`, when
/// it is a `<form>`.
pub open spec fn form_by_id_spec(root: Node, v: Seq<char>) -> Option<NodeId> {
    match first_node(root, has_id(v)) {
        Some(e) => if e.is_element("form"@) {
            Some(e.id)
        } else {
            None
        },
        None => None,
    }
}

fn form_by_id(root: &Node, v: &str) -> (r: Option<NodeId>)
    ensures
        r == form_by_id_spec(*root, v@),
{
    match element_by_id(root, v) {
        Some(e) => if e.has_tag("form") {
            Some(e.id)
        } else {
            None
        },
        None => None,
    }
}

/// A listed element with its form owner and whether it is actually
/// disabled.
pub struct ControlInfo {
    pub node: Node,
    pub owner: Option<NodeId>,
    pub disabled: bool,
}

/// The form owner of `n`: the form its `form` attribute names (none when
/// that names no form), else `nearest`, its nearest ancestor form.
pub open spec fn owner_of(n: Node, nearest: Option<NodeId>, root: Node) -> Option<NodeId> {
    match n.attr("form"@) {
        Some(v) => form_by_id_spec(root, v),
        None => nearest,
    }
}

/// The index of the first `<legend>` among `children` from `i` on, or
/// their count.
pub open spec fn first_legend(children: Seq<Node>, i: int) -> int
    decreases children.len() - i,
{
    if i < 0 || i >= children.len() {
        children.len() as int
    } else if children[i].is_element("legend"@) {
        i
    } else {
        first_legend(children, i + 1)
    }
}

/// Whether child `j` of `n` is inside a disabled fieldset: `dctx` says
/// `n` is; a disabled `n` fieldset disables every child but its first
/// `<legend>`.
pub open spec fn child_dctx(n: Node, j: int, dctx: bool) -> bool {
    dctx || (n.is_element("fieldset"@) && n.has_attr("disabled"@) && j != first_legend(n.children@, 0))
}

/// The nearest form for the children of `n`.
pub open spec fn nearest_below(n: Node, nearest: Option<NodeId>) -> Option<NodeId> {
    if n.is_element("form"@) {
        Some(n.id)
    } else {
        nearest
    }
}

/// The listed elements of the subtree of `n` in tree order, given the
/// nearest ancestor form and whether `n` is inside a disabled fieldset.
pub open spec fn controls_walk(n: Node, nearest: Option<NodeId>, dctx: bool, root: Node) -> Seq<ControlInfo>
    decreases n, 1int,
{
    (if is_listed(n) {
        seq![ControlInfo { node: n, owner: owner_of(n, nearest, root), disabled: own_disabled(n) || dctx }]
    } else {
        Seq::empty()
    }) + child_controls(n, nearest, dctx, root).flatten()
}

pub open spec fn child_controls(n: Node, nearest: Option<NodeId>, dctx: bool, root: Node) -> Seq<Seq<ControlInfo>>
    decreases n, 0int,
{
    Seq::new(
        n.children@.len(),
        |j: int|
            if 0 <= j < n.children@.len() {
                controls_walk(n.children@[j], nearest_below(n, nearest), child_dctx(n, j, dctx), root)
            } else {
                Seq::empty()
            },
    )
}

/// Every listed element of the document under `root`, in tree order.
pub open spec fn controls(root: Node) -> Seq<ControlInfo> {
    controls_walk(root, None, false, root)
}

/// A listed element of a tree, with its form owner and whether it is
/// actually disabled.
pub struct Control<'a> {
    pub node: &'a Node,
    pub owner: Option<NodeId>,
    pub disabled: bool,
}

impl<'a> Control<'a> {
    pub open spec fn info(self) -> ControlInfo {
        ControlInfo { node: *self.node, owner: self.owner, disabled: self.disabled }
    }
}

pub open spec fn infos<'a>(s: Seq<Control<'a>>) -> Seq<ControlInfo> {
    s.map_values(|c: Control<'a>| c.info())
}

fn first_legend_index(children: &Vec<Node>) -> (r: usize)
    ensures
        r == first_legend(children@, 0),
{
    let mut i: usize = 0;
    while i < children.len()
        invariant
            i <= children@.len(),
            first_legend(children@, 0) == first_legend(children@, i as int),
        decreases children@.len() - i,
    {
        if children[i].has_tag("legend") {
            return i;
        }
        i = i + 1;
    }
    children.len()
}

fn walk_controls<'a>(
    n: &'a Node,
    nearest: Option<NodeId>,
    dctx: bool,
    root: &Node,
    out: &mut Vec<Control<'a>>,
)
    ensures
        infos(final(out)@) == infos(old(out)@) + controls_walk(*n, nearest, dctx, *root),
    decreases n,
{
    let ghost start = infos(out@);
    if listed(n) {
        let owner = match n.get_attribute("form") {
            Some(v) => form_by_id(root, v.as_str()),
            None => nearest,
        };
        let disabled = is_own_disabled(n) || dctx;
        let ghost before = out@;
        out.push(Control { node: n, owner, disabled });
        assert(infos(out@) =~= infos(before) + seq![
            ControlInfo { node: *n, owner: owner_of(*n, nearest, *root), disabled: own_disabled(*n) || dctx },
        ]);
    }
    let ghost me = if is_listed(*n) {
        seq![ControlInfo { node: *n, owner: owner_of(*n, nearest, *root), disabled: own_disabled(*n) || dctx }]
    } else {
        Seq::<ControlInfo>::empty()
    };
    assert(infos(out@) =~= start + me);
    let below = if n.has_tag("form") {
        Some(n.id)
    } else {
        nearest
    };
    let fieldset_off = n.has_tag("fieldset") && n.has_attribute("disabled");
    let legend = first_legend_index(&n.children);
    let ghost kids = child_controls(*n, nearest, dctx, *root);
    let mut i: usize = 0;
    assert(kids.take(0).flatten() =~= Seq::<ControlInfo>::empty());
    while i < n.children.len()
        invariant
            i <= n.children@.len(),
            kids == child_controls(*n, nearest, dctx, *root),
            below == nearest_below(*n, nearest),
            fieldset_off == (n.is_element("fieldset"@) && n.has_attr("disabled"@)),
            legend == first_legend(n.children@, 0),
            infos(out@) == start + me + kids.take(i as int).flatten(),
        decreases n.children@.len() - i,
    {
        assert(decreases_to!(n => n.children@[i as int]));
        let cd = dctx || (fieldset_off && i != legend);
        walk_controls(&n.children[i], below, cd, root, out);
        proof {
            assert(kids[i as int] == controls_walk(n.children@[i as int], below, cd, *root));
            assert(kids.take(i + 1) =~= kids.take(i as int).push(kids[i as int]));
            kids.take(i as int).lemma_flatten_push(kids[i as int]);
            assert(infos(out@) =~= start + me + kids.take(i + 1).flatten());
        }
        i = i + 1;
    }
    assert(kids.take(i as int) =~= kids);
    assert(controls_walk(*n, nearest, dctx, *root) == me + kids.flatten());
    assert(infos(out@) =~= start + controls_walk(*n, nearest, dctx, *root));
}

/// Every listed element of the document under `root`, in tree order,
/// with its form owner and whether it is actually disabled.
pub fn control_table<'a>(root: &'a Node) -> (r: Vec<Control<'a>>)
    ensures
        infos(r@) == controls(*root),
{
    let mut out: Vec<Control<'a>> = Vec::new();
    walk_controls(root, None, false, root, &mut out);
    assert(infos(Seq::<Control<'a>>::empty()) =~= Seq::<ControlInfo>::empty());
    assert(Seq::<ControlInfo>::empty() + controls(*root) =~= controls(*root));
    out
}

} // verus!
