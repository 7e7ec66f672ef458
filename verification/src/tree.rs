//! ARIA tree (`[role=tree]` holding `[role=treeitem]`s): the visible
//! rows, the active-row cursor (a marker attribute on one row), branch
//! expand / collapse (`aria-expanded`), and the keyboard and pointer
//! defaults that move the cursor, open and close branches and activate
//! rows. Expanding or collapsing fires a non-bubbling `toggle`;
//! activation dispatches a `click` on the row.

use vstd::prelude::*;
use crate::dom::{attr_written, str_eq, Dom, Node, NodeId};
use crate::events::{KeyboardEvent, ToggleChange};
use crate::forms::{first_below, first_holding_child, first_node, holds, lemma_first_below_path, lemma_first_holder_is};
use crate::path::{
    ancestor, at, changed_at_id, contains_id, find_path, first_path, ids_unique, lemma_first_path_at, lemma_path_ok_prefix,
    lemma_replaced_at, lemma_replaced_attrs, lemma_unique_first_path, node_at, node_by_id, node_by_id_mut, node_of, path_ok,
    prefix, replaced_at,
};

verus! {

/// The marker on the active row.
pub const ACTIVE_ATTR: &'static str = "data-rdom-active";

pub open spec fn active_name() -> Seq<char> {
    ACTIVE_ATTR@
}

/// `n`'s `role` attribute is `r`.
pub open spec fn has_role(n: Node, r: Seq<char>) -> bool {
    n.attr("role"@) == Some(r)
}

/// A branch: a row with an `aria-expanded` attribute.
pub open spec fn is_branch_spec(n: Node) -> bool {
    n.has_attr("aria-expanded"@)
}

/// An expanded branch: `aria-expanded="true"`.
pub open spec fn is_expanded_spec(n: Node) -> bool {
    n.attr("aria-expanded"@) == Some("true"@)
}

/// The index of the first node of `s` with role `r`.
pub open spec fn first_with_role(s: Seq<Node>, r: Seq<char>) -> Option<int>
    decreases s.len(),
{
    if s.len() == 0 {
        None
    } else if has_role(s[0], r) {
        Some(0)
    } else {
        match first_with_role(s.drop_first(), r) {
            Some(k) => Some(k + 1),
            None => None,
        }
    }
}

proof fn lemma_first_with_role(s: Seq<Node>, r: Seq<char>)
    ensures
        match first_with_role(s, r) {
            Some(k) => 0 <= k < s.len() && has_role(s[k], r) && forall|j: int| 0 <= j < k ==> !has_role(#[trigger] s[j], r),
            None => forall|j: int| 0 <= j < s.len() ==> !has_role(#[trigger] s[j], r),
        },
    decreases s.len(),
{
    if s.len() > 0 {
        lemma_first_with_role(s.drop_first(), r);
        assert forall|j: int| 1 <= j < s.len() implies s[j] == s.drop_first()[j - 1] by {}
    }
}

fn role_index(s: &Vec<Node>, r: &str) -> (res: Option<usize>)
    ensures
        match res {
            Some(k) => first_with_role(s@, r@) == Some(k as int) && k < s@.len() && has_role(s@[k as int], r@),
            None => first_with_role(s@, r@) is None,
        },
{
    proof {
        lemma_first_with_role(s@, r@);
    }
    let mut i: usize = 0;
    while i < s.len()
        invariant
            i <= s@.len(),
            forall|j: int| 0 <= j < i ==> !has_role(#[trigger] s@[j], r@),
            match first_with_role(s@, r@) {
                Some(k) => i <= k,
                None => true,
            },
            match first_with_role(s@, r@) {
                Some(k) => 0 <= k < s@.len() && has_role(s@[k], r@) && forall|j: int| 0 <= j < k ==> !has_role(#[trigger] s@[j], r@),
                None => forall|j: int| 0 <= j < s@.len() ==> !has_role(#[trigger] s@[j], r@),
            },
        decreases s.len() - i,
    {
        if s[i].attribute_is("role", r) {
            return Some(i);
        }
        i = i + 1;
    }
    None
}

/// The ids of the visible rows under `n` in tree order: its `treeitem`
/// children and, below each expanded one, the visible rows of its first
/// `group` child.
pub open spec fn visible_ids(n: Node) -> Seq<NodeId>
    decreases n, 2int,
{
    child_parts(n).flatten()
}

pub open spec fn child_parts(n: Node) -> Seq<Seq<NodeId>>
    decreases n, 1int,
{
    Seq::new(
        n.children@.len(),
        |j: int|
            if 0 <= j < n.children@.len() {
                row_part(n.children@[j])
            } else {
                Seq::empty()
            },
    )
}

/// A row and, when it is expanded, the visible rows of its group.
pub open spec fn row_part(c: Node) -> Seq<NodeId>
    decreases c, 0int,
{
    if has_role(c, "treeitem"@) {
        seq![c.id] + if is_expanded_spec(c) {
            match first_with_role(c.children@, "group"@) {
                Some(k) => if 0 <= k < c.children@.len() {
                    visible_ids(c.children@[k])
                } else {
                    Seq::empty()
                },
                None => Seq::empty(),
            }
        } else {
            Seq::empty()
        }
    } else {
        Seq::empty()
    }
}

fn collect_visible(n: &Node, out: &mut Vec<NodeId>)
    ensures
        final(out)@ == old(out)@ + visible_ids(*n),
    decreases n, 2int,
{
    let ghost start = out@;
    let ghost parts = child_parts(*n);
    let mut i: usize = 0;
    assert(parts.take(0).flatten() =~= Seq::<NodeId>::empty());
    while i < n.children.len()
        invariant
            i <= n.children@.len(),
            parts == child_parts(*n),
            out@ == start + parts.take(i as int).flatten(),
        decreases n.children@.len() - i,
    {
        let c = &n.children[i];
        let ghost before = out@;
        assert(decreases_to!(n => n.children@[i as int]));
        if c.attribute_is("role", "treeitem") {
            out.push(c.id);
            if c.attribute_is("aria-expanded", "true") {
                match role_index(&c.children, "group") {
                    Some(k) => {
                        let ghost mid = out@;
                        assert(decreases_to!(*c => c.children@[k as int]));
                        assert(decreases_to!(n => c.children@[k as int]));
                        collect_visible(&c.children[k], out);
                        assert(row_part(*c) =~= seq![c.id] + visible_ids(c.children@[k as int]));
                        assert(out@ =~= before + row_part(*c));
                    },
                    None => {
                        assert(row_part(*c) =~= seq![c.id]);
                        assert(out@ =~= before + row_part(*c));
                    },
                }
            } else {
                assert(row_part(*c) =~= seq![c.id]);
                assert(out@ =~= before + row_part(*c));
            }
        } else {
            assert(row_part(*c) =~= Seq::<NodeId>::empty());
            assert(out@ =~= before + row_part(*c));
        }
        proof {
            assert(parts[i as int] == row_part(n.children@[i as int]));
            assert(parts.take(i + 1) =~= parts.take(i as int).push(parts[i as int]));
            parts.take(i as int).lemma_flatten_push(parts[i as int]);
        }
        i = i + 1;
    }
    assert(parts.take(n.children@.len() as int) =~= parts);
}

/// The visible rows of `tree`, in tree order.
pub fn visible_items(tree: &Node) -> (r: Vec<NodeId>)
    ensures
        r@ == visible_ids(*tree),
{
    let mut out: Vec<NodeId> = Vec::new();
    collect_visible(tree, &mut out);
    assert(Seq::<NodeId>::empty() + visible_ids(*tree) =~= visible_ids(*tree));
    out
}

/// Carries the active marker.
pub open spec fn marked() -> spec_fn(Node) -> bool {
    |e: Node| e.has_attr(active_name())
}

/// The active row of `tree`: the first node below it with the marker.
pub open spec fn active_spec(tree: Node) -> Option<NodeId> {
    match first_below(tree, marked()) {
        Some(e) => Some(e.id),
        None => None,
    }
}

fn first_marked(n: &Node) -> (r: Option<NodeId>)
    ensures
        match r {
            Some(id) => first_node(*n, marked()) is Some && first_node(*n, marked())->0.id == id,
            None => first_node(*n, marked()) is None,
        },
        r is None <==> !holds(*n, marked()),
    decreases n, 1int,
{
    if n.has_attribute(ACTIVE_ATTR) {
        return Some(n.id);
    }
    match first_marked_below(n) {
        Some(id) => Some(id),
        None => None,
    }
}

fn first_marked_below(n: &Node) -> (r: Option<NodeId>)
    ensures
        match r {
            Some(id) => first_below(*n, marked()) is Some && first_below(*n, marked())->0.id == id,
            None => first_below(*n, marked()) is None,
        },
        r is None <==> !(exists|j: int| 0 <= j < n.children@.len() && holds(#[trigger] n.children@[j], marked())),
    decreases n, 0int,
{
    let mut i: usize = 0;
    while i < n.children.len()
        invariant
            i <= n.children@.len(),
            forall|k: int| 0 <= k < i ==> !holds(#[trigger] n.children@[k], marked()),
        decreases n.children@.len() - i,
    {
        assert(decreases_to!(n => n.children@[i as int]));
        match first_marked(&n.children[i]) {
            Some(t) => {
                proof {
                    lemma_first_holder_is(n.children@, marked(), i as int);
                }
                return Some(t);
            },
            None => {},
        }
        i = i + 1;
    }
    None
}

/// The active row of `tree`, if any.
pub fn active(tree: &Node) -> (r: Option<NodeId>)
    ensures
        r == active_spec(*tree),
{
    first_marked_below(tree)
}

/// Walking up the path `p` from `root` through the nodes at depths
/// `n - 1`, ..., `0`: the first with role `want`, unless (with
/// `stop_at_tree`) a `tree` comes first.
pub open spec fn up_role(root: Node, p: Seq<usize>, n: int, want: Seq<char>, stop_at_tree: bool) -> Option<NodeId>
    decreases n,
{
    if n <= 0 {
        None
    } else {
        let a = ancestor(root, p, n - 1);
        if has_role(a, want) {
            Some(a.id)
        } else if stop_at_tree && has_role(a, "tree"@) {
            None
        } else {
            up_role(root, p, n - 1, want, stop_at_tree)
        }
    }
}

fn walk_up_role(root: &Node, path: &Vec<usize>, n: usize, want: &str, stop_at_tree: bool) -> (r: Option<NodeId>)
    requires
        path_ok(*root, path@),
        n <= path@.len() + 1,
    ensures
        r == up_role(*root, path@, n as int, want@, stop_at_tree),
{
    let mut k: usize = n;
    while k > 0
        invariant
            k <= n <= path@.len() + 1,
            path_ok(*root, path@),
            up_role(*root, path@, n as int, want@, stop_at_tree) == up_role(*root, path@, k as int, want@, stop_at_tree),
        decreases k,
    {
        let pre = prefix(path, k - 1);
        proof {
            lemma_path_ok_prefix(*root, path@, k - 1);
        }
        let a = node_at(root, &pre);
        if a.attribute_is("role", want) {
            return Some(a.id);
        }
        if stop_at_tree && a.attribute_is("role", "tree") {
            return None;
        }
        k = k - 1;
    }
    None
}

/// The first `treeitem` of the first `group` child of `m`.
pub open spec fn first_child_item(m: Node) -> Option<NodeId> {
    match first_with_role(m.children@, "group"@) {
        Some(g) => match first_with_role(m.children@[g].children@, "treeitem"@) {
            Some(t) => Some(m.children@[g].children@[t].id),
            None => None,
        },
        None => None,
    }
}

fn first_child_item_of(m: &Node) -> (r: Option<NodeId>)
    ensures
        r == first_child_item(*m),
{
    match role_index(&m.children, "group") {
        Some(g) => match role_index(&m.children[g].children, "treeitem") {
            Some(t) => Some(m.children[g].children[t].id),
            None => None,
        },
        None => None,
    }
}

/// The row owning the group `item` sits in: its nearest `treeitem`
/// ancestor below the tree.
pub open spec fn parent_of_item(tree: Node, item: NodeId) -> Option<NodeId> {
    match first_path(tree, item) {
        Some(q) => up_role(tree, q, q.len() as int, "treeitem"@, true),
        None => None,
    }
}

fn parent_item(tree: &Node, item: NodeId) -> (r: Option<NodeId>)
    ensures
        r == parent_of_item(*tree, item),
{
    match find_path(tree, item) {
        Some(q) => walk_up_role(tree, &q, q.len(), "treeitem", true),
        None => None,
    }
}

/// The index of the first `c` in `s`.
pub open spec fn first_index(s: Seq<NodeId>, c: NodeId) -> Option<int>
    decreases s.len(),
{
    if s.len() == 0 {
        None
    } else if s[0] == c {
        Some(0)
    } else {
        match first_index(s.drop_first(), c) {
            Some(k) => Some(k + 1),
            None => None,
        }
    }
}

proof fn lemma_first_index(s: Seq<NodeId>, c: NodeId)
    ensures
        match first_index(s, c) {
            Some(k) => 0 <= k < s.len() && s[k] == c && forall|j: int| 0 <= j < k ==> s[j] != c,
            None => forall|j: int| 0 <= j < s.len() ==> s[j] != c,
        },
    decreases s.len(),
{
    if s.len() > 0 {
        lemma_first_index(s.drop_first(), c);
        assert forall|j: int| 1 <= j < s.len() implies s[j] == s.drop_first()[j - 1] by {}
    }
}

fn position(s: &Vec<NodeId>, c: NodeId) -> (r: Option<usize>)
    ensures
        match r {
            Some(k) => first_index(s@, c) == Some(k as int),
            None => first_index(s@, c) is None,
        },
{
    proof {
        lemma_first_index(s@, c);
    }
    let mut i: usize = 0;
    while i < s.len()
        invariant
            i <= s@.len(),
            forall|j: int| 0 <= j < i ==> s@[j] != c,
            match first_index(s@, c) {
                Some(k) => i <= k && 0 <= k < s@.len() && s@[k] == c && forall|j: int| 0 <= j < k ==> s@[j] != c,
                None => forall|j: int| 0 <= j < s@.len() ==> s@[j] != c,
            },
        decreases s.len() - i,
    {
        if s[i] == c {
            return Some(i);
        }
        i = i + 1;
    }
    None
}

/// What a key does to a tree.
#[derive(Clone, Copy, Debug, PartialEq, Eq, Structural)]
pub enum TreeStep {
    Stay,
    /// Move the cursor to the row.
    MoveTo(NodeId),
    /// Open (`true`) or close the branch.
    SetExpanded(NodeId, bool),
    /// Flip the row when it is a branch, then activate it.
    Activate(NodeId),
}

/// Right on the row `item`: a closed branch opens, an open one moves
/// the cursor to its first child row; anything else stays.
pub open spec fn right_spec(tree: Node, item: NodeId) -> TreeStep {
    match node_of(tree, item) {
        Some(m) => if is_branch_spec(m) {
            if is_expanded_spec(m) {
                match first_child_item(m) {
                    Some(f) => TreeStep::MoveTo(f),
                    None => TreeStep::Stay,
                }
            } else {
                TreeStep::SetExpanded(item, true)
            }
        } else {
            TreeStep::Stay
        },
        None => TreeStep::Stay,
    }
}

/// Left on the row `item`: an open branch closes; otherwise the cursor
/// goes to the parent row, if any.
pub open spec fn left_spec(tree: Node, item: NodeId) -> TreeStep {
    match node_of(tree, item) {
        Some(m) => if is_branch_spec(m) && is_expanded_spec(m) {
            TreeStep::SetExpanded(item, false)
        } else {
            match parent_of_item(tree, item) {
                Some(p) => TreeStep::MoveTo(p),
                None => TreeStep::Stay,
            }
        },
        None => TreeStep::Stay,
    }
}

/// The row Down (`down`) or Up moves the cursor to, by index among
/// `len` visible rows: one step from the current index, clamped; the
/// first row when the cursor is on no visible row.
pub open spec fn step_index(len: int, cur_idx: Option<int>, down: bool) -> int {
    match cur_idx {
        Some(i) => if down {
            if i + 1 < len {
                i + 1
            } else {
                len - 1
            }
        } else if i > 0 {
            i - 1
        } else {
            0
        },
        None => 0,
    }
}

/// The step `key` takes on `tree`: Up / Down move the cursor among the
/// visible rows, Home / End jump to the first / last, Right and Left as
/// [`right_spec`] / [`left_spec`] on the current row (the first visible
/// one when none is active), Enter / Space activate it. With no visible
/// row nothing happens.
pub open spec fn key_step_spec(tree: Node, key: Seq<char>) -> TreeStep {
    let items = visible_ids(tree);
    let len = items.len();
    if len == 0 {
        TreeStep::Stay
    } else {
        let cur = active_spec(tree);
        let cur_idx = match cur {
            Some(c) => first_index(items, c),
            None => None,
        };
        let item = match cur {
            Some(c) => c,
            None => items[0],
        };
        if key == "ArrowDown"@ {
            TreeStep::MoveTo(items[step_index(len as int, cur_idx, true)])
        } else if key == "ArrowUp"@ {
            TreeStep::MoveTo(items[step_index(len as int, cur_idx, false)])
        } else if key == "Home"@ {
            TreeStep::MoveTo(items[0])
        } else if key == "End"@ {
            TreeStep::MoveTo(items[len - 1])
        } else if key == "ArrowRight"@ {
            right_spec(tree, item)
        } else if key == "ArrowLeft"@ {
            left_spec(tree, item)
        } else if key == "Enter"@ || key == " "@ {
            TreeStep::Activate(item)
        } else {
            TreeStep::Stay
        }
    }
}

fn right_step(tree: &Node, item: NodeId) -> (r: TreeStep)
    ensures
        r == right_spec(*tree, item),
{
    match node_by_id(tree, item) {
        Some(m) => if m.has_attribute("aria-expanded") {
            if m.attribute_is("aria-expanded", "true") {
                match first_child_item_of(m) {
                    Some(f) => TreeStep::MoveTo(f),
                    None => TreeStep::Stay,
                }
            } else {
                TreeStep::SetExpanded(item, true)
            }
        } else {
            TreeStep::Stay
        },
        None => TreeStep::Stay,
    }
}

fn left_step(tree: &Node, item: NodeId) -> (r: TreeStep)
    ensures
        r == left_spec(*tree, item),
{
    match node_by_id(tree, item) {
        Some(m) => if m.has_attribute("aria-expanded") && m.attribute_is("aria-expanded", "true") {
            TreeStep::SetExpanded(item, false)
        } else {
            match parent_item(tree, item) {
                Some(p) => TreeStep::MoveTo(p),
                None => TreeStep::Stay,
            }
        },
        None => TreeStep::Stay,
    }
}

/// Down and Up move the cursor one visible row and stop at the ends:
/// from row `i`, Down goes to row `i + 1`, or stays on the last row;
/// Up goes to row `i - 1`, or stays on the first.
pub proof fn law_arrows_step_one_row(tree: Node, i: int)
    requires
        0 <= i < visible_ids(tree).len(),
        active_spec(tree) == Some(visible_ids(tree)[i]),
        forall|j: int| 0 <= j < i ==> visible_ids(tree)[j] != visible_ids(tree)[i],
    ensures
        i + 1 < visible_ids(tree).len() ==> key_step_spec(tree, "ArrowDown"@) == TreeStep::MoveTo(visible_ids(tree)[i + 1]),
        i + 1 == visible_ids(tree).len() ==> key_step_spec(tree, "ArrowDown"@) == TreeStep::MoveTo(visible_ids(tree)[i]),
        i > 0 ==> key_step_spec(tree, "ArrowUp"@) == TreeStep::MoveTo(visible_ids(tree)[i - 1]),
        i == 0 ==> key_step_spec(tree, "ArrowUp"@) == TreeStep::MoveTo(visible_ids(tree)[i]),
{
    let items = visible_ids(tree);
    lemma_index_of_first(items, i);
    lemma_arrow_steps(tree, items, Some(i));
}

/// A row that appears nowhere before position `i` is found at `i`.
proof fn lemma_index_of_first(items: Seq<NodeId>, i: int)
    requires
        0 <= i < items.len(),
        forall|j: int| 0 <= j < i ==> items[j] != items[i],
    ensures
        first_index(items, items[i]) == Some(i),
{
    lemma_first_index(items, items[i]);
}

/// Down and Up as steps by index among the visible rows.
proof fn lemma_arrow_steps(tree: Node, items: Seq<NodeId>, cur_idx: Option<int>)
    requires
        items == visible_ids(tree),
        items.len() > 0,
        cur_idx == match active_spec(tree) {
            Some(c) => first_index(items, c),
            None => None,
        },
    ensures
        key_step_spec(tree, "ArrowDown"@) == TreeStep::MoveTo(items[step_index(items.len() as int, cur_idx, true)]),
        key_step_spec(tree, "ArrowUp"@) == TreeStep::MoveTo(items[step_index(items.len() as int, cur_idx, false)]),
{
    lemma_key_names_differ();
}

/// Home and End jump to the first and the last visible row.
pub proof fn law_home_end_jump(tree: Node)
    requires
        visible_ids(tree).len() > 0,
    ensures
        key_step_spec(tree, "Home"@) == TreeStep::MoveTo(visible_ids(tree)[0]),
        key_step_spec(tree, "End"@) == TreeStep::MoveTo(visible_ids(tree)[visible_ids(tree).len() - 1]),
{
    lemma_key_names_differ();
}

proof fn lemma_key_names_differ()
    ensures
        "ArrowUp"@ != "ArrowDown"@,
        "Home"@ != "ArrowDown"@,
        "Home"@ != "ArrowUp"@,
        "End"@ != "ArrowDown"@,
        "End"@ != "ArrowUp"@,
        "End"@ != "Home"@,
{
    reveal_strlit("ArrowUp");
    reveal_strlit("ArrowDown");
    reveal_strlit("Home");
    reveal_strlit("End");
    assert("ArrowUp"@.len() != "ArrowDown"@.len());
    assert("Home"@.len() != "ArrowDown"@.len());
    assert("Home"@.len() != "ArrowUp"@.len());
    assert("End"@.len() != "ArrowDown"@.len());
    assert("End"@.len() != "ArrowUp"@.len());
    assert("End"@.len() != "Home"@.len());
}

fn step_from(len: usize, cur_idx: Option<usize>, down: bool) -> (r: usize)
    requires
        len > 0,
        match cur_idx {
            Some(i) => i < len,
            None => true,
        },
    ensures
        r == step_index(len as int, match cur_idx {
            Some(i) => Some(i as int),
            None => None,
        }, down),
        r < len,
{
    match cur_idx {
        Some(i) => if down {
            if i + 1 < len {
                i + 1
            } else {
                len - 1
            }
        } else if i > 0 {
            i - 1
        } else {
            0
        },
        None => 0,
    }
}

/// The step `key` takes on `tree`.
pub fn key_step(tree: &Node, key: &str) -> (r: TreeStep)
    ensures
        r == key_step_spec(*tree, key@),
{
    let items = visible_items(tree);
    let len = items.len();
    if len == 0 {
        return TreeStep::Stay;
    }
    let cur = active(tree);
    let cur_idx = match cur {
        Some(c) => position(&items, c),
        None => None,
    };
    proof {
        if cur is Some {
            lemma_first_index(items@, cur->0);
        }
    }
    let item = match cur {
        Some(c) => c,
        None => items[0],
    };
    let ghost ci = match cur_idx {
        Some(i) => Some(i as int),
        None => None::<int>,
    };
    assert(ci == match active_spec(*tree) {
        Some(c) => first_index(items@, c),
        None => None,
    });
    if str_eq(key, "ArrowDown") {
        TreeStep::MoveTo(items[step_from(len, cur_idx, true)])
    } else if str_eq(key, "ArrowUp") {
        TreeStep::MoveTo(items[step_from(len, cur_idx, false)])
    } else if str_eq(key, "Home") {
        TreeStep::MoveTo(items[0])
    } else if str_eq(key, "End") {
        TreeStep::MoveTo(items[len - 1])
    } else if str_eq(key, "ArrowRight") {
        right_step(tree, item)
    } else if str_eq(key, "ArrowLeft") {
        left_step(tree, item)
    } else if str_eq(key, "Enter") || str_eq(key, " ") {
        TreeStep::Activate(item)
    } else {
        TreeStep::Stay
    }
}

/// `new` is `old` with the cursor moved to `item`: the marker dropped
/// from the previously active row (when that is another row), then set
/// on `item`.
pub open spec fn active_moved(old: Node, new: Node, item: NodeId) -> bool {
    exists|mid: Node| #[trigger] marker_cleared(old, mid, item) && marker_set(mid, new, item)
}

/// `mid` is `old` with the marker dropped from the active row, unless
/// that row is `item` (or there is none).
pub open spec fn marker_cleared(old: Node, mid: Node, item: NodeId) -> bool {
    match active_spec(old) {
        Some(p) => if p != item {
            changed_at_id(old, mid, p, |o: Node, n: Node| attr_written(o, n, active_name(), None))
        } else {
            mid == old
        },
        None => mid == old,
    }
}

/// `new` is `mid` with the marker on the row `item`.
pub open spec fn marker_set(mid: Node, new: Node, item: NodeId) -> bool {
    changed_at_id(mid, new, item, |o: Node, n: Node| attr_written(o, n, active_name(), Some(Seq::empty())))
}

fn write_attr_at(n: &mut Node, id: NodeId, name: &str, v: Option<&str>)
    ensures
        changed_at_id(*old(n), *final(n), id, |o: Node, m: Node| attr_written(o, m, name@, match v {
            Some(s) => Some(s@),
            None => None,
        })),
{
    let ghost old_root = *n;
    let ghost mut sub: Node = *n;
    match node_by_id_mut(n, id) {
        Some(m) => {
            match v {
                Some(s) => m.set_attribute(name, s),
                None => m.remove_attribute(name),
            }
            proof {
                sub = *m;
            }
        },
        None => {},
    }
    proof {
        if first_path(old_root, id) is Some {
            lemma_replaced_at(old_root, *n, first_path(old_root, id)->0, sub);
        }
    }
}

/// At most one node strictly below the tree's root carries the cursor
/// marker.
pub open spec fn at_most_one_active(tree: Node) -> bool {
    forall|q1: Seq<usize>, q2: Seq<usize>|
        #![trigger at(tree, q1), at(tree, q2)]
        q1.len() > 0 && q2.len() > 0 && path_ok(tree, q1) && path_ok(tree, q2) && marked()(at(tree, q1)) && marked()(
            at(tree, q2),
        ) ==> q1 == q2
}

/// Every node strictly below the root of `t` with the marker is at `q`.
spec fn marked_only_at(t: Node, q: Seq<usize>) -> bool {
    forall|r: Seq<usize>| r.len() > 0 && path_ok(t, r) && marked()(#[trigger] at(t, r)) ==> r == q
}

/// Writing the marker at `q` (to `v`, removed for `None`) keeps every
/// path and id and changes the marker at `q` only.
proof fn lemma_marker_write(old: Node, new: Node, q: Seq<usize>, v: Option<Seq<char>>)
    requires
        ids_unique(old),
        path_ok(old, q),
        path_ok(new, q),
        replaced_at(old, new, q, at(new, q)),
        attr_written(at(old, q), at(new, q), active_name(), v),
    ensures
        ids_unique(new),
        forall|r: Seq<usize>| #[trigger] path_ok(new, r) == path_ok(old, r),
        forall|r: Seq<usize>| path_ok(old, r) ==> (#[trigger] at(new, r)).id == at(old, r).id,
        forall|r: Seq<usize>|
            path_ok(old, r) && r != q ==> marked()(#[trigger] at(new, r)) == marked()(at(old, r)),
        marked()(at(new, q)) == (v is Some),
{
    assert forall|r: Seq<usize>|
        #![trigger at(new, r)]
        #![trigger path_ok(new, r)]
        (path_ok(new, r) == path_ok(old, r)) && (path_ok(old, r) ==> at(new, r).id == at(old, r).id) && (path_ok(
            old,
            r,
        ) && r != q ==> at(new, r).attrs == at(old, r).attrs) by {
        lemma_replaced_attrs(old, new, q, at(new, q), r);
    }
    assert(at(new, q).attr(active_name()) == v);
    assert forall|q1: Seq<usize>, q2: Seq<usize>|
        #![trigger at(new, q1), at(new, q2)]
        path_ok(new, q1) && path_ok(new, q2) && at(new, q1).id == at(new, q2).id implies q1 == q2 by {
        assert(at(old, q1).id == at(old, q2).id);
    }
}

/// Moving the cursor leaves exactly one active row, the one it moved to:
/// in a tree whose nodes have distinct ids and where at most one row
/// carries the marker, `set_active` to a node below the tree's root makes
/// that node the active row and the only one with the marker, and the ids
/// stay distinct.
pub proof fn law_set_active_single(old: Node, new: Node, item: NodeId)
    requires
        ids_unique(old),
        at_most_one_active(old),
        old.id != item,
        contains_id(old, item),
        active_moved(old, new, item),
    ensures
        active_spec(new) == Some(item),
        at_most_one_active(new),
        ids_unique(new),
{
    let mid = choose|mid: Node| #[trigger] marker_cleared(old, mid, item) && marker_set(mid, new, item);
    lemma_first_path_at(old, item);
    let qi = first_path(old, item)->0;
    assert(qi.len() > 0);
    lemma_first_below_path(old, marked());
    match active_spec(old) {
        Some(p) => {
            let e = first_below(old, marked())->0;
            let q0 = choose|q: Seq<usize>| q.len() > 0 && path_ok(old, q) && #[trigger] at(old, q) == e;
            lemma_unique_first_path(old, q0);
            if p != item {
                assert(path_ok(mid, q0) && replaced_at(old, mid, q0, at(mid, q0)) && attr_written(
                    at(old, q0),
                    at(mid, q0),
                    active_name(),
                    None,
                ));
                lemma_marker_write(old, mid, q0, None);
                assert forall|r: Seq<usize>| r.len() > 0 && path_ok(mid, r) && marked()(#[trigger] at(mid, r)) implies r
                    == qi by {
                    assert(path_ok(old, r));
                    if r != q0 {
                        assert(marked()(at(old, r)));
                        assert(r == q0);
                    }
                }
            } else {
                assert(mid == old);
                assert(q0 == qi);
                assert forall|r: Seq<usize>| r.len() > 0 && path_ok(mid, r) && marked()(#[trigger] at(mid, r)) implies r
                    == qi by {
                    assert(marked()(at(old, q0)));
                }
            }
        },
        None => {
            assert(mid == old);
            assert forall|r: Seq<usize>| r.len() > 0 && path_ok(mid, r) && marked()(#[trigger] at(mid, r)) implies r
                == qi by {
                assert(!marked()(at(old, r)));
            }
        },
    }
    assert(marked_only_at(mid, qi));
    assert(ids_unique(mid) && path_ok(mid, qi) && at(mid, qi).id == item);
    lemma_unique_first_path(mid, qi);
    assert(path_ok(new, qi) && replaced_at(mid, new, qi, at(new, qi)) && attr_written(
        at(mid, qi),
        at(new, qi),
        active_name(),
        Some(Seq::empty()),
    ));
    lemma_marker_write(mid, new, qi, Some(Seq::empty()));
    assert forall|r: Seq<usize>| r.len() > 0 && path_ok(new, r) && marked()(#[trigger] at(new, r)) implies r == qi by {
        assert(path_ok(mid, r));
        if r != qi {
            assert(marked()(at(mid, r)));
        }
    }
    lemma_first_below_path(new, marked());
    assert(marked()(at(new, qi)));
    let e2 = first_below(new, marked())->0;
    let q2 = choose|q: Seq<usize>| q.len() > 0 && path_ok(new, q) && #[trigger] at(new, q) == e2;
    assert(q2 == qi);
}

/// Move `tree`'s cursor to the row `item`.
pub fn set_active(tree: &mut Node, item: NodeId)
    ensures
        active_moved(*old(tree), *final(tree), item),
{
    proof {
        reveal_strlit("");
        assert(""@ =~= Seq::<char>::empty());
    }
    let prev = active(tree);
    match prev {
        Some(p) => if p != item {
            write_attr_at(tree, p, ACTIVE_ATTR, None);
        },
        None => {},
    }
    let ghost mid = *tree;
    write_attr_at(tree, item, ACTIVE_ATTR, Some(""));
    assert(marker_cleared(*old(tree), mid, item));
    assert(marker_set(mid, *tree, item));
}

/// `new` is the branch `old` opened (`open`) or closed; already in that
/// state, it is unchanged.
pub open spec fn expanded_written(old: Node, new: Node, open: bool) -> bool {
    if is_expanded_spec(old) == open {
        new == old
    } else {
        attr_written(old, new, "aria-expanded"@, Some(if open { "true"@ } else { "false"@ }))
    }
}

/// The `toggle` that opening (`open`) or closing the node `item` fires:
/// none when it already is in that state or there is no such node.
pub open spec fn expand_toggle(tree: Node, item: NodeId, open: bool) -> Option<ToggleChange> {
    match node_of(tree, item) {
        Some(m) => if is_expanded_spec(m) == open {
            None
        } else {
            Some(ToggleChange { target: item, opened: open })
        },
        None => None,
    }
}

/// Open (`open`) or close the row `item` of `tree` by its
/// `aria-expanded`; returns the `toggle` to fire.
pub fn set_expanded(tree: &mut Node, item: NodeId, open: bool) -> (r: Option<ToggleChange>)
    ensures
        changed_at_id(*old(tree), *final(tree), item, |o: Node, n: Node| expanded_written(o, n, open)),
        r == expand_toggle(*old(tree), item, open),
{
    let ghost old_root = *tree;
    let ghost mut sub: Node = *tree;
    let r = match node_by_id_mut(tree, item) {
        Some(m) => {
            let r = if m.attribute_is("aria-expanded", "true") == open {
                None
            } else {
                m.set_attribute("aria-expanded", if open { "true" } else { "false" });
                Some(ToggleChange { target: item, opened: open })
            };
            proof {
                sub = *m;
            }
            r
        },
        None => None,
    };
    proof {
        if first_path(old_root, item) is Some {
            lemma_replaced_at(old_root, *tree, first_path(old_root, item)->0, sub);
        }
    }
    r
}

/// What a handled key leaves to dispatch: a `toggle` on a row that
/// opened or closed, and a `click` on an activated row.
#[derive(Clone, Copy, Debug, PartialEq, Eq, Structural)]
pub struct TreeKeyEffect {
    pub toggled: Option<ToggleChange>,
    pub activated: Option<NodeId>,
}

/// Whether a `keydown` goes to the tree defaults: not cancelled, the
/// focus on a `[role=tree]`, no Ctrl / Alt / Meta.
pub fn key_applies(focused: &Node, key: &KeyboardEvent, default_prevented: bool) -> (r: bool)
    ensures
        r == (!default_prevented && has_role(*focused, "tree"@) && !key.modifiers.ctrl && !key.modifiers.alt
            && !key.modifiers.meta),
{
    !default_prevented && focused.attribute_is("role", "tree") && !key.modifiers.ctrl && !key.modifiers.alt
        && !key.modifiers.meta
}

/// The tree keyboard default for `key` on the focused `tree`: the step
/// of [`key_step_spec`], carried out.
pub fn handle_key(tree: &mut Node, key: &str) -> (r: TreeKeyEffect)
    ensures
        match key_step_spec(*old(tree), key@) {
            TreeStep::Stay => *final(tree) == *old(tree) && r.toggled is None && r.activated is None,
            TreeStep::MoveTo(i) => active_moved(*old(tree), *final(tree), i) && r.toggled is None && r.activated is None,
            TreeStep::SetExpanded(i, open) => {
                &&& changed_at_id(*old(tree), *final(tree), i, |o: Node, n: Node| expanded_written(o, n, open))
                &&& r.toggled == expand_toggle(*old(tree), i, open)
                &&& r.activated is None
            },
            TreeStep::Activate(i) => {
                &&& r.activated == Some(i)
                &&& match node_of(*old(tree), i) {
                    Some(m) => if is_branch_spec(m) {
                        &&& changed_at_id(
                            *old(tree),
                            *final(tree),
                            i,
                            |o: Node, n: Node| expanded_written(o, n, !is_expanded_spec(m)),
                        )
                        &&& r.toggled == Some(ToggleChange { target: i, opened: !is_expanded_spec(m) })
                    } else {
                        *final(tree) == *old(tree) && r.toggled is None
                    },
                    None => *final(tree) == *old(tree) && r.toggled is None,
                }
            },
        },
{
    let step = key_step(tree, key);
    match step {
        TreeStep::Stay => TreeKeyEffect { toggled: None, activated: None },
        TreeStep::MoveTo(i) => {
            set_active(tree, i);
            TreeKeyEffect { toggled: None, activated: None }
        },
        TreeStep::SetExpanded(i, open) => {
            let t = set_expanded(tree, i, open);
            TreeKeyEffect { toggled: t, activated: None }
        },
        TreeStep::Activate(i) => {
            let flip = match node_by_id(tree, i) {
                Some(m) => if m.has_attribute("aria-expanded") {
                    Some(!m.attribute_is("aria-expanded", "true"))
                } else {
                    None
                },
                None => None,
            };
            let t = match flip {
                Some(open) => set_expanded(tree, i, open),
                None => None,
            };
            TreeKeyEffect { toggled: t, activated: Some(i) }
        },
    }
}

/// The row a click on the node `target` lands on (its nearest
/// `treeitem` ancestor-or-self, not above a `tree`) and the tree that
/// row belongs to (its nearest `tree` ancestor).
pub open spec fn click_targets(root: Node, target: NodeId) -> Option<(NodeId, NodeId)> {
    match first_path(root, target) {
        None => None,
        Some(p) => match up_role(root, p, p.len() as int + 1, "treeitem"@, true) {
            None => None,
            Some(item) => match first_path(root, item) {
                None => None,
                Some(q) => match up_role(root, q, q.len() as int, "tree"@, false) {
                    None => None,
                    Some(t) => Some((t, item)),
                },
            },
        },
    }
}

fn find_click_targets(root: &Node, target: NodeId) -> (r: Option<(NodeId, NodeId)>)
    ensures
        r == click_targets(*root, target),
{
    let p = match find_path(root, target) {
        Some(p) => p,
        None => return None,
    };
    let here = node_at(root, &p);
    assert(p@.take(p@.len() as int) =~= p@);
    let item = if here.attribute_is("role", "treeitem") {
        here.id
    } else if here.attribute_is("role", "tree") {
        return None;
    } else {
        match walk_up_role(root, &p, p.len(), "treeitem", true) {
            Some(i) => i,
            None => return None,
        }
    };
    let q = match find_path(root, item) {
        Some(q) => q,
        None => return None,
    };
    match walk_up_role(root, &q, q.len(), "tree", false) {
        Some(t) => Some((t, item)),
        None => None,
    }
}

/// The tree `new` after a click on its row `item`: the cursor moved
/// there, then, for a pointer click on a branch, the branch flipped
/// (with `toggled` the `toggle` to fire).
pub open spec fn tree_clicked(old: Node, new: Node, item: NodeId, from_pointer: bool, toggled: Option<ToggleChange>) -> bool {
    exists|mid: Node| #[trigger] active_moved(old, mid, item) && click_flip(mid, new, item, from_pointer, toggled)
}

pub open spec fn click_flip(mid: Node, new: Node, item: NodeId, from_pointer: bool, toggled: Option<ToggleChange>) -> bool {
    match node_of(mid, item) {
        Some(m) => if from_pointer && is_branch_spec(m) {
            &&& changed_at_id(mid, new, item, |o: Node, n: Node| expanded_written(o, n, !is_expanded_spec(m)))
            &&& toggled == expand_toggle(mid, item, !is_expanded_spec(m))
        } else {
            new == mid && toggled is None
        },
        None => new == mid && toggled is None,
    }
}

/// The tree click default: unless cancelled, a click inside a row of a
/// tree focuses the tree, moves its cursor to the row and, when it came
/// from the pointer, flips a branch row. Returns the `toggle` to fire.
pub fn on_click(dom: &mut Dom, target: NodeId, default_prevented: bool, from_pointer: bool) -> (r: Option<ToggleChange>)
    ensures
        final(dom).next_id == old(dom).next_id,
        match (if default_prevented {
            None
        } else {
            click_targets(old(dom).root, target)
        }) {
            None => *final(dom) == *old(dom) && r is None,
            Some((t, item)) => {
                &&& final(dom).focused == Some(t)
                &&& changed_at_id(
                    old(dom).root,
                    final(dom).root,
                    t,
                    |o: Node, n: Node| tree_clicked(o, n, item, from_pointer, r),
                )
            },
        },
{
    if default_prevented {
        return None;
    }
    let (t, item) = match find_click_targets(&dom.root, target) {
        Some(x) => x,
        None => return None,
    };
    dom.focused = Some(t);
    let ghost old_root = dom.root;
    let ghost mut sub: Node = dom.root;
    let r = match node_by_id_mut(&mut dom.root, t) {
        Some(tree) => {
            let ghost o = *tree;
            set_active(tree, item);
            let ghost mid = *tree;
            let flip = match node_by_id(tree, item) {
                Some(m) => if from_pointer && m.has_attribute("aria-expanded") {
                    Some(!m.attribute_is("aria-expanded", "true"))
                } else {
                    None
                },
                None => None,
            };
            let r = match flip {
                Some(open) => set_expanded(tree, item, open),
                None => None,
            };
            proof {
                sub = *tree;
                assert(click_flip(mid, sub, item, from_pointer, r));
                assert(tree_clicked(o, sub, item, from_pointer, r));
            }
            r
        },
        None => None,
    };
    proof {
        if first_path(old_root, t) is Some {
            lemma_replaced_at(old_root, dom.root, first_path(old_root, t)->0, sub);
        }
    }
    r
}

/// Opening or closing a row leaves it in the asked state, its other
/// attributes untouched.
pub proof fn law_set_expanded_reaches(o: Node, n: Node, open: bool)
    requires
        expanded_written(o, n, open),
    ensures
        is_expanded_spec(n) == open,
        forall|x: Seq<char>| x != "aria-expanded"@ ==> #[trigger] n.attr(x) == o.attr(x),
{
    reveal_strlit("true");
    reveal_strlit("false");
    assert("false"@ != "true"@) by {
        assert("false"@.len() != "true"@.len());
    }
    if is_expanded_spec(o) != open {
        assert(n.attr("aria-expanded"@) == Some(if open { "true"@ } else { "false"@ }));
    }
}

} // verus!
