//! The element tree the builtins work on: elements with a tag name,
//! attributes and children, text nodes, and the per-node runtime state
//! the builtins keep beside the attributes.

use vstd::prelude::*;
use crate::style::{no_presentation, ComputedStyle, Presentation};

verus! {

/// Identity of a node, stable for the node's lifetime.
pub type NodeId = u64;

/// What kind of node this is.
#[derive(Clone, Copy, Debug, PartialEq, Eq, Structural)]
pub enum NodeType {
    Document,
    Element,
    Text,
}

/// One `name="value"` attribute.
pub struct Attr {
    pub name: String,
    pub value: String,
}

/// A `<select>`'s type-ahead buffer: the lower-cased characters typed
/// so far and when the last one was typed (milliseconds on the app
/// clock).
pub struct TypeaheadState {
    pub buffer: Vec<char>,
    pub last_ms: u64,
}

/// Runtime state a builtin keeps on a node beside its attributes.
pub struct NodeExt {
    /// `defaultSelected` of an `<option>`, once captured.
    pub default_selected: Option<bool>,
    /// `defaultChecked` of a checkbox / radio, once captured.
    pub default_checked: Option<bool>,
    /// `defaultValue` of a text control / range, once captured.
    pub default_value: Option<String>,
    /// Author-specified fixed width (inline style), a table-sizing input.
    pub author_width: Option<u16>,
    /// Used column width a table pass records on a cell.
    pub table_used_width: Option<u16>,
    /// Whether a canvas paint callback is registered on the node.
    pub has_paint: bool,
    /// Type-ahead buffer of a `<select>`.
    pub typeahead: Option<TypeaheadState>,
    /// What in-flight transitions show on the element and on its
    /// `::before` / `::after`.
    pub presentation: Presentation,
    pub presentation_before: Presentation,
    pub presentation_after: Presentation,
    /// The latest cascade result, and the one before it, of the element
    /// and of its pseudo-elements.
    pub computed: Option<ComputedStyle>,
    pub computed_prev: Option<ComputedStyle>,
    pub computed_before: Option<ComputedStyle>,
    pub computed_before_prev: Option<ComputedStyle>,
    pub computed_after: Option<ComputedStyle>,
    pub computed_after_prev: Option<ComputedStyle>,
}

impl NodeExt {
    /// No state captured yet.
    pub open spec fn is_fresh(&self) -> bool {
        &&& self.default_selected is None
        &&& self.default_checked is None
        &&& self.default_value is None
        &&& self.author_width is None
        &&& self.table_used_width is None
        &&& !self.has_paint
        &&& self.typeahead is None
        &&& self.presentation == no_presentation()
        &&& self.presentation_before == no_presentation()
        &&& self.presentation_after == no_presentation()
        &&& self.computed is None
        &&& self.computed_prev is None
        &&& self.computed_before is None
        &&& self.computed_before_prev is None
        &&& self.computed_after is None
        &&& self.computed_after_prev is None
    }

    pub fn new() -> (r: NodeExt)
        ensures
            r.default_selected is None,
            r.default_checked is None,
            r.default_value is None,
            r.author_width is None,
            r.table_used_width is None,
            !r.has_paint,
            r.typeahead is None,
            r.is_fresh(),
    {
        NodeExt {
            default_selected: None,
            default_checked: None,
            default_value: None,
            author_width: None,
            table_used_width: None,
            has_paint: false,
            typeahead: None,
            presentation: Presentation::none(),
            presentation_before: Presentation::none(),
            presentation_after: Presentation::none(),
            computed: None,
            computed_prev: None,
            computed_before: None,
            computed_before_prev: None,
            computed_after: None,
            computed_after_prev: None,
        }
    }
}

/// A node of the tree, owning its children.
pub struct Node {
    pub id: NodeId,
    pub node_type: NodeType,
    /// Tag name of an element (empty for other nodes).
    pub tag: String,
    /// Content of a text node (empty for other nodes).
    pub text: String,
    pub attrs: Vec<Attr>,
    pub children: Vec<Node>,
    pub ext: NodeExt,
}

/// The value of attribute `name`: the first entry with that name.
pub open spec fn find_attr(attrs: Seq<Attr>, name: Seq<char>) -> Option<Seq<char>>
    decreases attrs.len(),
{
    if attrs.len() == 0 {
        None
    } else if attrs[0].name@ == name {
        Some(attrs[0].value@)
    } else {
        find_attr(attrs.drop_first(), name)
    }
}

/// Concatenated content of the text nodes among `children`.
pub open spec fn direct_text(children: Seq<Node>) -> Seq<char>
    decreases children.len(),
{
    if children.len() == 0 {
        Seq::empty()
    } else {
        let rest = direct_text(children.drop_last());
        let last = children.last();
        if last.node_type == NodeType::Text {
            rest + last.text@
        } else {
            rest
        }
    }
}

/// The content of the first text node among `children`; empty when
/// there is none.
pub open spec fn first_text(children: Seq<Node>) -> Seq<char>
    decreases children.len(),
{
    if children.len() == 0 {
        Seq::empty()
    } else if children[0].node_type == NodeType::Text {
        children[0].text@
    } else {
        first_text(children.drop_first())
    }
}

/// Skipping leading non-text nodes leaves the first text unchanged.
pub proof fn lemma_first_text_skip(children: Seq<Node>, i: int)
    requires
        0 <= i <= children.len(),
        forall|j: int| 0 <= j < i ==> (#[trigger] children[j]).node_type != NodeType::Text,
    ensures
        first_text(children) == first_text(children.skip(i)),
    decreases i,
{
    if i == 0 {
        assert(children.skip(0) =~= children);
    } else {
        let rest = children.drop_first();
        assert forall|j: int| 0 <= j < i - 1 implies (#[trigger] rest[j]).node_type != NodeType::Text by {
            assert(rest[j] == children[j + 1]);
        }
        lemma_first_text_skip(rest, i - 1);
        assert(rest.skip(i - 1) =~= children.skip(i));
        assert(children[0].node_type != NodeType::Text);
    }
}

/// Whether any of `children` is a text node.
pub open spec fn has_text_child(children: Seq<Node>) -> bool {
    exists|i: int| 0 <= i < children.len() && (#[trigger] children[i]).node_type == NodeType::Text
}

/// Updating the first entry named `name` changes only that name's value.
proof fn lemma_find_attr_update(attrs: Seq<Attr>, j: int, a: Attr, n: Seq<char>)
    requires
        0 <= j < attrs.len(),
        a.name@ == attrs[j].name@,
        forall|k: int| 0 <= k < j ==> (#[trigger] attrs[k]).name@ != attrs[j].name@,
    ensures
        find_attr(attrs.update(j, a), n) == if n == a.name@ {
            Some(a.value@)
        } else {
            find_attr(attrs, n)
        },
    decreases j,
{
    if j > 0 {
        let tail = attrs.drop_first();
        assert(tail[j - 1] == attrs[j]);
        assert(attrs.update(j, a).drop_first() =~= tail.update(j - 1, a));
        assert forall|k: int| 0 <= k < j - 1 implies (#[trigger] tail[k]).name@ != tail[j - 1].name@ by {
            assert(tail[k] == attrs[k + 1]);
        }
        lemma_find_attr_update(tail, j - 1, a, n);
        assert(attrs.update(j, a)[0] == attrs[0]);
        assert(attrs[0].name@ != a.name@);
        assert(find_attr(attrs.update(j, a), n) == if attrs[0].name@ == n {
            Some(attrs[0].value@)
        } else {
            find_attr(tail.update(j - 1, a), n)
        });
        assert(find_attr(attrs, n) == if attrs[0].name@ == n {
            Some(attrs[0].value@)
        } else {
            find_attr(tail, n)
        });
    } else {
        assert(attrs.update(j, a)[0] == a);
        assert(attrs.update(j, a).drop_first() =~= attrs.drop_first());
    }
}

/// Appending an entry with a fresh name changes only that name's value.
proof fn lemma_find_attr_push(attrs: Seq<Attr>, a: Attr, n: Seq<char>)
    requires
        forall|k: int| 0 <= k < attrs.len() ==> (#[trigger] attrs[k]).name@ != a.name@,
    ensures
        find_attr(attrs.push(a), n) == if n == a.name@ {
            Some(a.value@)
        } else {
            find_attr(attrs, n)
        },
    decreases attrs.len(),
{
    if attrs.len() > 0 {
        let tail = attrs.drop_first();
        assert(attrs.push(a).drop_first() =~= tail.push(a));
        assert forall|k: int| 0 <= k < tail.len() implies (#[trigger] tail[k]).name@ != a.name@ by {
            assert(tail[k] == attrs[k + 1]);
        }
        lemma_find_attr_push(tail, a, n);
        assert(attrs.push(a)[0] == attrs[0]);
        assert(attrs[0].name@ != a.name@);
        assert(find_attr(attrs.push(a), n) == if attrs[0].name@ == n {
            Some(attrs[0].value@)
        } else {
            find_attr(tail.push(a), n)
        });
        assert(find_attr(attrs, n) == if attrs[0].name@ == n {
            Some(attrs[0].value@)
        } else {
            find_attr(tail, n)
        });
    } else {
        assert(attrs.push(a)[0] == a);
        assert(attrs.push(a).drop_first() =~= Seq::<Attr>::empty());
        assert(find_attr(Seq::<Attr>::empty(), n) is None);
        assert(find_attr(attrs.push(a), n) == if a.name@ == n {
            Some(a.value@)
        } else {
            find_attr(attrs.push(a).drop_first(), n)
        });
    }
}

/// Removing an entry named `name` leaves every other name's value alone.
proof fn lemma_find_attr_remove(attrs: Seq<Attr>, j: int, n: Seq<char>)
    requires
        0 <= j < attrs.len(),
        n != attrs[j].name@,
    ensures
        find_attr(attrs.remove(j), n) == find_attr(attrs, n),
    decreases j,
{
    if j > 0 {
        let tail = attrs.drop_first();
        assert(attrs.remove(j).drop_first() =~= tail.remove(j - 1));
        lemma_find_attr_remove(tail, j - 1, n);
    } else {
        assert(attrs.remove(0) =~= attrs.drop_first());
    }
}

proof fn lemma_find_attr_absent(attrs: Seq<Attr>, n: Seq<char>)
    requires
        forall|k: int| 0 <= k < attrs.len() ==> (#[trigger] attrs[k]).name@ != n,
    ensures
        find_attr(attrs, n) is None,
    decreases attrs.len(),
{
    if attrs.len() > 0 {
        let tail = attrs.drop_first();
        assert forall|k: int| 0 <= k < tail.len() implies (#[trigger] tail[k]).name@ != n by {
            assert(tail[k] == attrs[k + 1]);
        }
        lemma_find_attr_absent(tail, n);
    }
}

/// `a == b` on string slices.
pub fn str_eq(a: &str, b: &str) -> (r: bool)
    ensures
        r == (a@ == b@),
{
    let sa = a.to_owned();
    let sb = b.to_owned();
    sa == sb
}

/// The position of the first attribute named `name`.
fn attr_position(attrs: &Vec<Attr>, name: &str) -> (r: Option<usize>)
    ensures
        match r {
            Some(j) => j < attrs.len() && attrs@[j as int].name@ == name@ && forall|k: int|
                0 <= k < j ==> (#[trigger] attrs@[k]).name@ != name@,
            None => forall|k: int| 0 <= k < attrs.len() ==> (#[trigger] attrs@[k]).name@ != name@,
        },
{
    let mut i: usize = 0;
    while i < attrs.len()
        invariant
            i <= attrs.len(),
            forall|k: int| 0 <= k < i ==> (#[trigger] attrs@[k]).name@ != name@,
        decreases attrs.len() - i,
    {
        if str_eq(attrs[i].name.as_str(), name) {
            return Some(i);
        }
        i = i + 1;
    }
    None
}

impl Node {
    /// The value of attribute `name` on this node.
    pub open spec fn attr(&self, name: Seq<char>) -> Option<Seq<char>> {
        find_attr(self.attrs@, name)
    }

    pub open spec fn has_attr(&self, name: Seq<char>) -> bool {
        self.attr(name) is Some
    }

    pub open spec fn is_element(&self, tag: Seq<char>) -> bool {
        self.node_type == NodeType::Element && self.tag@ == tag
    }

    /// Same node with the same children, differing at most in attributes.
    pub open spec fn same_but_attrs(&self, other: &Node) -> bool {
        &&& self.id == other.id
        &&& self.node_type == other.node_type
        &&& self.tag@ == other.tag@
        &&& self.text@ == other.text@
        &&& self.children == other.children
        &&& self.ext == other.ext
    }

    /// A new element with no attributes or children.
    pub fn element(id: NodeId, tag: &str) -> (r: Node)
        ensures
            r.id == id,
            r.node_type == NodeType::Element,
            r.tag@ == tag@,
            r.text@ == Seq::<char>::empty(),
            r.attrs@.len() == 0,
            r.children@.len() == 0,
            r.ext.is_fresh(),
    {
        Node {
            id,
            node_type: NodeType::Element,
            tag: tag.to_owned(),
            text: String::new(),
            attrs: Vec::new(),
            children: Vec::new(),
            ext: NodeExt::new(),
        }
    }

    /// A new text node.
    pub fn text_node(id: NodeId, text: &str) -> (r: Node)
        ensures
            r.id == id,
            r.node_type == NodeType::Text,
            r.tag@ == Seq::<char>::empty(),
            r.text@ == text@,
            r.attrs@.len() == 0,
            r.children@.len() == 0,
            r.ext.is_fresh(),
    {
        Node {
            id,
            node_type: NodeType::Text,
            tag: String::new(),
            text: text.to_owned(),
            attrs: Vec::new(),
            children: Vec::new(),
            ext: NodeExt::new(),
        }
    }

    /// Append `child` as the last child.
    pub fn append_child(&mut self, child: Node)
        ensures
            final(self).children@ == old(self).children@.push(child),
            final(self).id == old(self).id,
            final(self).node_type == old(self).node_type,
            final(self).tag == old(self).tag,
            final(self).text == old(self).text,
            final(self).attrs == old(self).attrs,
            final(self).ext == old(self).ext,
    {
        self.children.push(child);
    }

    /// Whether this node is an element with tag name `tag`.
    pub fn has_tag(&self, tag: &str) -> (r: bool)
        ensures
            r == self.is_element(tag@),
    {
        self.node_type == NodeType::Element && str_eq(self.tag.as_str(), tag)
    }

    /// `get_attribute`: the value of attribute `name`, if present.
    pub fn get_attribute(&self, name: &str) -> (r: Option<&String>)
        ensures
            match r {
                Some(v) => self.attr(name@) == Some(v@),
                None => self.attr(name@) is None,
            },
    {
        match attr_position(&self.attrs, name) {
            Some(j) => {
                proof {
                    let a = self.attrs@;
                    assert(a.update(j as int, a[j as int]) =~= a);
                    lemma_find_attr_update(a, j as int, a[j as int], name@);
                }
                Some(&self.attrs[j].value)
            },
            None => {
                proof {
                    lemma_find_attr_absent(self.attrs@, name@);
                }
                None
            },
        }
    }

    /// `has_attribute`: whether attribute `name` is present.
    pub fn has_attribute(&self, name: &str) -> (r: bool)
        ensures
            r == self.has_attr(name@),
    {
        self.get_attribute(name).is_some()
    }

    /// Whether attribute `name` is present with exactly the value `value`.
    pub fn attribute_is(&self, name: &str, value: &str) -> (r: bool)
        ensures
            r == (self.attr(name@) == Some(value@)),
    {
        match self.get_attribute(name) {
            Some(v) => str_eq(v.as_str(), value),
            None => false,
        }
    }

    /// The value of attribute `name`, or `""` when absent.
    pub fn attribute_or_empty(&self, name: &str) -> (r: String)
        ensures
            r@ == match self.attr(name@) {
                Some(v) => v,
                None => Seq::<char>::empty(),
            },
    {
        match self.get_attribute(name) {
            Some(v) => v.clone(),
            None => String::new(),
        }
    }

    /// `set_attribute`: attribute `name` now has value `value`; every
    /// other attribute keeps its value.
    pub fn set_attribute(&mut self, name: &str, value: &str)
        ensures
            final(self).same_but_attrs(old(self)),
            forall|n: Seq<char>|
                #![trigger final(self).attr(n)]
                final(self).attr(n) == if n == name@ {
                    Some(value@)
                } else {
                    old(self).attr(n)
                },
    {
        let a = Attr { name: name.to_owned(), value: value.to_owned() };
        match attr_position(&self.attrs, name) {
            Some(j) => {
                let ghost old_attrs = self.attrs@;
                self.attrs.set(j, a);
                proof {
                    assert forall|n: Seq<char>| #![trigger find_attr(self.attrs@, n)]
                        find_attr(self.attrs@, n) == if n == name@ {
                            Some(value@)
                        } else {
                            find_attr(old_attrs, n)
                        } by {
                        lemma_find_attr_update(old_attrs, j as int, self.attrs@[j as int], n);
                        assert(old_attrs.update(j as int, self.attrs@[j as int]) =~= self.attrs@);
                    }
                }
            },
            None => {
                let ghost old_attrs = self.attrs@;
                self.attrs.push(a);
                proof {
                    assert forall|n: Seq<char>| #![trigger find_attr(self.attrs@, n)]
                        find_attr(self.attrs@, n) == if n == name@ {
                            Some(value@)
                        } else {
                            find_attr(old_attrs, n)
                        } by {
                        lemma_find_attr_push(old_attrs, self.attrs@.last(), n);
                        assert(old_attrs.push(self.attrs@.last()) =~= self.attrs@);
                    }
                }
            },
        }
    }

    /// `remove_attribute`: attribute `name` is gone; every other
    /// attribute keeps its value.
    pub fn remove_attribute(&mut self, name: &str)
        ensures
            final(self).same_but_attrs(old(self)),
            forall|n: Seq<char>|
                #![trigger final(self).attr(n)]
                final(self).attr(n) == if n == name@ {
                    None
                } else {
                    old(self).attr(n)
                },
    {
        let ghost old_attrs = self.attrs@;
        loop
            invariant
                self.same_but_attrs(old(self)),
                old_attrs == old(self).attrs@,
                forall|n: Seq<char>|
                    n != name@ ==> #[trigger] find_attr(self.attrs@, n) == find_attr(old_attrs, n),
            ensures
                forall|k: int|
                    0 <= k < self.attrs@.len() ==> (#[trigger] self.attrs@[k]).name@ != name@,
                self.same_but_attrs(old(self)),
                forall|n: Seq<char>|
                    n != name@ ==> #[trigger] find_attr(self.attrs@, n) == find_attr(old_attrs, n),
            decreases self.attrs.len(),
        {
            match attr_position(&self.attrs, name) {
                Some(j) => {
                    let ghost before = self.attrs@;
                    self.attrs.remove(j);
                    proof {
                        assert forall|n: Seq<char>| n != name@ implies #[trigger] find_attr(
                            self.attrs@,
                            n,
                        ) == find_attr(old_attrs, n) by {
                            lemma_find_attr_remove(before, j as int, n);
                        }
                    }
                },
                None => {
                    break ;
                },
            }
        }
        proof {
            lemma_find_attr_absent(self.attrs@, name@);
        }
    }

    /// Concatenated content of this node's text-node children.
    pub fn child_text(&self) -> (r: String)
        ensures
            r@ == direct_text(self.children@),
    {
        let mut out = String::new();
        let mut i: usize = 0;
        while i < self.children.len()
            invariant
                i <= self.children.len(),
                out@ == direct_text(self.children@.take(i as int)),
            decreases self.children.len() - i,
        {
            assert(self.children@.take(i + 1).drop_last() =~= self.children@.take(i as int));
            if self.children[i].node_type == NodeType::Text {
                out.append(self.children[i].text.as_str());
            }
            i = i + 1;
        }
        assert(self.children@.take(i as int) =~= self.children@);
        out
    }

    /// Content of this node's first text-node child; empty when it has
    /// none.
    pub fn first_child_text(&self) -> (r: String)
        ensures
            r@ == first_text(self.children@),
    {
        let mut i: usize = 0;
        while i < self.children.len()
            invariant
                i <= self.children.len(),
                forall|k: int| 0 <= k < i ==> (#[trigger] self.children@[k]).node_type != NodeType::Text,
            decreases self.children.len() - i,
        {
            if self.children[i].node_type == NodeType::Text {
                proof {
                    lemma_first_text_skip(self.children@, i as int);
                    assert(self.children@.skip(i as int)[0] == self.children@[i as int]);
                }
                return self.children[i].text.clone();
            }
            i = i + 1;
        }
        proof {
            lemma_first_text_skip(self.children@, i as int);
        }
        String::new()
    }

    /// Whether any child is a text node.
    pub fn has_text_child(&self) -> (r: bool)
        ensures
            r == has_text_child(self.children@),
    {
        let mut i: usize = 0;
        while i < self.children.len()
            invariant
                i <= self.children.len(),
                forall|k: int| 0 <= k < i ==> (#[trigger] self.children@[k]).node_type != NodeType::Text,
            decreases self.children.len() - i,
        {
            if self.children[i].node_type == NodeType::Text {
                return true;
            }
            i = i + 1;
        }
        false
    }
}

/// A document: the root node, the focused element, and the id the next
/// created node gets.
pub struct Dom {
    pub root: Node,
    pub focused: Option<NodeId>,
    pub next_id: NodeId,
}

impl Dom {
    /// An empty document; the root has id 0.
    pub fn new() -> (r: Dom)
        ensures
            r.root.id == 0,
            r.root.node_type == NodeType::Document,
            r.root.children@.len() == 0,
            r.root.attrs@.len() == 0,
            r.focused is None,
            r.next_id == 1,
    {
        Dom {
            root: Node {
                id: 0,
                node_type: NodeType::Document,
                tag: String::new(),
                text: String::new(),
                attrs: Vec::new(),
                children: Vec::new(),
                ext: NodeExt::new(),
            },
            focused: None,
            next_id: 1,
        }
    }

    /// A fresh id; every id handed out is larger than the previous ones.
    pub fn fresh_id(&mut self) -> (r: NodeId)
        requires
            old(self).next_id < u64::MAX,
        ensures
            r == old(self).next_id,
            final(self).next_id == old(self).next_id + 1,
            final(self).root == old(self).root,
            final(self).focused == old(self).focused,
    {
        let id = self.next_id;
        self.next_id = self.next_id + 1;
        id
    }

    /// A new element with a fresh id, not yet in the tree.
    pub fn create_element(&mut self, tag: &str) -> (r: Node)
        requires
            old(self).next_id < u64::MAX,
        ensures
            r.id == old(self).next_id,
            r.node_type == NodeType::Element,
            r.tag@ == tag@,
            r.attrs@.len() == 0,
            r.children@.len() == 0,
            final(self).next_id == old(self).next_id + 1,
            final(self).root == old(self).root,
            final(self).focused == old(self).focused,
    {
        let id = self.fresh_id();
        Node::element(id, tag)
    }

    /// A new text node with a fresh id, not yet in the tree.
    pub fn create_text_node(&mut self, text: &str) -> (r: Node)
        requires
            old(self).next_id < u64::MAX,
        ensures
            r.id == old(self).next_id,
            r.node_type == NodeType::Text,
            r.text@ == text@,
            r.attrs@.len() == 0,
            r.children@.len() == 0,
            final(self).next_id == old(self).next_id + 1,
            final(self).root == old(self).root,
            final(self).focused == old(self).focused,
    {
        let id = self.fresh_id();
        Node::text_node(id, text)
    }
}

/// `new` is `old` with attribute `name` set to `v` (removed for `None`)
/// and nothing else changed.
pub open spec fn attr_written(old: Node, new: Node, name: Seq<char>, v: Option<Seq<char>>) -> bool {
    &&& new.same_but_attrs(&old)
    &&& forall|a: Seq<char>|
        #![trigger new.attr(a)]
        new.attr(a) == if a == name {
            v
        } else {
            old.attr(a)
        }
}

/// Concatenated content of every text node below `children`, in
/// document order.
pub open spec fn deep_text(children: Seq<Node>) -> Seq<char>
    decreases children,
{
    if children.len() == 0 {
        Seq::empty()
    } else {
        let last = children.last();
        deep_text(children.drop_last()) + if last.node_type == NodeType::Text {
            last.text@
        } else {
            deep_text(last.children@)
        }
    }
}

/// Append the text below `children` to `out`.
pub fn collect_text(children: &Vec<Node>, out: &mut String)
    ensures
        final(out)@ == old(out)@ + deep_text(children@),
    decreases children@,
{
    let ghost start = out@;
    let mut i: usize = 0;
    assert(children@.take(0) =~= Seq::<Node>::empty());
    assert(start + deep_text(Seq::<Node>::empty()) =~= start);
    while i < children.len()
        invariant
            i <= children@.len(),
            out@ == start + deep_text(children@.take(i as int)),
        decreases children@.len() - i,
    {
        assert(children@.take(i + 1).drop_last() =~= children@.take(i as int));
        assert(children@.take(i + 1).last() == children@[i as int]);
        let c = &children[i];
        if c.node_type == NodeType::Text {
            out.append(c.text.as_str());
        } else {
            collect_text(&c.children, out);
        }
        proof {
            let prev = deep_text(children@.take(i as int));
            let seg = if c.node_type == NodeType::Text {
                c.text@
            } else {
                deep_text(c.children@)
            };
            assert(deep_text(children@.take(i + 1)) == prev + seg);
            assert(start + prev + seg =~= start + (prev + seg));
        }
        i = i + 1;
    }
    assert(children@.take(i as int) =~= children@);
}

} // verus!
