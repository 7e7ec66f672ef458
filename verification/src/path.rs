//! Addressing nodes inside a tree: child-index paths from a root, the
//! search for a node by id, ancestor-or-self lookups, and reading or
//! changing the node a path leads to.

use vstd::prelude::*;
use crate::dom::{Node, NodeId};

verus! {

/// Whether every step of `path` names an existing child.
pub open spec fn path_ok(n: Node, path: Seq<usize>) -> bool
    decreases path.len(),
{
    path.len() == 0 || (path[0] < n.children@.len() && path_ok(n.children@[path[0] as int], path.drop_first()))
}

/// The node `path` leads to from `n`.
pub open spec fn at(n: Node, path: Seq<usize>) -> Node
    decreases path.len(),
{
    if path.len() > 0 && path[0] < n.children@.len() {
        at(n.children@[path[0] as int], path.drop_first())
    } else {
        n
    }
}

/// `new` is `old` with the node at `path` replaced by `sub`; every node
/// along the path keeps everything but the one child on the path.
pub open spec fn replaced_at(old: Node, new: Node, path: Seq<usize>, sub: Node) -> bool
    decreases path.len(),
{
    if path.len() == 0 {
        new == sub
    } else {
        let i = path[0] as int;
        &&& new.id == old.id
        &&& new.node_type == old.node_type
        &&& new.tag == old.tag
        &&& new.text == old.text
        &&& new.attrs == old.attrs
        &&& new.ext == old.ext
        &&& new.children@.len() == old.children@.len()
        &&& 0 <= i < old.children@.len()
        &&& forall|j: int| 0 <= j < old.children@.len() && j != i ==> #[trigger] new.children@[j] == old.children@[j]
        &&& replaced_at(old.children@[i], new.children@[i], path.drop_first(), sub)
    }
}

/// Whether a node with id `id` is in the subtree of `n`.
pub open spec fn contains_id(n: Node, id: NodeId) -> bool
    decreases n,
{
    n.id == id || exists|i: int| 0 <= i < n.children@.len() && contains_id(#[trigger] n.children@[i], id)
}

/// The node a path leads to is in the tree.
pub proof fn lemma_at_contained(n: Node, path: Seq<usize>)
    requires
        path_ok(n, path),
    ensures
        contains_id(n, at(n, path).id),
    decreases path.len(),
{
    if path.len() > 0 {
        let c = n.children@[path[0] as int];
        lemma_at_contained(c, path.drop_first());
        assert(contains_id(c, at(n, path).id));
    }
}

/// The node at `path`.
pub fn node_at<'a>(n: &'a Node, path: &Vec<usize>) -> (r: &'a Node)
    requires
        path_ok(*n, path@),
    ensures
        *r == at(*n, path@),
{
    let mut cur = n;
    let mut d: usize = 0;
    assert(path@.skip(0) =~= path@);
    while d < path.len()
        invariant
            d <= path@.len(),
            path_ok(*cur, path@.skip(d as int)),
            at(*n, path@) == at(*cur, path@.skip(d as int)),
        decreases path.len() - d,
    {
        let ghost rest = path@.skip(d as int);
        assert(rest.drop_first() =~= path@.skip(d + 1));
        cur = &cur.children[path[d]];
        d = d + 1;
    }
    assert(path@.skip(d as int).len() == 0);
    cur
}

/// Mutable access to the node at `path[d..]` below `n`.
pub fn node_at_mut<'a>(n: &'a mut Node, path: &Vec<usize>, d: usize) -> (r: &'a mut Node)
    requires
        d <= path@.len(),
        path_ok(*old(n), path@.skip(d as int)),
    ensures
        *r == at(*old(n), path@.skip(d as int)),
        replaced_at(*old(n), *final(n), path@.skip(d as int), *final(r)),
    decreases path@.len() - d,
{
    if d == path.len() {
        assert(path@.skip(d as int).len() == 0);
        n
    } else {
        let ghost rest = path@.skip(d as int);
        assert(rest.drop_first() =~= path@.skip(d + 1));
        let i = path[d];
        let c = &mut n.children[i];
        node_at_mut(c, path, d + 1)
    }
}

/// The first child of `children` whose subtree holds id `id`.
pub open spec fn first_holder(children: Seq<Node>, id: NodeId) -> int {
    choose|j: int|
        0 <= j < children.len() && contains_id(#[trigger] children[j], id) && forall|k: int|
            0 <= k < j ==> !contains_id(#[trigger] children[k], id)
}

/// The path to the first node (pre-order) with id `id` in the subtree
/// of `n`.
pub open spec fn first_path(n: Node, id: NodeId) -> Option<Seq<usize>>
    decreases n,
{
    if n.id == id {
        Some(Seq::empty())
    } else if exists|j: int| 0 <= j < n.children@.len() && contains_id(#[trigger] n.children@[j], id) {
        let j = first_holder(n.children@, id);
        if 0 <= j < n.children@.len() {
            match first_path(n.children@[j], id) {
                Some(p) => Some(seq![j as usize] + p),
                None => None,
            }
        } else {
            None
        }
    } else {
        None
    }
}

/// The first node (pre-order) with id `id` in the subtree of `n`.
pub open spec fn node_of(n: Node, id: NodeId) -> Option<Node> {
    match first_path(n, id) {
        Some(p) => Some(at(n, p)),
        None => None,
    }
}

/// `find_path`: the path to the first node (pre-order) with id `id`.
pub fn find_path(n: &Node, id: NodeId) -> (r: Option<Vec<usize>>)
    ensures
        match r {
            Some(p) => path_ok(*n, p@) && at(*n, p@).id == id && first_path(*n, id) == Some(p@),
            None => !contains_id(*n, id) && first_path(*n, id) is None,
        },
    decreases n,
{
    if n.id == id {
        return Some(Vec::new());
    }
    let mut i: usize = 0;
    while i < n.children.len()
        invariant
            i <= n.children@.len(),
            n.id != id,
            forall|j: int| 0 <= j < i ==> !contains_id(#[trigger] n.children@[j], id),
        decreases n.children@.len() - i,
    {
        assert(decreases_to!(n => n.children@[i as int]));
        match find_path(&n.children[i], id) {
            Some(p) => {
                let mut full: Vec<usize> = Vec::new();
                full.push(i);
                let mut k: usize = 0;
                while k < p.len()
                    invariant
                        k <= p@.len(),
                        full@ =~= seq![i].add(p@.take(k as int)),
                    decreases p.len() - k,
                {
                    full.push(p[k]);
                    k = k + 1;
                }
                assert(full@ =~= seq![i].add(p@));
                assert(full@.drop_first() =~= p@);
                proof {
                    lemma_at_contained(n.children@[i as int], p@);
                    let j = first_holder(n.children@, id);
                    assert(contains_id(n.children@[i as int], id));
                    assert(0 <= j < n.children@.len() && contains_id(n.children@[j], id) && forall|k: int|
                        0 <= k < j ==> !contains_id(#[trigger] n.children@[k], id));
                    if j < i {
                    } else if j > i {
                        assert(!contains_id(n.children@[i as int], id));
                    }
                    assert(j == i);
                }
                return Some(full);
            },
            None => {},
        }
        i = i + 1;
    }
    None
}

/// The prefix `path[..k]` leads to an ancestor-or-self of the node at `path`.
pub open spec fn ancestor(n: Node, path: Seq<usize>, k: int) -> Node {
    at(n, path.take(k))
}

/// Length of the longest prefix of `path` (the deepest ancestor-or-self
/// of its node) whose node is a `tag` element.
pub open spec fn is_closest_tag(n: Node, path: Seq<usize>, tag: Seq<char>, k: int) -> bool {
    &&& 0 <= k <= path.len()
    &&& ancestor(n, path, k).is_element(tag)
    &&& forall|j: int| k < j <= path.len() ==> !(#[trigger] ancestor(n, path, j)).is_element(tag)
}

pub open spec fn no_tag_on_path(n: Node, path: Seq<usize>, tag: Seq<char>) -> bool {
    forall|j: int| 0 <= j <= path.len() ==> !(#[trigger] ancestor(n, path, j)).is_element(tag)
}

pub proof fn lemma_path_ok_prefix(n: Node, path: Seq<usize>, k: int)
    requires
        path_ok(n, path),
        0 <= k <= path.len(),
    ensures
        path_ok(n, path.take(k)),
    decreases path.len(),
{
    if k > 0 {
        lemma_path_ok_prefix(n.children@[path[0] as int], path.drop_first(), k - 1);
        assert(path.take(k).drop_first() =~= path.drop_first().take(k - 1));
    } else {
        assert(path.take(k).len() == 0);
    }
}

/// The prefix of `path` of length `k`, as a vector.
pub fn prefix(path: &Vec<usize>, k: usize) -> (r: Vec<usize>)
    requires
        k <= path@.len(),
    ensures
        r@ == path@.take(k as int),
{
    let mut out: Vec<usize> = Vec::new();
    let mut i: usize = 0;
    while i < k
        invariant
            i <= k <= path@.len(),
            out@ =~= path@.take(i as int),
        decreases k - i,
    {
        out.push(path[i]);
        i = i + 1;
    }
    out
}

/// The deepest ancestor-or-self of the node at `path` that is a `tag`
/// element, as the length of its path.
pub fn closest_tag(n: &Node, path: &Vec<usize>, tag: &str) -> (r: Option<usize>)
    requires
        path_ok(*n, path@),
    ensures
        match r {
            Some(k) => is_closest_tag(*n, path@, tag@, k as int),
            None => no_tag_on_path(*n, path@, tag@),
        },
{
    let mut k: usize = path.len();
    loop
        invariant
            k <= path@.len(),
            path_ok(*n, path@),
            forall|j: int| k < j <= path@.len() ==> !(#[trigger] ancestor(*n, path@, j)).is_element(tag@),
        decreases k,
    {
        let pre = prefix(path, k);
        proof {
            lemma_path_ok_prefix(*n, path@, k as int);
        }
        if node_at(n, &pre).has_tag(tag) {
            return Some(k);
        }
        if k == 0 {
            return None;
        }
        k = k - 1;
    }
}

/// `new` is `old` with the node of id `id` replaced by `f` of it, when
/// `old` holds such a node; otherwise `new` is `old`.
pub open spec fn updated_at_id(old: Node, new: Node, id: NodeId, f: spec_fn(Node) -> Node) -> bool {
    match first_path(old, id) {
        Some(p) => replaced_at(old, new, p, f(at(old, p))),
        None => new == old,
    }
}

/// The first node (pre-order) with id `id` in the subtree of `n`.
pub fn node_by_id(n: &Node, id: NodeId) -> (r: Option<&Node>)
    ensures
        match r {
            Some(m) => m.id == id && contains_id(*n, id) && first_path(*n, id) is Some && *m == at(
                *n,
                first_path(*n, id)->0,
            ),
            None => !contains_id(*n, id) && first_path(*n, id) is None,
        },
{
    match find_path(n, id) {
        Some(p) => {
            proof {
                lemma_at_contained(*n, p@);
            }
            Some(node_at(n, &p))
        },
        None => None,
    }
}

/// Mutable access to the first node (pre-order) with id `id` in the
/// subtree of `n`.
pub fn node_by_id_mut(n: &mut Node, id: NodeId) -> (r: Option<&mut Node>)
    ensures
        match r {
            Some(m) => {
                &&& m.id == id
                &&& contains_id(*old(n), id)
                &&& first_path(*old(n), id) is Some
                &&& path_ok(*old(n), first_path(*old(n), id)->0)
                &&& *m == at(*old(n), first_path(*old(n), id)->0)
                &&& replaced_at(*old(n), *final(n), first_path(*old(n), id)->0, *final(m))
            },
            None => !contains_id(*old(n), id) && first_path(*old(n), id) is None && *final(n) == *old(n),
        },
{
    match find_path(n, id) {
        Some(p) => {
            assert(p@.skip(0) =~= p@);
            proof {
                lemma_at_contained(*n, p@);
            }
            Some(node_at_mut(n, &p, 0))
        },
        None => None,
    }
}

/// `a` and `b` have the same ids in the same places.
pub open spec fn same_shape(a: Node, b: Node) -> bool
    decreases a,
{
    &&& a.id == b.id
    &&& a.children@.len() == b.children@.len()
    &&& forall|j: int| 0 <= j < a.children@.len() ==> same_shape(a.children@[j], #[trigger] b.children@[j])
}

pub proof fn lemma_same_shape_refl(a: Node)
    ensures
        same_shape(a, a),
    decreases a,
{
    assert forall|j: int| 0 <= j < a.children@.len() implies same_shape(a.children@[j], #[trigger] a.children@[j]) by {
        lemma_same_shape_refl(a.children@[j]);
    }
}

pub proof fn lemma_same_shape_contains(a: Node, b: Node, id: NodeId)
    requires
        same_shape(a, b),
    ensures
        contains_id(a, id) == contains_id(b, id),
    decreases a,
{
    assert forall|j: int| 0 <= j < a.children@.len() implies contains_id(#[trigger] a.children@[j], id) == contains_id(
        b.children@[j],
        id,
    ) by {
        lemma_same_shape_contains(a.children@[j], b.children@[j], id);
    }
    if contains_id(a, id) && a.id != id {
        let j = choose|j: int| 0 <= j < a.children@.len() && contains_id(#[trigger] a.children@[j], id);
        assert(contains_id(b.children@[j], id));
    }
    if contains_id(b, id) && b.id != id {
        let j = choose|j: int| 0 <= j < b.children@.len() && contains_id(#[trigger] b.children@[j], id);
        assert(contains_id(a.children@[j], id));
    }
}

/// Trees with the same ids in the same places have the same first path
/// to every id.
pub proof fn lemma_same_shape_first_path(a: Node, b: Node, id: NodeId)
    requires
        same_shape(a, b),
    ensures
        first_path(a, id) == first_path(b, id),
    decreases a,
{
    if a.id != id {
        assert forall|j: int| 0 <= j < a.children@.len() implies contains_id(#[trigger] a.children@[j], id)
            == contains_id(b.children@[j], id) by {
            lemma_same_shape_contains(a.children@[j], b.children@[j], id);
        }
        let ea = exists|j: int| 0 <= j < a.children@.len() && contains_id(#[trigger] a.children@[j], id);
        let eb = exists|j: int| 0 <= j < b.children@.len() && contains_id(#[trigger] b.children@[j], id);
        if ea {
            let w = choose|j: int| 0 <= j < a.children@.len() && contains_id(#[trigger] a.children@[j], id);
            assert(contains_id(b.children@[w], id));
            let ja = first_holder(a.children@, id);
            let jb = first_holder(b.children@, id);
            lemma_first_holder_exists(a.children@, id, w);
            lemma_first_holder_exists(b.children@, id, w);
            assert(contains_id(b.children@[ja], id));
            assert(contains_id(a.children@[jb], id));
            if ja < jb {
                assert(!contains_id(b.children@[ja], id));
            }
            if jb < ja {
                assert(!contains_id(a.children@[jb], id));
            }
            assert(ja == jb);
            lemma_same_shape_first_path(a.children@[ja], b.children@[ja], id);
        } else {
            assert(!eb) by {
                if eb {
                    let w = choose|j: int| 0 <= j < b.children@.len() && contains_id(#[trigger] b.children@[j], id);
                    assert(contains_id(a.children@[w], id));
                }
            }
        }
    }
}

/// Some child holds `id`, so the first one that does is well defined.
proof fn lemma_first_holder_exists(children: Seq<Node>, id: NodeId, w: int)
    requires
        0 <= w < children.len(),
        contains_id(children[w], id),
    ensures
        ({
            let j = first_holder(children, id);
            &&& 0 <= j < children.len()
            &&& contains_id(children[j], id)
            &&& forall|k: int| 0 <= k < j ==> !contains_id(#[trigger] children[k], id)
        }),
    decreases w,
{
    let good = |j: int|
        0 <= j < children.len() && contains_id(children[j], id) && forall|k: int|
            0 <= k < j ==> !contains_id(#[trigger] children[k], id);
    if forall|k: int| 0 <= k < w ==> !contains_id(#[trigger] children[k], id) {
        assert(good(w));
    } else {
        let k = choose|k: int| 0 <= k < w && contains_id(#[trigger] children[k], id);
        lemma_first_holder_exists(children, id, k);
    }
}

/// Replacing the node at a path by one with the same shape keeps the
/// tree's shape.
pub proof fn lemma_replaced_same_shape(old: Node, new: Node, p: Seq<usize>, sub: Node)
    requires
        path_ok(old, p),
        replaced_at(old, new, p, sub),
        same_shape(at(old, p), sub),
    ensures
        same_shape(old, new),
        path_ok(new, p),
        at(new, p) == sub,
    decreases p.len(),
{
    if p.len() > 0 {
        let i = p[0] as int;
        lemma_replaced_same_shape(old.children@[i], new.children@[i], p.drop_first(), sub);
        assert forall|j: int| 0 <= j < old.children@.len() implies same_shape(
            old.children@[j],
            #[trigger] new.children@[j],
        ) by {
            if j != i {
                lemma_same_shape_refl(old.children@[j]);
            }
        }
    }
}

/// The nodes of the subtree of `n` that `pred` accepts, in tree order.
pub open spec fn nodes_where(n: Node, pred: spec_fn(Node) -> bool) -> Seq<Node>
    decreases n, 1int,
{
    (if pred(n) {
        seq![n]
    } else {
        Seq::empty()
    }) + child_nodes_where(n, pred).flatten()
}

pub open spec fn child_nodes_where(n: Node, pred: spec_fn(Node) -> bool) -> Seq<Seq<Node>>
    decreases n, 0int,
{
    Seq::new(
        n.children@.len(),
        |j: int|
            if 0 <= j < n.children@.len() {
                nodes_where(n.children@[j], pred)
            } else {
                Seq::empty()
            },
    )
}

/// The ids of `ns`.
pub open spec fn ids_of(ns: Seq<Node>) -> Seq<NodeId> {
    ns.map_values(|x: Node| x.id)
}

/// After a replacement at `p`, the node at `p` is the replacement.
pub proof fn lemma_replaced_at(old: Node, new: Node, p: Seq<usize>, sub: Node)
    requires
        path_ok(old, p),
        replaced_at(old, new, p, sub),
    ensures
        path_ok(new, p),
        at(new, p) == sub,
    decreases p.len(),
{
    if p.len() > 0 {
        let i = p[0] as int;
        lemma_replaced_at(old.children@[i], new.children@[i], p.drop_first(), sub);
    }
}

/// No two nodes of the tree of `n` share an id.
pub open spec fn ids_unique(n: Node) -> bool {
    forall|q1: Seq<usize>, q2: Seq<usize>|
        #![trigger at(n, q1), at(n, q2)]
        path_ok(n, q1) && path_ok(n, q2) && at(n, q1).id == at(n, q2).id ==> q1 == q2
}

/// The path `first_path` finds leads to a node with that id, and it
/// finds one whenever the tree holds the id.
pub proof fn lemma_first_path_at(n: Node, id: NodeId)
    ensures
        first_path(n, id) matches Some(p) ==> path_ok(n, p) && at(n, p).id == id,
        contains_id(n, id) ==> first_path(n, id) is Some,
    decreases n,
{
    if n.id != id {
        if exists|j: int| 0 <= j < n.children@.len() && contains_id(#[trigger] n.children@[j], id) {
            let w = choose|j: int| 0 <= j < n.children@.len() && contains_id(#[trigger] n.children@[j], id);
            lemma_first_holder_exists(n.children@, id, w);
            let j = first_holder(n.children@, id);
            lemma_first_path_at(n.children@[j], id);
            match first_path(n.children@[j], id) {
                Some(p) => {
                    let s = seq![j as usize] + p;
                    assert(s.drop_first() =~= p);
                    assert(n.children@.len() == n.children.len());
                    assert(s[0] as int == j);
                    assert(path_ok(n, s));
                    assert(at(n, s) == at(n.children@[j], p));
                },
                None => {},
            }
        }
    }
}

/// In a tree with distinct ids, the node with a given id is the one
/// `first_path` leads to.
pub proof fn lemma_unique_first_path(n: Node, q: Seq<usize>)
    requires
        ids_unique(n),
        path_ok(n, q),
    ensures
        first_path(n, at(n, q).id) == Some(q),
{
    lemma_at_contained(n, q);
    lemma_first_path_at(n, at(n, q).id);
    let p = first_path(n, at(n, q).id)->0;
    assert(at(n, p).id == at(n, q).id);
}

/// Replacing the node at `q` by one that differs from it at most in its
/// attributes keeps every path, every id, tag and node type, and the
/// attributes of every other node.
pub proof fn lemma_replaced_attrs(old: Node, new: Node, q: Seq<usize>, sub: Node, r: Seq<usize>)
    requires
        path_ok(old, q),
        replaced_at(old, new, q, sub),
        sub.same_but_attrs(&at(old, q)),
    ensures
        path_ok(new, r) == path_ok(old, r),
        path_ok(old, r) ==> at(new, r).id == at(old, r).id,
        path_ok(old, r) ==> at(new, r).node_type == at(old, r).node_type && at(new, r).tag@ == at(old, r).tag@,
        path_ok(old, r) && r != q ==> at(new, r).attrs == at(old, r).attrs,
        r == q ==> at(new, r) == sub,
    decreases r.len(),
{
    if q.len() == 0 {
        assert(at(old, q) == old);
        if r.len() == 0 {
            assert(r =~= q);
        } else {
            assert(new.children == old.children);
            if r[0] < old.children@.len() {
                assert(at(new, r) == at(new.children@[r[0] as int], r.drop_first()));
                assert(at(old, r) == at(old.children@[r[0] as int], r.drop_first()));
            }
        }
    } else {
        let i = q[0] as int;
        if r.len() > 0 && r[0] as int == i {
            lemma_replaced_attrs(old.children@[i], new.children@[i], q.drop_first(), sub, r.drop_first());
            if i < old.children@.len() {
                assert(at(new, r) == at(new.children@[i], r.drop_first()));
                assert(at(old, r) == at(old.children@[i], r.drop_first()));
            }
            if r.drop_first() == q.drop_first() {
                assert(r =~= seq![r[0]] + r.drop_first());
                assert(q =~= seq![q[0]] + q.drop_first());
            }
        } else if r.len() > 0 && r[0] < old.children@.len() {
            assert(new.children@[r[0] as int] == old.children@[r[0] as int]);
            assert(at(new, r) == at(new.children@[r[0] as int], r.drop_first()));
            assert(at(old, r) == at(old.children@[r[0] as int], r.drop_first()));
        } else if r.len() == 0 {
            assert(at(new, r) == new);
            assert(at(old, r) == old);
            assert(new.attrs == old.attrs);
        }
    }
}

/// `new` is `old` with the node of id `id` changed as `rel` relates the
/// node before and after; no other node changes. Without such a node,
/// `new` is `old`.
pub open spec fn changed_at_id(old: Node, new: Node, id: NodeId, rel: spec_fn(Node, Node) -> bool) -> bool {
    match first_path(old, id) {
        Some(p) => path_ok(new, p) && replaced_at(old, new, p, at(new, p)) && rel(at(old, p), at(new, p)),
        None => new == old,
    }
}

} // verus!
