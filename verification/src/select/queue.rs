//! Keeping selects consistent after the application edits them: a
//! mutation that adds or removes options queues the selectedness
//! algorithm for their select, and an option gaining `selected` queues
//! an exclusive pick. The flush does the queued work in record order
//! (consecutive repeats once), applying only each select's latest pick,
//! on selects still in the document.

use vstd::prelude::*;
use crate::dom::{Dom, Node, NodeId};
use crate::path::{
    ancestor, changed_at_id, closest_tag, contains_id, find_path, first_path, is_closest_tag, lemma_path_ok_prefix, lemma_replaced_at, node_at, node_by_id, node_by_id_mut, node_of, prefix,
};
use crate::select::selectedness::{made_exclusive, make_exclusive, ran, run};

verus! {

/// Work the observer queued.
#[derive(Clone, Copy, Debug, PartialEq, Eq, Structural)]
pub enum Queued {
    /// The select's list of options changed: run the algorithm.
    OptionsChanged(NodeId),
    /// `option` of `select` gained `selected`: in a single-select it
    /// becomes the only selected option.
    Picked { select: NodeId, option: NodeId },
}

/// A change the document reports.
pub enum Mutation {
    /// Children of `parent` were added or removed; `changed_tags` are
    /// the tag names of those nodes.
    ChildListChanged { parent: NodeId, changed_tags: Vec<String> },
    /// Attribute `name` of node `id` went from `old` to `new`.
    AttributeChanged { id: NodeId, name: String, old: Option<String>, new: Option<String> },
}

/// The nearest `<select>` ancestor-or-self of the node `id`.
pub open spec fn enclosing_select_spec(root: Node, id: NodeId) -> Option<NodeId> {
    match first_path(root, id) {
        Some(p) => if exists|k: int| is_closest_tag(root, p, "select"@, k) {
            Some(ancestor(root, p, choose|k: int| is_closest_tag(root, p, "select"@, k)).id)
        } else {
            None
        },
        None => None,
    }
}

proof fn lemma_closest_unique(root: Node, p: Seq<usize>, tag: Seq<char>, k: int, m: int)
    requires
        is_closest_tag(root, p, tag, k),
        is_closest_tag(root, p, tag, m),
    ensures
        k == m,
{
}

/// The nearest `<select>` ancestor-or-self of the node `id`.
pub fn enclosing_select(root: &Node, id: NodeId) -> (r: Option<NodeId>)
    ensures
        r == enclosing_select_spec(*root, id),
{
    let path = match find_path(root, id) {
        Some(p) => p,
        None => return None,
    };
    match closest_tag(root, &path, "select") {
        Some(k) => {
            let pre = prefix(&path, k);
            proof {
                lemma_path_ok_prefix(*root, path@, k as int);
                let c = choose|m: int| is_closest_tag(*root, path@, "select"@, m);
                lemma_closest_unique(*root, path@, "select"@, k as int, c);
            }
            Some(node_at(root, &pre).id)
        },
        None => {
            proof {
                if exists|k: int| is_closest_tag(*root, path@, "select"@, k) {
                    let k = choose|k: int| is_closest_tag(*root, path@, "select"@, k);
                    assert(ancestor(*root, path@, k).is_element("select"@));
                }
            }
            None
        },
    }
}

/// Whether `tags` names an `<option>` or `<optgroup>`.
pub open spec fn touches_options(tags: Seq<String>) -> bool {
    exists|i: int| 0 <= i < tags.len() && (tags[i]@ == "option"@ || tags[i]@ == "optgroup"@)
}

/// The work a mutation queues: none while the flush writes; for a
/// child-list change touching options or optgroups, the algorithm on
/// the select enclosing the parent; for an `<option>` gaining
/// `selected`, an exclusive pick in its select.
pub open spec fn observe_spec(root: Node, record: Mutation, flushing: bool) -> Option<Queued> {
    if flushing {
        None
    } else {
        match record {
            Mutation::ChildListChanged { parent, changed_tags } => if touches_options(changed_tags@) {
                match enclosing_select_spec(root, parent) {
                    Some(s) => Some(Queued::OptionsChanged(s)),
                    None => None,
                }
            } else {
                None
            },
            Mutation::AttributeChanged { id, name, old, new } => if name@ == "selected"@ && old is None && new is Some
                && match node_of(root, id) {
                Some(n) => n.is_element("option"@),
                None => false,
            } {
                match enclosing_select_spec(root, id) {
                    Some(s) => Some(Queued::Picked { select: s, option: id }),
                    None => None,
                }
            } else {
                None
            },
        }
    }
}

/// The work `record` queues.
pub fn observe(root: &Node, record: &Mutation, flushing: bool) -> (r: Option<Queued>)
    ensures
        r == observe_spec(*root, *record, flushing),
{
    if flushing {
        return None;
    }
    match record {
        Mutation::ChildListChanged { parent, changed_tags } => {
            let mut touches = false;
            let mut i: usize = 0;
            while i < changed_tags.len()
                invariant
                    i <= changed_tags@.len(),
                    touches == exists|j: int|
                        0 <= j < i && (changed_tags@[j]@ == "option"@ || changed_tags@[j]@ == "optgroup"@),
                decreases changed_tags.len() - i,
            {
                let t = changed_tags[i].as_str();
                if crate::dom::str_eq(t, "option") || crate::dom::str_eq(t, "optgroup") {
                    touches = true;
                }
                i = i + 1;
            }
            if !touches {
                return None;
            }
            match enclosing_select(root, *parent) {
                Some(s) => Some(Queued::OptionsChanged(s)),
                None => None,
            }
        },
        Mutation::AttributeChanged { id, name, old, new } => {
            if !crate::dom::str_eq(name.as_str(), "selected") || old.is_some() || new.is_none() {
                return None;
            }
            let is_option = match node_by_id(root, *id) {
                Some(n) => n.has_tag("option"),
                None => false,
            };
            if !is_option {
                return None;
            }
            match enclosing_select(root, *id) {
                Some(s) => Some(Queued::Picked { select: s, option: *id }),
                None => None,
            }
        },
    }
}

/// `q` with every run of equal consecutive items kept once.
pub open spec fn dedup_spec(q: Seq<Queued>) -> Seq<Queued>
    decreases q.len(),
{
    if q.len() == 0 {
        q
    } else if q.len() >= 2 && q[q.len() - 1] == q[q.len() - 2] {
        dedup_spec(q.drop_last())
    } else {
        dedup_spec(q.drop_last()).push(q.last())
    }
}

/// The select a pick is for.
pub open spec fn pick_select(x: Queued) -> Option<NodeId> {
    match x {
        Queued::Picked { select, option: _ } => Some(select),
        Queued::OptionsChanged(_) => None,
    }
}

/// Whether item `i` of `d` is done: every algorithm run is; a pick only
/// when no later pick is for the same select.
pub open spec fn kept(d: Seq<Queued>, i: int) -> bool {
    match d[i] {
        Queued::OptionsChanged(_) => true,
        Queued::Picked { select, option: _ } => forall|j: int| i < j < d.len() ==> pick_select(#[trigger] d[j]) != Some(select),
    }
}

/// The kept items of `d` from `i` on, in order.
pub open spec fn kept_from(d: Seq<Queued>, i: int) -> Seq<Queued>
    decreases d.len() - i,
{
    if i < 0 || i >= d.len() {
        Seq::empty()
    } else {
        (if kept(d, i) {
            seq![d[i]]
        } else {
            Seq::empty()
        }) + kept_from(d, i + 1)
    }
}

/// The work a flush does for `queued`, in order.
pub open spec fn flush_plan_spec(queued: Seq<Queued>) -> Seq<Queued> {
    kept_from(dedup_spec(queued), 0)
}

/// The index in `d` of item `m` of `kept_from(d, i)`.
pub open spec fn origin(d: Seq<Queued>, i: int, m: int) -> int
    decreases d.len() - i,
{
    if i < 0 || i >= d.len() {
        0
    } else if kept(d, i) {
        if m == 0 {
            i
        } else {
            origin(d, i + 1, m - 1)
        }
    } else {
        origin(d, i + 1, m)
    }
}

proof fn lemma_origin(d: Seq<Queued>, i: int, m: int)
    requires
        0 <= i,
        0 <= m < kept_from(d, i).len(),
    ensures
        i <= origin(d, i, m) < d.len(),
        kept(d, origin(d, i, m)),
        kept_from(d, i)[m] == d[origin(d, i, m)],
    decreases d.len() - i,
{
    if i < d.len() {
        let head = if kept(d, i) {
            seq![d[i]]
        } else {
            Seq::<Queued>::empty()
        };
        let rest = kept_from(d, i + 1);
        assert(kept_from(d, i) == head + rest);
        if kept(d, i) && m == 0 {
            assert(kept_from(d, i)[m] == d[i]);
        } else {
            let mm = m - head.len();
            assert(kept_from(d, i)[m] == rest[mm]);
            lemma_origin(d, i + 1, mm);
        }
    }
}

proof fn lemma_kept_from_one_pick(d: Seq<Queued>, i: int, a: int, b: int)
    requires
        0 <= i,
        0 <= a < b < kept_from(d, i).len(),
        pick_select(kept_from(d, i)[a]) is Some,
    ensures
        pick_select(kept_from(d, i)[b]) != pick_select(kept_from(d, i)[a]),
    decreases d.len() - i,
{
    if i < d.len() {
        let head = if kept(d, i) {
            seq![d[i]]
        } else {
            Seq::<Queued>::empty()
        };
        let rest = kept_from(d, i + 1);
        assert(kept_from(d, i) == head + rest);
        if a < head.len() {
            assert(kept_from(d, i)[a] == d[i]);
            let bb = b - head.len();
            assert(kept_from(d, i)[b] == rest[bb]);
            lemma_origin(d, i + 1, bb);
            let k = origin(d, i + 1, bb);
            match d[i] {
                Queued::Picked { select, option: _ } => {
                    assert(kept(d, i));
                    assert(i < k < d.len());
                    assert(pick_select(d[k]) != Some(select));
                },
                Queued::OptionsChanged(_) => {},
            }
        } else {
            assert(kept_from(d, i)[a] == rest[a - head.len()]);
            assert(kept_from(d, i)[b] == rest[b - head.len()]);
            lemma_kept_from_one_pick(d, i + 1, a - head.len(), b - head.len());
        }
    }
}

/// A flush applies at most one pick per select: of the picks queued
/// for one select, only the latest is done.
pub proof fn law_one_pick_per_select(queued: Seq<Queued>)
    ensures
        forall|a: int, b: int|
            0 <= a < b < flush_plan_spec(queued).len() && pick_select(#[trigger] flush_plan_spec(queued)[a]) is Some
                ==> pick_select(#[trigger] flush_plan_spec(queued)[b]) != pick_select(flush_plan_spec(queued)[a]),
{
    let p = flush_plan_spec(queued);
    assert forall|a: int, b: int|
        0 <= a < b < p.len() && pick_select(#[trigger] p[a]) is Some implies pick_select(#[trigger] p[b]) != pick_select(
            p[a],
        ) by {
        lemma_kept_from_one_pick(dedup_spec(queued), 0, a, b);
    }
}

fn dedup(q: &Vec<Queued>) -> (r: Vec<Queued>)
    ensures
        r@ == dedup_spec(q@),
{
    let mut out: Vec<Queued> = Vec::new();
    let mut i: usize = 0;
    while i < q.len()
        invariant
            i <= q@.len(),
            out@ == dedup_spec(q@.take(i as int)),
            i > 0 ==> out@.len() > 0 && out@.last() == q@[i - 1],
        decreases q.len() - i,
    {
        let ghost t = q@.take(i + 1);
        assert(t.drop_last() =~= q@.take(i as int));
        if i > 0 && q[i] == q[i - 1] {
            assert(t[t.len() - 1] == t[t.len() - 2]);
        } else {
            out.push(q[i]);
        }
        i = i + 1;
    }
    assert(q@.take(i as int) =~= q@);
    out
}

/// The work a flush does for `queued`: the items in record order with
/// consecutive repeats once, each select's picks but its latest one
/// dropped.
pub fn flush_plan(queued: &Vec<Queued>) -> (r: Vec<Queued>)
    ensures
        r@ == flush_plan_spec(queued@),
{
    let d = dedup(queued);
    let mut out: Vec<Queued> = Vec::new();
    let mut i: usize = d.len();
    assert(kept_from(d@, d@.len() as int) =~= Seq::<Queued>::empty());
    while i > 0
        invariant
            i <= d@.len(),
            out@ == kept_from(d@, i as int),
        decreases i,
    {
        i = i - 1;
        let keep = match d[i] {
            Queued::OptionsChanged(_) => true,
            Queued::Picked { select, option: _ } => {
                let mut later = false;
                let mut j: usize = i + 1;
                while j < d.len()
                    invariant
                        i < j <= d@.len(),
                        later == exists|k: int| i < k < j && pick_select(#[trigger] d@[k]) == Some(select),
                    decreases d.len() - j,
                {
                    match d[j] {
                        Queued::Picked { select: s2, option: _ } => if s2 == select {
                            later = true;
                        },
                        Queued::OptionsChanged(_) => {},
                    }
                    j = j + 1;
                }
                !later
            },
        };
        let mut next: Vec<Queued> = Vec::new();
        if keep {
            next.push(d[i]);
        }
        let mut k: usize = 0;
        while k < out.len()
            invariant
                k <= out@.len(),
                next@ == (if keep {
                    seq![d@[i as int]]
                } else {
                    Seq::<Queued>::empty()
                }) + out@.take(k as int),
            decreases out.len() - k,
        {
            next.push(out[k]);
            assert(out@.take(k + 1) =~= out@.take(k as int).push(out@[k as int]));
            k = k + 1;
        }
        assert(out@.take(k as int) =~= out@);
        out = next;
    }
    out
}

/// The document `new` after doing the queued item `x` on `old`: the
/// algorithm on a select still there; a pick on a select still there
/// with its option still in the document; nothing else.
pub open spec fn queued_done(old: Node, new: Node, x: Queued) -> bool {
    match x {
        Queued::OptionsChanged(s) => match node_of(old, s) {
            Some(sn) => if sn.is_element("select"@) {
                changed_at_id(old, new, s, |o: Node, n: Node| ran(o, n))
            } else {
                new == old
            },
            None => new == old,
        },
        Queued::Picked { select, option } => match node_of(old, select) {
            Some(sn) => if sn.is_element("select"@) && contains_id(old, option) {
                changed_at_id(old, new, select, |o: Node, n: Node| made_exclusive(o, n, option))
            } else {
                new == old
            },
            None => new == old,
        },
    }
}

fn do_queued(root: &mut Node, x: Queued)
    ensures
        queued_done(*old(root), *final(root), x),
{
    match x {
        Queued::OptionsChanged(s) => {
            let is_select = match node_by_id(root, s) {
                Some(n) => n.has_tag("select"),
                None => false,
            };
            if !is_select {
                return ;
            }
            let ghost o = *root;
            let ghost mut sub: Node = *root;
            match node_by_id_mut(root, s) {
                Some(n) => {
                    run(n);
                    proof {
                        sub = *n;
                    }
                },
                None => {},
            }
            proof {
                lemma_replaced_at(o, *root, first_path(o, s)->0, sub);
            }
        },
        Queued::Picked { select, option } => {
            let ok = match node_by_id(root, select) {
                Some(n) => n.has_tag("select") && node_by_id(root, option).is_some(),
                None => false,
            };
            if !ok {
                return ;
            }
            let ghost o = *root;
            let ghost mut sub: Node = *root;
            match node_by_id_mut(root, select) {
                Some(n) => {
                    make_exclusive(n, option);
                    proof {
                        sub = *n;
                    }
                },
                None => {},
            }
            proof {
                lemma_replaced_at(o, *root, first_path(o, select)->0, sub);
            }
        },
    }
}

/// `roots` are the document before and after each item of `plan`.
pub open spec fn flush_chain(plan: Seq<Queued>, roots: Seq<Node>) -> bool {
    &&& roots.len() == plan.len() + 1
    &&& forall|k: int| #![trigger plan[k]] 0 <= k < plan.len() ==> queued_done(roots[k], roots[k + 1], plan[k])
}

/// Do the queued work (see [`flush_plan_spec`] and [`queued_done`]).
pub fn flush(dom: &mut Dom, queued: &Vec<Queued>)
    ensures
        final(dom).focused == old(dom).focused,
        final(dom).next_id == old(dom).next_id,
        exists|roots: Seq<Node>|
            #[trigger] flush_chain(flush_plan_spec(queued@), roots) && roots[0] == old(dom).root && roots.last()
                == final(dom).root,
{
    let plan = flush_plan(queued);
    let ghost mut roots: Seq<Node> = seq![dom.root];
    let mut i: usize = 0;
    while i < plan.len()
        invariant
            i <= plan@.len(),
            plan@ == flush_plan_spec(queued@),
            dom.focused == old(dom).focused,
            dom.next_id == old(dom).next_id,
            flush_chain(plan@.take(i as int), roots),
            roots[0] == old(dom).root,
            roots.last() == dom.root,
        decreases plan.len() - i,
    {
        let ghost before = dom.root;
        do_queued(&mut dom.root, plan[i]);
        proof {
            let t = plan@.take(i + 1);
            let r2 = roots.push(dom.root);
            assert forall|k: int| #![trigger t[k]] 0 <= k < t.len() implies queued_done(r2[k], r2[k + 1], t[k]) by {
                if k < i {
                    assert(t[k] == plan@.take(i as int)[k]);
                    assert(r2[k] == roots[k] && r2[k + 1] == roots[k + 1]);
                } else {
                    assert(r2[k] == before);
                }
            }
            roots = r2;
        }
        i = i + 1;
    }
    assert(plan@.take(i as int) =~= plan@);
    assert(flush_chain(plan@, roots));
}

} // verus!
