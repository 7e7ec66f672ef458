//! Pointer activation on a `<select>`: pick or toggle the option under
//! the pointer (shift-click extends in a multi-select), or, on the
//! chrome of a drop-down, toggle it open / closed. A pick on a
//! single-select drop-down closes it.

use vstd::prelude::*;
use crate::dom::{Dom, Node, NodeId};
use crate::path::{at, closest_tag, find_path, is_closest_tag, no_tag_on_path, node_at_mut, path_ok, prefix, replaced_at};
use crate::select::dropdown::{close, is_dropdown, is_dropdown_spec, is_open, open, open_name};
use crate::select::model::{OptionInfo, infos_of, is_multi, option_infos};
use crate::select::state::{
    anchor_index, highlight_index,
    extend_infos, extend_selection_to, index_of, index_of_spec, marker_infos, same_select, select_single,
    set_marker, single_infos, toggle_infos, toggle_option,
};

verus! {

/// The infos after activating option `k`, and whether events fire.
pub open spec fn click_infos(o: Seq<OptionInfo>, k: int, multi: bool, shift: bool) -> Seq<OptionInfo> {
    if multi {
        let o1 = if shift {
            extend_infos(o, k)
        } else {
            toggle_infos(o, k)
        };
        marker_infos(o1, 1, Some(k))
    } else {
        marker_infos(single_infos(o, k), 1, Some(k))
    }
}

/// The option a Shift-click extends from: the anchor, else the
/// highlighted option, else the clicked one `k`.
pub open spec fn shift_origin(o: Seq<OptionInfo>, k: int) -> int {
    match anchor_index(o) {
        Some(a) => a,
        None => match highlight_index(o) {
            Some(h) => h,
            None => k,
        },
    }
}

/// A Shift-click on the enabled option `k` of a multi-select selects
/// exactly the enabled options between where it extends from and `k`
/// (both included), leaves disabled options as they were, and
/// highlights `k`.
pub proof fn law_shift_click_selects_range(o: Seq<OptionInfo>, k: int)
    requires
        0 <= k < o.len(),
    ensures
        click_infos(o, k, true, true).len() == o.len(),
        forall|j: int|
            0 <= j < o.len() ==> (#[trigger] click_infos(o, k, true, true)[j]).selected == if o[j].disabled {
                o[j].selected
            } else {
                (shift_origin(o, k) <= j && j <= k) || (k <= j && j <= shift_origin(o, k))
            },
        forall|j: int| 0 <= j < o.len() ==> (#[trigger] click_infos(o, k, true, true)[j]).highlight == (j == k),
{
}

/// A plain click on option `k` of a multi-select flips `k` alone; a
/// click on option `k` of a single-select leaves `k` the one selected
/// option. Either way `k` becomes the highlighted option.
pub proof fn law_plain_click_selects(o: Seq<OptionInfo>, k: int, shift: bool)
    requires
        0 <= k < o.len(),
    ensures
        forall|j: int|
            0 <= j < o.len() ==> (#[trigger] click_infos(o, k, true, false)[j]).selected == if j == k {
                !o[j].selected
            } else {
                o[j].selected
            },
        forall|j: int| 0 <= j < o.len() ==> (#[trigger] click_infos(o, k, false, shift)[j]).selected == (j == k),
        forall|j: int| 0 <= j < o.len() ==> (#[trigger] click_infos(o, k, false, shift)[j]).highlight == (j == k),
        forall|j: int| 0 <= j < o.len() ==> (#[trigger] click_infos(o, k, true, false)[j]).highlight == (j == k),
{
}

/// The select's own fields after picking an option: unchanged, but for
/// the open marker of a drop-down, which the pick removes.
pub open spec fn select_kept(old: Node, new: Node) -> bool {
    if is_dropdown_spec(old) {
        &&& new.id == old.id
        &&& new.node_type == old.node_type
        &&& new.tag@ == old.tag@
        &&& new.ext == old.ext
        &&& !new.has_attr(open_name())
        &&& forall|n: Seq<char>| #![trigger new.attr(n)] n != open_name() ==> new.attr(n) == old.attr(n)
    } else {
        same_select(old, new)
    }
}

/// `new` is the select `old` after a click on `option` (`None` for its
/// own chrome), with `fired` whether `input` + `change` fire (see
/// [`on_click`]).
pub open spec fn clicked(old: Node, new: Node, option: Option<NodeId>, shift: bool, fired: bool) -> bool {
    &&& old.has_attr("disabled"@) ==> new == old && !fired
    &&& !old.has_attr("disabled"@) ==> match option {
        None => new.same_but_attrs(&old) && !fired && (is_dropdown_spec(old) ==> new.has_attr(open_name())
            != old.has_attr(open_name())) && (!is_dropdown_spec(old) ==> new == old),
        Some(id) => {
            let o = infos_of(old);
            match index_of_spec(o, id) {
                Some(k) => if o[k].disabled {
                    new == old && !fired
                } else {
                    &&& fired
                    &&& infos_of(new) =~= click_infos(o, k, old.has_attr("multiple"@), shift)
                    &&& (old.has_attr("multiple"@) && shift) ==> forall|j: int|
                        0 <= j < o.len() ==> (#[trigger] infos_of(new)[j]).selected == if o[j].disabled {
                            o[j].selected
                        } else {
                            (shift_origin(o, k) <= j && j <= k) || (k <= j && j <= shift_origin(o, k))
                        }
                    &&& select_kept(old, new)
                },
                None => new == old && !fired,
            }
        },
    }
}

/// The `click` default action on `select`: `option` is the option under
/// the pointer (`None` for a click on the select's own chrome). Returns
/// whether `input` + `change` fire.
pub fn on_click(select: &mut Node, option: Option<NodeId>, shift: bool) -> (fired: bool)
    ensures
        old(select).has_attr("disabled"@) ==> *final(select) == *old(select) && !fired,
        !old(select).has_attr("disabled"@) ==> match option {
            None => final(select).same_but_attrs(old(select)) && !fired && (is_dropdown_spec(*old(select))
                ==> final(select).has_attr(open_name()) != old(select).has_attr(open_name())) && (
            !is_dropdown_spec(*old(select)) ==> *final(select) == *old(select)),
            Some(id) => {
                let o = infos_of(*old(select));
                match index_of_spec(o, id) {
                    Some(k) => if o[k].disabled {
                        *final(select) == *old(select) && !fired
                    } else {
                        &&& fired
                        &&& infos_of(*final(select)) =~= click_infos(
                            o,
                            k,
                            old(select).has_attr("multiple"@),
                            shift,
                        )
                        &&& (old(select).has_attr("multiple"@) && shift) ==> forall|j: int|
                            0 <= j < o.len() ==> (#[trigger] infos_of(*final(select))[j]).selected == if o[j].disabled {
                                o[j].selected
                            } else {
                                (shift_origin(o, k) <= j && j <= k) || (k <= j && j <= shift_origin(o, k))
                            }
                        &&& select_kept(*old(select), *final(select))
                    },
                    None => *final(select) == *old(select) && !fired,
                }
            },
        },
        clicked(*old(select), *final(select), option, shift, fired),
{
    if select.has_attribute("disabled") {
        return false;
    }
    match option {
        None => {
            if is_dropdown(select) {
                if is_open(select) {
                    close(select);
                } else {
                    open(select);
                }
            }
            false
        },
        Some(id) => {
            let infos = option_infos(select);
            let k = match index_of(&infos, id) {
                Some(k) => k,
                None => return false,
            };
            if infos[k].disabled {
                return false;
            }
            let dropdown = is_dropdown(select);
            if is_multi(select) {
                if shift {
                    extend_selection_to(select, k);
                } else {
                    toggle_option(select, k);
                }
                set_marker(select, 1, Some(k));
            } else {
                select_single(select, k);
                set_marker(select, 1, Some(k));
            }
            if dropdown {
                let ghost before = *select;
                close(select);
                proof {
                    assert(infos_of(*select) == infos_of(before));
                    assert(is_dropdown_spec(before) == is_dropdown_spec(*old(select)));
                }
            }
            true
        },
    }
}

/// Where a click on the node `target` goes: the path to the select (the
/// closest `<select>` ancestor-or-self of the closest `<option>`
/// ancestor-or-self of the target, or of the target without one) and
/// that option's id.
pub open spec fn click_route(root: Node, target: NodeId) -> Option<(Seq<usize>, Option<NodeId>)> {
    match crate::path::first_path(root, target) {
        None => None,
        Some(p) => if exists|k: int| is_closest_tag(root, p, "option"@, k) {
            let k = choose|k: int| is_closest_tag(root, p, "option"@, k);
            let op = p.take(k);
            if exists|j: int| is_closest_tag(root, op, "select"@, j) {
                let j = choose|j: int| is_closest_tag(root, op, "select"@, j);
                Some((op.take(j), Some(at(root, op).id)))
            } else {
                None
            }
        } else if exists|j: int| is_closest_tag(root, p, "select"@, j) {
            Some((p.take(choose|j: int| is_closest_tag(root, p, "select"@, j)), None))
        } else {
            None
        },
    }
}

proof fn lemma_closest_unique(root: Node, p: Seq<usize>, tag: Seq<char>, k: int, m: int)
    requires
        is_closest_tag(root, p, tag, k),
        is_closest_tag(root, p, tag, m),
    ensures
        k == m,
{
}

proof fn lemma_no_closest(root: Node, p: Seq<usize>, tag: Seq<char>)
    requires
        no_tag_on_path(root, p, tag),
    ensures
        !exists|k: int| is_closest_tag(root, p, tag, k),
{
    if exists|k: int| is_closest_tag(root, p, tag, k) {
        let k = choose|k: int| is_closest_tag(root, p, tag, k);
        assert(crate::path::ancestor(root, p, k).is_element(tag));
    }
}

/// Route a click on node `target` of the document to its `<select>` (see
/// [`click_route`]) and run [`on_click`] there. Returns whether `input`
/// + `change` fire; nothing happens when no select encloses the target.
pub fn dispatch_click(dom: &mut Dom, target: NodeId, shift: bool) -> (fired: bool)
    ensures
        final(dom).focused == old(dom).focused,
        final(dom).next_id == old(dom).next_id,
        match click_route(old(dom).root, target) {
            None => *final(dom) == *old(dom) && !fired,
            Some((sp, option)) => {
                &&& path_ok(old(dom).root, sp)
                &&& replaced_at(old(dom).root, final(dom).root, sp, at(final(dom).root, sp))
                &&& clicked(at(old(dom).root, sp), at(final(dom).root, sp), option, shift, fired)
            },
        },
{
    let path = match find_path(&dom.root, target) {
        Some(p) => p,
        None => return false,
    };
    let opt_k = closest_tag(&dom.root, &path, "option");
    let (sel_path, option) = match opt_k {
        Some(k) => {
            proof {
                let c = choose|m: int| is_closest_tag(dom.root, path@, "option"@, m);
                lemma_closest_unique(dom.root, path@, "option"@, k as int, c);
            }
            let op = prefix(&path, k);
            proof {
                crate::path::lemma_path_ok_prefix(dom.root, path@, k as int);
            }
            let oid = crate::path::node_at(&dom.root, &op).id;
            match closest_tag(&dom.root, &op, "select") {
                Some(s) => {
                    proof {
                        let c = choose|m: int| is_closest_tag(dom.root, op@, "select"@, m);
                        lemma_closest_unique(dom.root, op@, "select"@, s as int, c);
                        crate::path::lemma_path_ok_prefix(dom.root, op@, s as int);
                    }
                    (prefix(&op, s), Some(oid))
                },
                None => {
                    proof {
                        lemma_no_closest(dom.root, op@, "select"@);
                    }
                    return false;
                },
            }
        },
        None => {
            proof {
                lemma_no_closest(dom.root, path@, "option"@);
            }
            match closest_tag(&dom.root, &path, "select") {
                Some(s) => {
                    proof {
                        let c = choose|m: int| is_closest_tag(dom.root, path@, "select"@, m);
                        lemma_closest_unique(dom.root, path@, "select"@, s as int, c);
                        crate::path::lemma_path_ok_prefix(dom.root, path@, s as int);
                    }
                    (prefix(&path, s), None)
                },
                None => {
                    proof {
                        lemma_no_closest(dom.root, path@, "select"@);
                    }
                    return false;
                },
            }
        },
    };
    assert(sel_path@.skip(0) =~= sel_path@);
    let ghost old_root = dom.root;
    let select = node_at_mut(&mut dom.root, &sel_path, 0);
    let fired = on_click(select, option, shift);
    proof {
        crate::path::lemma_replaced_at(old_root, dom.root, sel_path@, *select);
    }
    fired
}

} // verus!
