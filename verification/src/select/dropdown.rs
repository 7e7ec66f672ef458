//! Drop-down open / close state: the `data-rdom-open` marker on a
//! single-select with display size 1. List boxes (`multiple` or
//! `size > 1`) have no open / closed state.

use vstd::prelude::*;
use crate::dom::Node;
use crate::select::model::{display_size, display_size_of};

verus! {

pub open spec fn open_name() -> Seq<char> {
    "data-rdom-open"@
}

/// A drop-down box: no `multiple` and a display size of 1.
pub open spec fn is_dropdown_spec(select: Node) -> bool {
    !select.has_attr("multiple"@) && display_size_of(select) <= 1
}

/// `is_dropdown`: whether this select is a drop-down box.
pub fn is_dropdown(select: &Node) -> (r: bool)
    ensures
        r == is_dropdown_spec(*select),
{
    !select.has_attribute("multiple") && display_size(select) <= 1
}

/// `is_open`: whether the drop-down is currently open. A list box is
/// never open, whatever markers it carries.
pub fn is_open(select: &Node) -> (r: bool)
    ensures
        r == (is_dropdown_spec(*select) && select.has_attr(open_name())),
{
    is_dropdown(select) && select.has_attribute("data-rdom-open")
}

/// `open`: set the open marker; no-op on a list box.
pub fn open(select: &mut Node)
    ensures
        final(select).same_but_attrs(old(select)),
        forall|n: Seq<char>|
            #![trigger final(select).attr(n)]
            final(select).attr(n) == if n == open_name() && is_dropdown_spec(*old(select)) {
                Some(Seq::<char>::empty())
            } else {
                old(select).attr(n)
            },
{
    if !is_dropdown(select) {
        return;
    }
    select.set_attribute("data-rdom-open", "");
    proof {
        reveal_strlit("");
    }
}

/// `close`: clear the open marker; no-op on a list box.
pub fn close(select: &mut Node)
    ensures
        final(select).same_but_attrs(old(select)),
        forall|n: Seq<char>|
            #![trigger final(select).attr(n)]
            final(select).attr(n) == if n == open_name() && is_dropdown_spec(*old(select)) {
                None
            } else {
                old(select).attr(n)
            },
{
    if !is_dropdown(select) {
        return;
    }
    select.remove_attribute("data-rdom-open");
}

} // verus!
