//! HTML §4.10.7 "selectedness setting algorithm": a single-select with
//! display size 1 always shows one option — with none selected, the
//! first option that is not disabled is; with several selected, only
//! the last stays. Also the form-reset path and the exclusive pick a
//! consumer's `selected` write triggers.

use vstd::prelude::*;
use crate::dom::{Node, NodeId};
use crate::select::model::{
    OptionInfo, OptionWrite, display_size, display_size_of, info_after, infos_of, is_multi,
    option_infos, options_of, opts_written, write_options,
};
use crate::select::state::{captured, enabled_flags, first_enabled, first_flag, index_of, keep, same_select, selected_flags};
use crate::text::{first_true, last_true, lemma_last_true};
use crate::select::model::rewritten;
use crate::dom::Dom;

verus! {

/// The option infos after the selectedness setting algorithm, for a
/// single-select of display size `size`.
pub open spec fn run_infos(infos: Seq<OptionInfo>, size: u32) -> Seq<OptionInfo> {
    match last_true(selected_flags(infos)) {
        None => if size != 1 {
            infos
        } else {
            match first_enabled(infos) {
                None => infos,
                Some(f) => Seq::new(
                    infos.len(),
                    |i: int| if i == f {
                        OptionInfo { selected: true, default_selected: captured(infos[i]), ..infos[i] }
                    } else {
                        infos[i]
                    },
                ),
            }
        },
        Some(l) => Seq::new(
            infos.len(),
            |i: int| if infos[i].selected && i != l {
                OptionInfo { selected: false, default_selected: captured(infos[i]), ..infos[i] }
            } else {
                infos[i]
            },
        ),
    }
}

/// At most one option selected.
pub open spec fn at_most_one_selected(infos: Seq<OptionInfo>) -> bool {
    forall|i: int, j: int|
        0 <= i < infos.len() && 0 <= j < infos.len() && (#[trigger] infos[i]).selected && (#[trigger] infos[j]).selected
            ==> i == j
}

pub open spec fn some_selected(infos: Seq<OptionInfo>) -> bool {
    exists|i: int| 0 <= i < infos.len() && (#[trigger] infos[i]).selected
}

pub open spec fn some_enabled(infos: Seq<OptionInfo>) -> bool {
    exists|i: int| 0 <= i < infos.len() && !(#[trigger] infos[i]).disabled
}

/// A select the algorithm leaves as it is: a multi-select, or a
/// single-select with at most one selected option and, when it is a
/// drop-down with an option that is not disabled, exactly one.
pub open spec fn settled(select: Node) -> bool {
    let infos = infos_of(select);
    select.has_attr("multiple"@) || (at_most_one_selected(infos) && (display_size_of(select) == 1
        && some_enabled(infos) ==> some_selected(infos)))
}

/// The selectedness setting algorithm leaves a single-select settled.
pub proof fn lemma_run_settles(infos: Seq<OptionInfo>, size: u32)
    ensures
        at_most_one_selected(run_infos(infos, size)),
        size == 1 && some_enabled(infos) ==> some_selected(run_infos(infos, size)),
        run_infos(infos, size).len() == infos.len(),
        forall|i: int| 0 <= i < infos.len() ==> (#[trigger] run_infos(infos, size)[i]).disabled == infos[i].disabled,
{
    let sel = selected_flags(infos);
    let r = run_infos(infos, size);
    match last_true(sel) {
        None => {
            assert(!(exists|i: int| 0 <= i < sel.len() && sel[i]));
            assert forall|i: int| 0 <= i < infos.len() implies !(#[trigger] infos[i]).selected by {
                assert(sel[i] == infos[i].selected);
            }
            if size == 1 {
                let en = enabled_flags(infos);
                match first_enabled(infos) {
                    None => {
                        assert(!(exists|i: int| 0 <= i < en.len() && en[i]));
                        assert forall|i: int| 0 <= i < infos.len() implies (#[trigger] infos[i]).disabled by {
                            assert(en[i] == !infos[i].disabled);
                        }
                    },
                    Some(f) => {
                        assert(exists|i: int| 0 <= i < en.len() && en[i]);
                        let c = choose|k: int| crate::text::is_first_true(en, k);
                        assert(crate::text::is_first_true(en, c)) by {
                            let w = choose|i: int| 0 <= i < en.len() && en[i];
                            crate::text::lemma_exists_first_true(en, w);
                        }
                        assert(r[f].selected);
                    },
                }
            }
        },
        Some(l) => {
            assert(exists|i: int| 0 <= i < sel.len() && sel[i]);
            let w = choose|i: int| 0 <= i < sel.len() && sel[i];
            crate::text::lemma_exists_last_true(sel, w);
            assert(crate::text::is_last_true(sel, l));
            assert(sel[l] == infos[l].selected);
            assert(r[l].selected);
        },
    }
}

/// The selectedness setting algorithm is idempotent: a second run
/// changes nothing.
pub proof fn law_run_idempotent(infos: Seq<OptionInfo>, size: u32)
    ensures
        run_infos(run_infos(infos, size), size) == run_infos(infos, size),
{
    lemma_run_settles(infos, size);
    let r = run_infos(infos, size);
    let sel = selected_flags(r);
    match last_true(sel) {
        None => {
            if size == 1 {
                match first_enabled(r) {
                    None => {},
                    Some(f) => {
                        let en = enabled_flags(r);
                        let c = choose|k: int| crate::text::is_first_true(en, k);
                        assert(exists|i: int| 0 <= i < en.len() && en[i]);
                        let w = choose|i: int| 0 <= i < en.len() && en[i];
                        assert(!r[w].disabled);
                        assert(!infos[w].disabled);
                        assert(some_enabled(infos));
                        let k = choose|i: int| 0 <= i < r.len() && (#[trigger] r[i]).selected;
                        assert(sel[k]);
                        assert(false);
                    },
                }
            }
        },
        Some(l) => {
            let w = choose|i: int| 0 <= i < sel.len() && sel[i];
            crate::text::lemma_exists_last_true(sel, w);
            assert(crate::text::is_last_true(sel, l));
            assert(r[l].selected);
            assert(run_infos(r, size) =~= r);
        },
    }
}

/// The algorithm's pick is never taken for the author's default: on a
/// select whose options have no captured `defaultSelected` yet, a form
/// reset right after the selectedness setting algorithm puts back the
/// authored selection, and the reset's own run of the algorithm then
/// gives back exactly the state the first run left.
pub proof fn law_reset_after_run_restores_authored(infos: Seq<OptionInfo>, size: u32)
    requires
        forall|i: int| 0 <= i < infos.len() ==> (#[trigger] infos[i]).default_selected is None,
    ensures
        selected_flags(reset_infos(run_infos(infos, size))) == selected_flags(infos),
        run_infos(reset_infos(run_infos(infos, size)), size) == run_infos(infos, size),
{
    let r = run_infos(infos, size);
    let t = reset_infos(r);
    assert forall|i: int| 0 <= i < infos.len() implies (#[trigger] t[i]).selected == infos[i].selected && t[i].disabled
        == infos[i].disabled && t[i].id == infos[i].id && t[i].highlight == infos[i].highlight && t[i].anchor
        == infos[i].anchor && (t[i].default_selected is None ==> t[i] == infos[i]) && (t[i].default_selected is Some
        ==> t[i].default_selected == Some(infos[i].selected)) && t[i].default_selected == r[i].default_selected by {
    }
    assert(selected_flags(t) =~= selected_flags(infos));
    assert(enabled_flags(t) =~= enabled_flags(infos));
    assert(run_infos(t, size) =~= r);
}

/// The writes that realize `run_infos`.
pub open spec fn run_writes(infos: Seq<OptionInfo>, size: u32) -> Seq<OptionWrite> {
    let after = run_infos(infos, size);
    Seq::new(
        infos.len(),
        |i: int| OptionWrite {
            selected: after[i].selected,
            highlight: infos[i].highlight,
            anchor: infos[i].anchor,
            capture_default: after[i].selected != infos[i].selected,
        },
    )
}

/// `new` is the select `old` after the selectedness setting algorithm
/// (see [`run`]).
pub open spec fn ran(old: Node, new: Node) -> bool {
    &&& same_select(old, new)
    &&& old.has_attr("multiple"@) ==> new == old
    &&& !old.has_attr("multiple"@) ==> infos_of(new) =~= run_infos(infos_of(old), display_size_of(old))
    &&& settled(new)
}

/// `new` is the select `old` after [`make_exclusive`] for `option`.
pub open spec fn made_exclusive(old: Node, new: Node, option: NodeId) -> bool {
    &&& same_select(old, new)
    &&& {
        let o = infos_of(old);
        match crate::select::state::index_of_spec(o, option) {
            Some(k) => if !old.has_attr("multiple"@) && o[k].selected {
                infos_of(new) =~= exclusive_infos(o, k)
            } else {
                new == old
            },
            None => new == old,
        }
    }
}

/// Run the selectedness setting algorithm on `select`: nothing for a
/// multi-select; otherwise, with no option selected and display size 1,
/// select the first option that is not disabled; with several
/// selected, keep only the last. An option the algorithm flips has its
/// `defaultSelected` captured first. No events fire.
pub fn run(select: &mut Node)
    ensures
        same_select(*old(select), *final(select)),
        old(select).has_attr("multiple"@) ==> *final(select) == *old(select),
        !old(select).has_attr("multiple"@) ==> infos_of(*final(select)) =~= run_infos(
            infos_of(*old(select)),
            display_size_of(*old(select)),
        ),
        settled(*final(select)),
        final(select).children@.len() == old(select).children@.len(),
        forall|i: int|
            0 <= i < old(select).children@.len() ==> rewritten(
                #[trigger] old(select).children@[i],
                final(select).children@[i],
            ),
{
    if is_multi(select) {
        proof {
            assert forall|i: int| 0 <= i < select.children@.len() implies rewritten(
                #[trigger] select.children@[i],
                select.children@[i],
            ) by {
                lemma_rewritten_refl(select.children@[i]);
            }
        }
        return;
    }
    let size = display_size(select);
    let infos = option_infos(select);
    let ghost after = run_infos(infos@, size);
    let last = last_selected_index(&infos);
    let mut ws: Vec<OptionWrite> = Vec::new();
    match last {
        None => {
            let f = if size != 1 {
                None
            } else {
                first_flag(&infos, 3)
            };
            let mut i: usize = 0;
            while i < infos.len()
                invariant
                    i <= infos@.len(),
                    ws@.len() == i,
                    last_true(selected_flags(infos@)) is None,
                    size != 1 ==> f is None,
                    size == 1 ==> match f {
                        Some(k) => first_enabled(infos@) == Some(k as int),
                        None => first_enabled(infos@) is None,
                    },
                    after == run_infos(infos@, size),
                    forall|j: int| 0 <= j < i ==> #[trigger] ws@[j] == run_writes(infos@, size)[j],
                decreases infos.len() - i,
            {
                let o = infos[i];
                let pick = match f {
                    Some(k) => k == i,
                    None => false,
                };
                proof {
                    if pick {
                        assert(!infos@[i as int].selected) by {
                            let sel = selected_flags(infos@);
                            if infos@[i as int].selected {
                                assert(sel[i as int]);
                                assert(exists|x: int| 0 <= x < sel.len() && sel[x]);
                            }
                        }
                    }
                }
                ws.push(OptionWrite { selected: o.selected || pick, highlight: o.highlight, anchor: o.anchor, capture_default: pick });
                i = i + 1;
            }
        },
        Some(l) => {
            let mut i: usize = 0;
            while i < infos.len()
                invariant
                    i <= infos@.len(),
                    ws@.len() == i,
                    last_true(selected_flags(infos@)) == Some(l as int),
                    forall|j: int| 0 <= j < i ==> #[trigger] ws@[j] == run_writes(infos@, size)[j],
                decreases infos.len() - i,
            {
                let o = infos[i];
                let drop = o.selected && i != l;
                ws.push(OptionWrite { selected: o.selected && !drop, highlight: o.highlight, anchor: o.anchor, capture_default: drop });
                i = i + 1;
            }
        },
    }
    assert(ws@ =~= run_writes(infos@, size));
    write_options(select, &ws);
    proof {
        lemma_run_settles(infos@, size);
        let ni = infos_of(*select);
        assert forall|i: int| 0 <= i < ni.len() implies #[trigger] ni[i] == after[i] by {
            assert(ni[i] == info_after(infos@[i], ws@[i]));
            assert(ws@[i] == run_writes(infos@, size)[i]);
            let o = infos@[i];
            match last_true(selected_flags(infos@)) {
                None => {
                    if size == 1 {
                        match first_enabled(infos@) {
                            None => {},
                            Some(f) => {
                                if i == f {
                                    assert(!o.selected) by {
                                        let sel = selected_flags(infos@);
                                        if o.selected {
                                            assert(sel[i]);
                                        }
                                    }
                                }
                            },
                        }
                    }
                },
                Some(l) => {},
            }
        }
        assert(ni =~= after);
        assert(display_size_of(*select) == size);
    }
}

/// Index of the last selected option.
fn last_selected_index(infos: &Vec<OptionInfo>) -> (r: Option<usize>)
    ensures
        match r {
            Some(i) => last_true(selected_flags(infos@)) == Some(i as int) && i < infos@.len(),
            None => last_true(selected_flags(infos@)) is None,
        },
{
    let ghost s = selected_flags(infos@);
    let mut i: usize = infos.len();
    while i > 0
        invariant
            i <= infos@.len(),
            s == selected_flags(infos@),
            forall|j: int| i <= j < infos@.len() ==> !s[j],
        decreases i,
    {
        i = i - 1;
        if infos[i].selected {
            proof {
                lemma_last_true(s, i as int);
            }
            return Some(i);
        }
    }
    None
}

/// Record every option's current selectedness as its `defaultSelected`,
/// where none was captured yet.
pub fn note_default_selected(select: &mut Node)
    ensures
        same_select(*old(select), *final(select)),
        infos_of(*final(select)).len() == infos_of(*old(select)).len(),
        forall|i: int|
            0 <= i < infos_of(*old(select)).len() ==> (#[trigger] infos_of(*final(select))[i]) == (OptionInfo {
                default_selected: captured(infos_of(*old(select))[i]),
                ..infos_of(*old(select))[i]
            }),
{
    let infos = option_infos(select);
    let mut ws: Vec<OptionWrite> = Vec::new();
    let mut i: usize = 0;
    while i < infos.len()
        invariant
            i <= infos@.len(),
            ws@.len() == i,
            forall|j: int| 0 <= j < i ==> #[trigger] ws@[j] == (OptionWrite { capture_default: true, ..keep(infos@[j]) }),
        decreases infos.len() - i,
    {
        let o = infos[i];
        ws.push(OptionWrite { selected: o.selected, highlight: o.highlight, anchor: o.anchor, capture_default: true });
        i = i + 1;
    }
    write_options(select, &ws);
}

/// The infos after a form reset put every option back to its captured
/// `defaultSelected` (an option never captured is left alone).
pub open spec fn reset_infos(infos: Seq<OptionInfo>) -> Seq<OptionInfo> {
    Seq::new(
        infos.len(),
        |i: int| match infos[i].default_selected {
            Some(b) => OptionInfo { selected: b, ..infos[i] },
            None => infos[i],
        },
    )
}

/// `new` is the select `old` after a form reset (see
/// [`reset_to_default`]).
pub open spec fn select_reset(old: Node, new: Node) -> bool {
    &&& same_select(old, new)
    &&& old.has_attr("multiple"@) ==> infos_of(new) =~= reset_infos(infos_of(old))
    &&& !old.has_attr("multiple"@) ==> infos_of(new) =~= run_infos(reset_infos(infos_of(old)), display_size_of(old))
}

/// HTML §4.10.7 reset algorithm for `<select>`: every option goes back
/// to its `defaultSelected`, then the selectedness setting algorithm
/// runs. No events fire.
pub fn reset_to_default(select: &mut Node)
    ensures
        select_reset(*old(select), *final(select)),
        settled(*final(select)),
{
    let infos = option_infos(select);
    let mut ws: Vec<OptionWrite> = Vec::new();
    let mut i: usize = 0;
    while i < infos.len()
        invariant
            i <= infos@.len(),
            ws@.len() == i,
            forall|j: int|
                0 <= j < i ==> #[trigger] ws@[j] == (OptionWrite {
                    selected: match infos@[j].default_selected {
                        Some(b) => b,
                        None => infos@[j].selected,
                    },
                    ..keep(infos@[j])
                }),
        decreases infos.len() - i,
    {
        let o = infos[i];
        let sel = match o.default_selected {
            Some(b) => b,
            None => o.selected,
        };
        ws.push(OptionWrite { selected: sel, highlight: o.highlight, anchor: o.anchor, capture_default: false });
        i = i + 1;
    }
    write_options(select, &ws);
    proof {
        assert(infos_of(*select) =~= reset_infos(infos@));
    }
    run(select);
}

/// The infos after `option` (index `k`) becomes the only selected option.
pub open spec fn exclusive_infos(infos: Seq<OptionInfo>, k: int) -> Seq<OptionInfo> {
    Seq::new(
        infos.len(),
        |i: int| if i != k && infos[i].selected {
            OptionInfo { selected: false, default_selected: captured(infos[i]), ..infos[i] }
        } else {
            infos[i]
        },
    )
}

/// `option` is `select`'s only selected option, when it still is one of
/// its selected options and the select is a single-select (HTML:
/// setting an option's selectedness to true unsets the others').
pub fn make_exclusive(select: &mut Node, option: NodeId)
    ensures
        same_select(*old(select), *final(select)),
        ({
            let o = infos_of(*old(select));
            match crate::select::state::index_of_spec(o, option) {
                Some(k) => if !old(select).has_attr("multiple"@) && o[k].selected {
                    infos_of(*final(select)) =~= exclusive_infos(o, k)
                } else {
                    *final(select) == *old(select)
                },
                None => *final(select) == *old(select),
            }
        }),
{
    if is_multi(select) {
        return;
    }
    let infos = option_infos(select);
    let k = match index_of(&infos, option) {
        Some(k) => k,
        None => return,
    };
    if !infos[k].selected {
        return;
    }
    let mut ws: Vec<OptionWrite> = Vec::new();
    let mut i: usize = 0;
    while i < infos.len()
        invariant
            i <= infos@.len(),
            ws@.len() == i,
            forall|j: int|
                0 <= j < i ==> #[trigger] ws@[j] == (OptionWrite {
                    selected: infos@[j].selected && j == k,
                    capture_default: j != k && infos@[j].selected,
                    ..keep(infos@[j])
                }),
        decreases infos.len() - i,
    {
        let o = infos[i];
        let drop = i != k && o.selected;
        ws.push(OptionWrite { selected: o.selected && i == k, highlight: o.highlight, anchor: o.anchor, capture_default: drop });
        i = i + 1;
    }
    write_options(select, &ws);
    proof {
        assert(infos_of(*select) =~= exclusive_infos(infos@, k as int));
    }
}

/// A node is a rewrite of itself.
pub proof fn lemma_rewritten_refl(n: Node)
    ensures
        rewritten(n, n),
    decreases n,
{
    if n.is_element("optgroup"@) {
        assert forall|j: int| 0 <= j < n.children@.len() implies rewritten(#[trigger] n.children@[j], n.children@[j]) by {
            lemma_rewritten_refl(n.children@[j]);
        }
    }
}

/// Every `<select>` in the subtree of `n` (itself included) is settled.
pub open spec fn all_selects_settled(n: Node) -> bool
    decreases n,
{
    &&& n.is_element("select"@) ==> settled(n)
    &&& forall|j: int| 0 <= j < n.children@.len() ==> all_selects_settled(#[trigger] n.children@[j])
}

/// An option write below a node leaves every select in it settled.
proof fn lemma_rewritten_keeps_settled(old: Node, new: Node)
    requires
        rewritten(old, new),
        all_selects_settled(old),
    ensures
        all_selects_settled(new),
    decreases old,
{
    if old.is_element("option"@) {
        assert(!new.is_element("select"@)) by {
            reveal_strlit("option");
            reveal_strlit("select");
            assert("option"@[0] != "select"@[0]);
        }
        assert(forall|j: int| 0 <= j < new.children@.len() ==> #[trigger] new.children@[j] == old.children@[j]);
    } else if old.is_element("optgroup"@) {
        assert(!new.is_element("select"@)) by {
            reveal_strlit("optgroup");
            reveal_strlit("select");
            assert("optgroup"@.len() != "select"@.len());
        }
        assert forall|j: int| 0 <= j < new.children@.len() implies all_selects_settled(#[trigger] new.children@[j]) by {
            lemma_rewritten_keeps_settled(old.children@[j], new.children@[j]);
        }
    }
}

/// `mid` agrees with `old` in everything but its children, and has as
/// many.
pub open spec fn same_shell(old: Node, mid: Node) -> bool {
    &&& mid.id == old.id
    &&& mid.node_type == old.node_type
    &&& mid.tag@ == old.tag@
    &&& mid.text@ == old.text@
    &&& mid.attrs == old.attrs
    &&& mid.ext == old.ext
    &&& mid.children@.len() == old.children@.len()
}

/// `new` is the subtree `old` after the seeding pass: every child
/// subtree seeded first; then, on a `<select>`, the selectedness setting
/// algorithm (which rewrites only its options). Nothing else changes.
pub open spec fn seeded(old: Node, new: Node) -> bool
    decreases old,
{
    if old.is_element("select"@) {
        exists|mid: Node|
            #[trigger] same_shell(old, mid) && (forall|j: int|
                0 <= j < old.children@.len() ==> seeded(#[trigger] old.children@[j], mid.children@[j])) && ran(mid, new)
                && new.children@.len() == mid.children@.len() && forall|j: int|
                0 <= j < mid.children@.len() ==> rewritten(#[trigger] mid.children@[j], new.children@[j])
    } else {
        &&& same_shell(old, new)
        &&& forall|j: int| 0 <= j < old.children@.len() ==> seeded(#[trigger] old.children@[j], new.children@[j])
    }
}

/// Run the algorithm on every `<select>` of the subtree of `n`, deepest
/// first.
fn seed_subtree(n: &mut Node)
    ensures
        all_selects_settled(*final(n)),
        seeded(*old(n), *final(n)),
        final(n).id == old(n).id,
        final(n).node_type == old(n).node_type,
        final(n).tag@ == old(n).tag@,
        final(n).attrs == old(n).attrs,
        final(n).ext == old(n).ext,
    decreases *old(n),
{
    let mut i: usize = 0;
    while i < n.children.len()
        invariant
            i <= n.children@.len(),
            n.children@.len() == old(n).children@.len(),
            n.id == old(n).id,
            n.node_type == old(n).node_type,
            n.tag@ == old(n).tag@,
            n.text@ == old(n).text@,
            n.attrs == old(n).attrs,
            n.ext == old(n).ext,
            forall|j: int| i <= j < n.children@.len() ==> #[trigger] n.children@[j] == old(n).children@[j],
            forall|j: int| 0 <= j < i ==> all_selects_settled(#[trigger] n.children@[j]),
            forall|j: int| 0 <= j < i ==> seeded(#[trigger] old(n).children@[j], n.children@[j]),
        decreases n.children@.len() - i,
    {
        assert(decreases_to!(*old(n) => old(n).children@[i as int]));
        seed_subtree(&mut n.children[i]);
        i = i + 1;
    }
    assert(same_shell(*old(n), *n));
    if n.has_tag("select") {
        let ghost before = *n;
        run(n);
        proof {
            assert forall|j: int| 0 <= j < n.children@.len() implies all_selects_settled(#[trigger] n.children@[j]) by {
                lemma_rewritten_keeps_settled(before.children@[j], n.children@[j]);
            }
            assert(ran(before, *n));
            assert(same_shell(*old(n), before));
            assert(seeded(*old(n), *n));
        }
    } else {
        assert(!old(n).is_element("select"@));
        assert(seeded(*old(n), *n));
    }
}

/// `seed_all`: run the selectedness setting algorithm on every `<select>`
/// of the document, deepest first, so each is settled. Every node but a
/// select's options is left as it was.
pub fn seed_all(dom: &mut Dom)
    ensures
        seeded(old(dom).root, final(dom).root),
        all_selects_settled(final(dom).root),
        final(dom).root.id == old(dom).root.id,
        final(dom).root.attrs == old(dom).root.attrs,
        final(dom).focused == old(dom).focused,
        final(dom).next_id == old(dom).next_id,
{
    seed_subtree(&mut dom.root);
}

} // verus!
