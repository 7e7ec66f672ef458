//! Selection-state changes shared by the click, keyboard and
//! type-ahead paths: single pick, toggle, anchor-to-target range
//! extend, select-all, and the highlight / anchor markers.

use vstd::prelude::*;
use crate::dom::{Node, NodeId};
use crate::text::{first_true, last_true, lemma_first_true, lemma_last_true};
use crate::select::model::{OptionInfo, OptionWrite, infos_of, info_after, option_infos, options_of, opts_written, write_options};

verus! {

pub open spec fn selected_flags(infos: Seq<OptionInfo>) -> Seq<bool> {
    infos.map_values(|o: OptionInfo| o.selected)
}

pub open spec fn highlight_flags(infos: Seq<OptionInfo>) -> Seq<bool> {
    infos.map_values(|o: OptionInfo| o.highlight)
}

pub open spec fn anchor_flags(infos: Seq<OptionInfo>) -> Seq<bool> {
    infos.map_values(|o: OptionInfo| o.anchor)
}

pub open spec fn enabled_flags(infos: Seq<OptionInfo>) -> Seq<bool> {
    infos.map_values(|o: OptionInfo| !o.disabled)
}

/// Index of the highlighted option (the first one carrying the marker).
pub open spec fn highlight_index(infos: Seq<OptionInfo>) -> Option<int> {
    first_true(highlight_flags(infos))
}

/// Index of the anchor option (the first one carrying the marker).
pub open spec fn anchor_index(infos: Seq<OptionInfo>) -> Option<int> {
    first_true(anchor_flags(infos))
}

/// Index of the first / last option that is not disabled.
pub open spec fn first_enabled(infos: Seq<OptionInfo>) -> Option<int> {
    first_true(enabled_flags(infos))
}

pub open spec fn last_enabled(infos: Seq<OptionInfo>) -> Option<int> {
    last_true(enabled_flags(infos))
}

/// Index of the first selected option.
pub open spec fn first_selected(infos: Seq<OptionInfo>) -> Option<int> {
    first_true(selected_flags(infos))
}

/// The `defaultSelected` after a capture: the current selectedness when
/// none was captured yet.
pub open spec fn captured(i: OptionInfo) -> Option<bool> {
    if i.default_selected is None {
        Some(i.selected)
    } else {
        i.default_selected
    }
}

/// The writes that keep every option as it is except the fields `f`
/// names.
pub open spec fn keep(i: OptionInfo) -> OptionWrite {
    OptionWrite { selected: i.selected, highlight: i.highlight, anchor: i.anchor, capture_default: false }
}

/// First index in `infos` whose flag picked by `which` is set
/// (0: selected, 1: highlight, 2: anchor, 3: enabled).
pub fn first_flag(infos: &Vec<OptionInfo>, which: u8) -> (r: Option<usize>)
    requires
        which <= 3,
    ensures
        match r {
            Some(i) => first_true(flag_seq(infos@, which)) == Some(i as int),
            None => first_true(flag_seq(infos@, which)) is None,
        },
        r matches Some(i) ==> i < infos@.len(),
{
    let ghost s = flag_seq(infos@, which);
    let mut i: usize = 0;
    while i < infos.len()
        invariant
            i <= infos@.len(),
            s == flag_seq(infos@, which),
            s.len() == infos@.len(),
            forall|j: int| 0 <= j < i ==> !s[j],
        decreases infos.len() - i,
    {
        let o = infos[i];
        let f = if which == 0 {
            o.selected
        } else if which == 1 {
            o.highlight
        } else if which == 2 {
            o.anchor
        } else {
            !o.disabled
        };
        assert(f == s[i as int]);
        if f {
            proof {
                lemma_first_true(s, i as int);
            }
            return Some(i);
        }
        i = i + 1;
    }
    None
}

/// Last index in `infos` of an option that is not disabled.
pub fn last_enabled_index(infos: &Vec<OptionInfo>) -> (r: Option<usize>)
    ensures
        match r {
            Some(i) => last_enabled(infos@) == Some(i as int),
            None => last_enabled(infos@) is None,
        },
        r matches Some(i) ==> i < infos@.len(),
{
    let ghost s = enabled_flags(infos@);
    let mut i: usize = infos.len();
    while i > 0
        invariant
            i <= infos@.len(),
            s == enabled_flags(infos@),
            s.len() == infos@.len(),
            forall|j: int| i <= j < infos@.len() ==> !s[j],
        decreases i,
    {
        i = i - 1;
        if !infos[i].disabled {
            proof {
                lemma_last_true(s, i as int);
            }
            return Some(i);
        }
    }
    None
}

pub open spec fn flag_seq(infos: Seq<OptionInfo>, which: u8) -> Seq<bool> {
    if which == 0 {
        selected_flags(infos)
    } else if which == 1 {
        highlight_flags(infos)
    } else if which == 2 {
        anchor_flags(infos)
    } else {
        enabled_flags(infos)
    }
}

/// The writes of a single pick of option `k`: only `k` selected, the
/// defaults captured first.
pub open spec fn single_writes(infos: Seq<OptionInfo>, k: int) -> Seq<OptionWrite> {
    Seq::new(
        infos.len(),
        |i: int| OptionWrite { selected: i == k, capture_default: true, ..keep(infos[i]) },
    )
}

/// The infos after a single pick of option `k`.
pub open spec fn single_infos(o: Seq<OptionInfo>, k: int) -> Seq<OptionInfo> {
    Seq::new(
        o.len(),
        |i: int| OptionInfo {
            selected: i == k,
            default_selected: if only_selected(o, k) {
                o[i].default_selected
            } else {
                captured(o[i])
            },
            ..o[i]
        },
    )
}

/// The infos after toggling option `k`.
pub open spec fn toggle_infos(o: Seq<OptionInfo>, k: int) -> Seq<OptionInfo> {
    Seq::new(
        o.len(),
        |i: int| OptionInfo {
            selected: if i == k {
                !o[i].selected
            } else {
                o[i].selected
            },
            default_selected: captured(o[i]),
            ..o[i]
        },
    )
}

/// The infos after putting marker `which` (1: highlight, 2: anchor) on
/// exactly option `target`, or on none.
pub open spec fn marker_infos(o: Seq<OptionInfo>, which: u8, target: Option<int>) -> Seq<OptionInfo> {
    Seq::new(
        o.len(),
        |i: int| if which == 1 {
            OptionInfo { highlight: target == Some(i), ..o[i] }
        } else {
            OptionInfo { anchor: target == Some(i), ..o[i] }
        },
    )
}

/// The infos after a range extend to option `t`.
pub open spec fn extend_infos(o: Seq<OptionInfo>, t: int) -> Seq<OptionInfo> {
    let a = extend_anchor(o, t);
    Seq::new(
        o.len(),
        |i: int| OptionInfo {
            selected: if o[i].disabled {
                o[i].selected
            } else {
                in_range(a, t, i)
            },
            anchor: if anchor_index(o) is Some {
                o[i].anchor
            } else {
                i == a
            },
            default_selected: captured(o[i]),
            ..o[i]
        },
    )
}

/// The infos after selecting every enabled option.
pub open spec fn select_all_infos(o: Seq<OptionInfo>) -> Seq<OptionInfo> {
    Seq::new(o.len(), |i: int| OptionInfo { selected: o[i].selected || !o[i].disabled, ..o[i] })
}

/// Whether option `k` is already the one and only selected option.
pub open spec fn only_selected(infos: Seq<OptionInfo>, k: int) -> bool {
    forall|i: int| 0 <= i < infos.len() ==> (#[trigger] infos[i]).selected == (i == k)
}

/// Single pick: option `k` becomes the only selected option. When it
/// already is, nothing changes; otherwise every option's
/// `defaultSelected` is captured first.
pub fn select_single(select: &mut Node, k: usize)
    requires
        k < infos_of(*old(select)).len(),
    ensures
        infos_of(*final(select)) =~= single_infos(infos_of(*old(select)), k as int),
        if only_selected(infos_of(*old(select)), k as int) {
            *final(select) == *old(select)
        } else {
            opts_written(
                options_of(*old(select)),
                options_of(*final(select)),
                single_writes(infos_of(*old(select)), k as int),
            )
        },
        same_select(*old(select), *final(select)),
        forall|i: int|
            0 <= i < infos_of(*old(select)).len() ==> (#[trigger] infos_of(*final(select))[i]) == (OptionInfo {
                selected: i == k,
                default_selected: if only_selected(infos_of(*old(select)), k as int) {
                    infos_of(*old(select))[i].default_selected
                } else {
                    captured(infos_of(*old(select))[i])
                },
                ..infos_of(*old(select))[i]
            }),
        infos_of(*final(select)).len() == infos_of(*old(select)).len(),
{
    let infos = option_infos(select);
    let mut already = true;
    let mut i: usize = 0;
    while i < infos.len()
        invariant
            i <= infos@.len(),
            infos@ == infos_of(*select),
            already == forall|j: int| 0 <= j < i ==> (#[trigger] infos@[j]).selected == (j == k),
        decreases infos.len() - i,
    {
        if infos[i].selected != (i == k) {
            already = false;
        }
        i = i + 1;
    }
    if already {
        return;
    }
    let mut ws: Vec<OptionWrite> = Vec::new();
    let mut i: usize = 0;
    while i < infos.len()
        invariant
            i <= infos@.len(),
            ws@ =~= single_writes(infos@, k as int).take(i as int),
        decreases infos.len() - i,
    {
        let o = infos[i];
        ws.push(OptionWrite { selected: i == k, highlight: o.highlight, anchor: o.anchor, capture_default: true });
        i = i + 1;
    }
    assert(ws@ =~= single_writes(infos@, k as int));
    write_options(select, &ws);
}

/// `new` is the same select as `old`, up to its options.
pub open spec fn same_select(old: Node, new: Node) -> bool {
    &&& new.id == old.id
    &&& new.node_type == old.node_type
    &&& new.tag@ == old.tag@
    &&& new.attrs == old.attrs
    &&& new.ext == old.ext
}

/// Write `ws` and report the new infos.
fn apply(select: &mut Node, infos: &Vec<OptionInfo>, ws: &Vec<OptionWrite>)
    requires
        infos@ == infos_of(*old(select)),
        ws@.len() == infos@.len(),
    ensures
        opts_written(options_of(*old(select)), options_of(*final(select)), ws@),
        same_select(*old(select), *final(select)),
        infos_of(*final(select)) =~= Seq::new(ws@.len(), |i: int| info_after(infos@[i], ws@[i])),
{
    write_options(select, ws);
}

/// Toggle option `k`'s selectedness, capturing defaults first.
pub fn toggle_option(select: &mut Node, k: usize)
    requires
        k < infos_of(*old(select)).len(),
    ensures
        infos_of(*final(select)) =~= toggle_infos(infos_of(*old(select)), k as int),
        same_select(*old(select), *final(select)),
        infos_of(*final(select)).len() == infos_of(*old(select)).len(),
        forall|i: int|
            0 <= i < infos_of(*old(select)).len() ==> (#[trigger] infos_of(*final(select))[i]) == (OptionInfo {
                selected: if i == k {
                    !infos_of(*old(select))[i].selected
                } else {
                    infos_of(*old(select))[i].selected
                },
                default_selected: captured(infos_of(*old(select))[i]),
                ..infos_of(*old(select))[i]
            }),
{
    let infos = option_infos(select);
    let mut ws: Vec<OptionWrite> = Vec::new();
    let mut i: usize = 0;
    while i < infos.len()
        invariant
            i <= infos@.len(),
            ws@.len() == i,
            forall|j: int|
                0 <= j < i ==> #[trigger] ws@[j] == (OptionWrite {
                    selected: if j == k {
                        !infos@[j].selected
                    } else {
                        infos@[j].selected
                    },
                    capture_default: true,
                    ..keep(infos@[j])
                }),
        decreases infos.len() - i,
    {
        let o = infos[i];
        let sel = if i == k {
            !o.selected
        } else {
            o.selected
        };
        ws.push(OptionWrite { selected: sel, highlight: o.highlight, anchor: o.anchor, capture_default: true });
        i = i + 1;
    }
    apply(select, &infos, &ws);
}

/// Put marker `which` (1: highlight, 2: anchor) on exactly option
/// `target`, or on none.
pub fn set_marker(select: &mut Node, which: u8, target: Option<usize>)
    requires
        which == 1 || which == 2,
    ensures
        infos_of(*final(select)) =~= marker_infos(
            infos_of(*old(select)),
            which,
            match target {
                Some(t) => Some(t as int),
                None => None,
            },
        ),
        same_select(*old(select), *final(select)),
        infos_of(*final(select)).len() == infos_of(*old(select)).len(),
        forall|i: int|
            0 <= i < infos_of(*old(select)).len() ==> (#[trigger] infos_of(*final(select))[i]) == if which
                == 1 {
                OptionInfo { highlight: target == Some(i as usize), ..infos_of(*old(select))[i] }
            } else {
                OptionInfo { anchor: target == Some(i as usize), ..infos_of(*old(select))[i] }
            },
{
    let infos = option_infos(select);
    let mut ws: Vec<OptionWrite> = Vec::new();
    let mut i: usize = 0;
    while i < infos.len()
        invariant
            i <= infos@.len(),
            ws@.len() == i,
            forall|j: int|
                0 <= j < i ==> #[trigger] ws@[j] == if which == 1 {
                    OptionWrite { highlight: target == Some(j as usize), ..keep(infos@[j]) }
                } else {
                    OptionWrite { anchor: target == Some(j as usize), ..keep(infos@[j]) }
                },
        decreases infos.len() - i,
    {
        let o = infos[i];
        let here = match target {
            Some(t) => t == i,
            None => false,
        };
        let w = if which == 1 {
            OptionWrite { selected: o.selected, highlight: here, anchor: o.anchor, capture_default: false }
        } else {
            OptionWrite { selected: o.selected, highlight: o.highlight, anchor: here, capture_default: false }
        };
        ws.push(w);
        i = i + 1;
    }
    apply(select, &infos, &ws);
}

/// Index of the first option with id `id`.
pub open spec fn index_of_spec(infos: Seq<OptionInfo>, id: NodeId) -> Option<int> {
    first_true(infos.map_values(|o: OptionInfo| o.id == id))
}

/// Index of option `id` among `infos`.
pub fn index_of(infos: &Vec<OptionInfo>, id: NodeId) -> (r: Option<usize>)
    ensures
        match r {
            Some(i) => index_of_spec(infos@, id) == Some(i as int),
            None => index_of_spec(infos@, id) is None,
        },
        match r {
            Some(i) => i < infos@.len() && infos@[i as int].id == id && forall|j: int|
                0 <= j < i ==> (#[trigger] infos@[j]).id != id,
            None => forall|j: int| 0 <= j < infos@.len() ==> (#[trigger] infos@[j]).id != id,
        },
{
    let mut i: usize = 0;
    while i < infos.len()
        invariant
            i <= infos@.len(),
            forall|j: int| 0 <= j < i ==> (#[trigger] infos@[j]).id != id,
        decreases infos.len() - i,
    {
        if infos[i].id == id {
            proof {
                lemma_first_true(infos@.map_values(|o: OptionInfo| o.id == id), i as int);
            }
            return Some(i);
        }
        i = i + 1;
    }
    None
}

/// The selection a range extend from anchor `a` to target `t` leaves:
/// every enabled option between them (inclusive) selected, every other
/// enabled option deselected, disabled options untouched.
pub open spec fn in_range(a: int, t: int, i: int) -> bool {
    if a <= t {
        a <= i <= t
    } else {
        t <= i <= a
    }
}

/// Shift-extend: select the enabled options from the anchor to option
/// `t` (inclusive) and deselect the other enabled ones. Without an
/// anchor, the anchor is first set on the highlighted option, or on
/// `t` itself when nothing is highlighted.
pub fn extend_selection_to(select: &mut Node, t: usize)
    requires
        t < infos_of(*old(select)).len(),
    ensures
        infos_of(*final(select)) =~= extend_infos(infos_of(*old(select)), t as int),
        same_select(*old(select), *final(select)),
        infos_of(*final(select)).len() == infos_of(*old(select)).len(),
        ({
            let o = infos_of(*old(select));
            let a = extend_anchor(o, t as int);
            forall|i: int|
                0 <= i < o.len() ==> (#[trigger] infos_of(*final(select))[i]) == (OptionInfo {
                    selected: if o[i].disabled {
                        o[i].selected
                    } else {
                        in_range(a, t as int, i)
                    },
                    anchor: if anchor_index(o) is Some {
                        o[i].anchor
                    } else {
                        i == a
                    },
                    default_selected: captured(o[i]),
                    ..o[i]
                })
        }),
{
    let infos0 = option_infos(select);
    let a = match first_flag(&infos0, 2) {
        Some(a) => a,
        None => {
            let a = match first_flag(&infos0, 1) {
                Some(h) => h,
                None => t,
            };
            set_marker(select, 2, Some(a));
            a
        },
    };
    let infos = option_infos(select);
    assert(a as int == extend_anchor(infos0@, t as int));
    assert(infos@.len() == infos0@.len());
    assert(forall|i: int| 0 <= i < infos@.len() ==> #[trigger] infos@[i] == (if anchor_index(infos0@) is Some {
        infos0@[i]
    } else {
        OptionInfo { anchor: i == a, ..infos0@[i] }
    }));
    let (lo, hi) = if a <= t {
        (a, t)
    } else {
        (t, a)
    };
    let mut ws: Vec<OptionWrite> = Vec::new();
    let mut i: usize = 0;
    while i < infos.len()
        invariant
            i <= infos@.len(),
            ws@.len() == i,
            lo <= hi,
            forall|j: int|
                0 <= j < i ==> #[trigger] ws@[j] == (OptionWrite {
                    selected: if infos@[j].disabled {
                        infos@[j].selected
                    } else {
                        lo <= j <= hi
                    },
                    capture_default: true,
                    ..keep(infos@[j])
                }),
        decreases infos.len() - i,
    {
        let o = infos[i];
        let sel = if o.disabled {
            o.selected
        } else {
            lo <= i && i <= hi
        };
        ws.push(OptionWrite { selected: sel, highlight: o.highlight, anchor: o.anchor, capture_default: true });
        i = i + 1;
    }
    apply(select, &infos, &ws);
}

/// The anchor a range extend to `t` uses.
pub open spec fn extend_anchor(infos: Seq<OptionInfo>, t: int) -> int {
    match anchor_index(infos) {
        Some(a) => a,
        None => match highlight_index(infos) {
            Some(h) => h,
            None => t,
        },
    }
}

/// Ctrl+A: select every enabled option.
pub fn select_all(select: &mut Node)
    ensures
        infos_of(*final(select)) =~= select_all_infos(infos_of(*old(select))),
        same_select(*old(select), *final(select)),
        infos_of(*final(select)).len() == infos_of(*old(select)).len(),
        forall|i: int|
            0 <= i < infos_of(*old(select)).len() ==> (#[trigger] infos_of(*final(select))[i]) == (OptionInfo {
                selected: infos_of(*old(select))[i].selected || !infos_of(*old(select))[i].disabled,
                ..infos_of(*old(select))[i]
            }),
{
    let infos = option_infos(select);
    let mut ws: Vec<OptionWrite> = Vec::new();
    let mut i: usize = 0;
    while i < infos.len()
        invariant
            i <= infos@.len(),
            ws@.len() == i,
            forall|j: int|
                0 <= j < i ==> #[trigger] ws@[j] == (OptionWrite {
                    selected: infos@[j].selected || !infos@[j].disabled,
                    ..keep(infos@[j])
                }),
        decreases infos.len() - i,
    {
        let o = infos[i];
        ws.push(OptionWrite { selected: o.selected || !o.disabled, highlight: o.highlight, anchor: o.anchor, capture_default: false });
        i = i + 1;
    }
    apply(select, &infos, &ws);
}

} // verus!
