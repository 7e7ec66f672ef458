//! Keyboard handling for a focused `<select>`: Up / Down stepping
//! (selection in a single-select, highlight in a multi-select,
//! shift-extend), Home / End, Space toggle, Ctrl+A select-all, and
//! Enter / Escape drop-down open / close. Printable characters go to
//! type-ahead.

use vstd::prelude::*;
use crate::dom::Node;
use crate::events::KeyboardEvent;
use crate::select::model::{OptionInfo, infos_of, is_multi, option_infos};
use crate::select::state::{
    anchor_index, extend_infos, extend_selection_to, first_enabled, first_flag, first_selected,
    highlight_index, last_enabled, last_enabled_index, marker_infos, same_select, select_all,
    select_all_infos, select_single, set_marker, single_infos, toggle_infos, toggle_option,
};
use crate::text::{first_true, last_true, lemma_first_true, lemma_last_true};

verus! {

/// Where keyboard navigation starts: the highlighted option, else the
/// first selected option, else the first option that is not disabled.
pub open spec fn nav_current(o: Seq<OptionInfo>) -> Option<int> {
    match highlight_index(o) {
        Some(h) => Some(h),
        None => match first_selected(o) {
            Some(s) => Some(s),
            None => first_enabled(o),
        },
    }
}

/// The nearest option after (`down`) or before `c` that is not
/// disabled; no wrapping.
pub open spec fn next_enabled(o: Seq<OptionInfo>, c: int, down: bool) -> Option<int> {
    if down {
        first_true(Seq::new(o.len(), |i: int| i > c && !o[i].disabled))
    } else {
        last_true(Seq::new(o.len(), |i: int| i < c && !o[i].disabled))
    }
}

/// The infos after one Up / Down step, and whether `input` + `change`
/// fire.
pub open spec fn step_infos(o: Seq<OptionInfo>, down: bool, multi: bool, shift: bool) -> (Seq<OptionInfo>, bool) {
    match nav_current(o) {
        None => (o, false),
        Some(cur) => match next_enabled(o, cur, down) {
            None => (o, false),
            Some(next) => if multi {
                if shift {
                    let o1 = if anchor_index(o) is None {
                        marker_infos(o, 2, Some(cur))
                    } else {
                        o
                    };
                    (extend_infos(marker_infos(o1, 1, Some(next)), next), true)
                } else {
                    (marker_infos(marker_infos(o, 1, Some(next)), 2, None), true)
                }
            } else {
                (single_infos(marker_infos(o, 1, Some(next)), next), true)
            },
        },
    }
}

/// The infos after Home (`home`) or End, and whether events fire.
pub open spec fn jump_infos(o: Seq<OptionInfo>, home: bool, multi: bool, shift: bool) -> (Seq<OptionInfo>, bool) {
    let target = if home {
        first_enabled(o)
    } else {
        last_enabled(o)
    };
    match target {
        None => (o, false),
        Some(t) => {
            let o1 = marker_infos(o, 1, Some(t));
            if multi {
                if shift {
                    (extend_infos(o1, t), true)
                } else {
                    (marker_infos(o1, 2, None), true)
                }
            } else {
                (single_infos(o1, t), true)
            }
        },
    }
}

/// The infos after Space in a multi-select, and whether events fire.
pub open spec fn space_infos(o: Seq<OptionInfo>) -> (Seq<OptionInfo>, bool) {
    match highlight_index(o) {
        None => (o, false),
        Some(h) => if o[h].disabled {
            (o, false)
        } else {
            (toggle_infos(o, h), true)
        },
    }
}

fn next_enabled_index(o: &Vec<OptionInfo>, c: usize, down: bool) -> (r: Option<usize>)
    requires
        c < o@.len(),
    ensures
        match r {
            Some(i) => next_enabled(o@, c as int, down) == Some(i as int) && i < o@.len(),
            None => next_enabled(o@, c as int, down) is None,
        },
{
    if down {
        let ghost s = Seq::new(o@.len(), |i: int| i > c && !o@[i].disabled);
        assert(s =~= Seq::new(o@.len(), |i: int| i > (c as int) && !o@[i].disabled));
        assert(next_enabled(o@, c as int, down) == first_true(s));
        assert(c < o.len());
        let mut i: usize = c + 1;
        while i < o.len()
            invariant
                c < i <= o@.len(),
                s == Seq::new(o@.len(), |k: int| k > c && !o@[k].disabled),
                next_enabled(o@, c as int, down) == first_true(s),
                forall|j: int| 0 <= j < i ==> !s[j],
            decreases o.len() - i,
        {
            if !o[i].disabled {
                proof {
                    lemma_first_true(s, i as int);
                }
                return Some(i);
            }
            i = i + 1;
        }
        assert(!(exists|j: int| 0 <= j < s.len() && s[j]));
        None
    } else {
        let ghost s = Seq::new(o@.len(), |i: int| i < c && !o@[i].disabled);
        assert(s =~= Seq::new(o@.len(), |i: int| i < (c as int) && !o@[i].disabled));
        assert(next_enabled(o@, c as int, down) == last_true(s));
        let mut i: usize = c;
        while i > 0
            invariant
                i <= c < o@.len(),
                s == Seq::new(o@.len(), |k: int| k < c && !o@[k].disabled),
                next_enabled(o@, c as int, down) == last_true(s),
                forall|j: int| i <= j < o@.len() ==> !s[j],
            decreases i,
        {
            i = i - 1;
            if !o[i].disabled {
                proof {
                    lemma_last_true(s, i as int);
                }
                return Some(i);
            }
        }
        assert(!(exists|j: int| 0 <= j < s.len() && s[j]));
        None
    }
}

fn nav_current_index(o: &Vec<OptionInfo>) -> (r: Option<usize>)
    ensures
        match r {
            Some(i) => nav_current(o@) == Some(i as int) && i < o@.len(),
            None => nav_current(o@) is None,
        },
{
    match first_flag(o, 1) {
        Some(h) => Some(h),
        None => match first_flag(o, 0) {
            Some(s) => Some(s),
            None => first_flag(o, 3),
        },
    }
}

/// Move the navigation cursor one step down (`down`) or up. In a
/// single-select the selection itself moves; in a multi-select only
/// the highlight moves, and with Shift the selection extends from the
/// anchor. Returns whether `input` + `change` fire.
pub fn step_navigation(select: &mut Node, down: bool, multi: bool, shift: bool) -> (fired: bool)
    ensures
        same_select(*old(select), *final(select)),
        (infos_of(*final(select)), fired) == step_infos(infos_of(*old(select)), down, multi, shift),
{
    let o = option_infos(select);
    let cur = match nav_current_index(&o) {
        Some(c) => c,
        None => return false,
    };
    let next = match next_enabled_index(&o, cur, down) {
        Some(n) => n,
        None => return false,
    };
    if multi {
        if shift {
            if first_flag(&o, 2).is_none() {
                set_marker(select, 2, Some(cur));
            }
            set_marker(select, 1, Some(next));
            extend_selection_to(select, next);
        } else {
            set_marker(select, 1, Some(next));
            set_marker(select, 2, None);
        }
    } else {
        set_marker(select, 1, Some(next));
        select_single(select, next);
    }
    true
}

/// Home / End: move to the first / last option that is not disabled.
pub fn jump_to_end(select: &mut Node, home: bool, multi: bool, shift: bool) -> (fired: bool)
    ensures
        same_select(*old(select), *final(select)),
        (infos_of(*final(select)), fired) == jump_infos(infos_of(*old(select)), home, multi, shift),
{
    let o = option_infos(select);
    let target = if home {
        first_flag(&o, 3)
    } else {
        last_enabled_index(&o)
    };
    let t = match target {
        Some(t) => t,
        None => return false,
    };
    set_marker(select, 1, Some(t));
    if multi {
        if shift {
            extend_selection_to(select, t);
        } else {
            set_marker(select, 2, None);
        }
    } else {
        select_single(select, t);
    }
    true
}

/// Space in a multi-select: toggle the highlighted option unless it is
/// disabled.
pub fn toggle_highlighted(select: &mut Node) -> (fired: bool)
    ensures
        same_select(*old(select), *final(select)),
        (infos_of(*final(select)), fired) == space_infos(infos_of(*old(select))),
{
    let o = option_infos(select);
    let h = match first_flag(&o, 1) {
        Some(h) => h,
        None => return false,
    };
    if o[h].disabled {
        return false;
    }
    toggle_option(select, h);
    true
}

/// What a key press on a focused, enabled `<select>` does.
#[derive(Clone, Copy, Debug, PartialEq, Eq, Structural)]
pub enum KeyAction {
    StepUp,
    StepDown,
    Home,
    End,
    ToggleHighlighted,
    SelectAll,
    Close,
    ToggleOpen,
    TypeAhead(char),
    Nothing,
}

/// `char::is_control`: general category Cc.
pub open spec fn is_control(c: char) -> bool {
    c <= '\u{1F}' || ('\u{7F}' <= c && c <= '\u{9F}')
}

/// The single printable character a `KeyboardEvent.key` names, if any:
/// `None` for named keys, multi-character strings and control
/// characters.
pub open spec fn printable_char(key: Seq<char>) -> Option<char> {
    if key.len() == 1 && !is_control(key[0]) {
        Some(key[0])
    } else {
        None
    }
}

/// `single_printable_char`: decode `key` into a single printable
/// character.
pub fn single_printable_char(key: &str) -> (r: Option<char>)
    ensures
        r == printable_char(key@),
{
    let cs = crate::text::chars_of(key);
    if cs.len() != 1 {
        return None;
    }
    let c = cs[0];
    if c <= '\u{1F}' || ('\u{7F}' <= c && c <= '\u{9F}') {
        return None;
    }
    Some(c)
}

pub open spec fn classify(
    key: Seq<char>,
    shift: bool,
    ctrl: bool,
    alt: bool,
    meta: bool,
    multi: bool,
    dropdown: bool,
    open: bool,
) -> KeyAction {
    let c = ctrl || meta;
    let no_mods = !ctrl && !shift && !alt && !meta;
    if (key == "ArrowUp"@ || key == "ArrowDown"@) && !c && !alt {
        if key == "ArrowDown"@ {
            KeyAction::StepDown
        } else {
            KeyAction::StepUp
        }
    } else if key == "Home"@ {
        KeyAction::Home
    } else if key == "End"@ {
        KeyAction::End
    } else if key == " "@ && multi && !c {
        KeyAction::ToggleHighlighted
    } else if (key == "a"@ || key == "A"@) && multi && c {
        KeyAction::SelectAll
    } else if key == "Escape"@ && no_mods && dropdown && open {
        KeyAction::Close
    } else if key == "Enter"@ && no_mods && dropdown {
        KeyAction::ToggleOpen
    } else if !c && !alt && key != " "@ {
        match printable_char(key) {
            Some(ch) => KeyAction::TypeAhead(ch),
            None => KeyAction::Nothing,
        }
    } else {
        KeyAction::Nothing
    }
}

/// Decide what `key` does on `select`.
pub fn classify_key(select: &Node, key: &KeyboardEvent) -> (r: KeyAction)
    ensures
        r == classify(
            key.key@,
            key.modifiers.shift,
            key.modifiers.ctrl,
            key.modifiers.alt,
            key.modifiers.meta,
            select.has_attr("multiple"@),
            crate::select::dropdown::is_dropdown_spec(*select),
            select.has_attr(crate::select::dropdown::open_name()),
        ),
{
    let m = key.modifiers;
    let multi = is_multi(select);
    let c = m.ctrl || m.meta;
    let no_mods = !m.ctrl && !m.shift && !m.alt && !m.meta;
    if (key.is("ArrowUp") || key.is("ArrowDown")) && !c && !m.alt {
        if key.is("ArrowDown") {
            KeyAction::StepDown
        } else {
            KeyAction::StepUp
        }
    } else if key.is("Home") {
        KeyAction::Home
    } else if key.is("End") {
        KeyAction::End
    } else if key.is(" ") && multi && !c {
        KeyAction::ToggleHighlighted
    } else if (key.is("a") || key.is("A")) && multi && c {
        KeyAction::SelectAll
    } else if key.is("Escape") && no_mods && crate::select::dropdown::is_dropdown(select)
        && crate::select::dropdown::is_open(select) {
        KeyAction::Close
    } else if key.is("Enter") && no_mods && crate::select::dropdown::is_dropdown(select) {
        KeyAction::ToggleOpen
    } else if !c && !m.alt && !key.is(" ") {
        match single_printable_char(key.key.as_str()) {
            Some(ch) => KeyAction::TypeAhead(ch),
            None => KeyAction::Nothing,
        }
    } else {
        KeyAction::Nothing
    }
}

} // verus!

verus! {

/// The `keydown` default action on a focused `<select>`. A disabled
/// select or a non-select ignores every key. Returns whether `input` +
/// `change` fire on the select.
pub fn on_keydown(select: &mut Node, key: &KeyboardEvent, now: u64) -> (fired: bool)
    ensures
        !old(select).is_element("select"@) || old(select).has_attr("disabled"@) ==> *final(select) == *old(select)
            && !fired,
        old(select).is_element("select"@) && !old(select).has_attr("disabled"@) ==> {
            let o = infos_of(*old(select));
            let multi = old(select).has_attr("multiple"@);
            let shift = key.modifiers.shift;
            let action = classify(
                key.key@,
                key.modifiers.shift,
                key.modifiers.ctrl,
                key.modifiers.alt,
                key.modifiers.meta,
                multi,
                crate::select::dropdown::is_dropdown_spec(*old(select)),
                old(select).has_attr(crate::select::dropdown::open_name()),
            );
            match action {
                KeyAction::StepUp => same_select(*old(select), *final(select)) && (infos_of(*final(select)), fired)
                    == step_infos(o, false, multi, shift),
                KeyAction::StepDown => same_select(*old(select), *final(select)) && (infos_of(*final(select)), fired)
                    == step_infos(o, true, multi, shift),
                KeyAction::Home => same_select(*old(select), *final(select)) && (infos_of(*final(select)), fired)
                    == jump_infos(o, true, multi, shift),
                KeyAction::End => same_select(*old(select), *final(select)) && (infos_of(*final(select)), fired)
                    == jump_infos(o, false, multi, shift),
                KeyAction::ToggleHighlighted => same_select(*old(select), *final(select)) && (
                infos_of(*final(select)), fired) == space_infos(o),
                KeyAction::SelectAll => same_select(*old(select), *final(select)) && infos_of(*final(select))
                    == select_all_infos(o) && fired,
                KeyAction::Close => final(select).same_but_attrs(old(select)) && !final(select).has_attr(
                    crate::select::dropdown::open_name(),
                ) && !fired,
                KeyAction::ToggleOpen => final(select).same_but_attrs(old(select)) && final(select).has_attr(
                    crate::select::dropdown::open_name(),
                ) != old(select).has_attr(crate::select::dropdown::open_name()) && !fired,
                KeyAction::TypeAhead(c) => {
                    let lc = crate::text::ascii_lower(c);
                    let (query, cycle) = crate::select::typeahead::buffer_after(
                        crate::select::typeahead::state_view(old(select).ext.typeahead),
                        lc,
                        now,
                    );
                    &&& final(select).id == old(select).id
                    &&& final(select).node_type == old(select).node_type
                    &&& final(select).tag@ == old(select).tag@
                    &&& final(select).attrs == old(select).attrs
                    &&& final(select).ext == (crate::dom::NodeExt {
                        typeahead: final(select).ext.typeahead,
                        ..old(select).ext
                    })
                    &&& o.len() == 0 ==> *final(select) == *old(select) && !fired
                    &&& o.len() > 0 ==> {
                        &&& crate::select::typeahead::state_view(final(select).ext.typeahead) == Some((query, now))
                        &&& match crate::select::typeahead::typeahead_target(
                            o,
                            crate::select::typeahead::labels_of(*old(select)),
                            query,
                            cycle,
                            lc,
                        ) {
                            Some(t) => infos_of(*final(select)) =~= crate::select::typeahead::landed_infos(o, t, multi)
                                && fired,
                            None => infos_of(*final(select)) =~= o && !fired,
                        }
                    }
                },
                KeyAction::Nothing => *final(select) == *old(select) && !fired,
            }
        },
{
    if !select.has_tag("select") || select.has_attribute("disabled") {
        return false;
    }
    let multi = is_multi(select);
    let shift = key.modifiers.shift;
    match classify_key(select, key) {
        KeyAction::StepUp => step_navigation(select, false, multi, shift),
        KeyAction::StepDown => step_navigation(select, true, multi, shift),
        KeyAction::Home => jump_to_end(select, true, multi, shift),
        KeyAction::End => jump_to_end(select, false, multi, shift),
        KeyAction::ToggleHighlighted => toggle_highlighted(select),
        KeyAction::SelectAll => {
            select_all(select);
            true
        },
        KeyAction::Close => {
            crate::select::dropdown::close(select);
            false
        },
        KeyAction::ToggleOpen => {
            if crate::select::dropdown::is_open(select) {
                crate::select::dropdown::close(select);
            } else {
                crate::select::dropdown::open(select);
            }
            false
        },
        KeyAction::TypeAhead(c) => crate::select::typeahead::typeahead_search(select, c, multi, now),
        KeyAction::Nothing => false,
    }
}

} // verus!
