use rdom_tui::dom::{Dom, Node, NodeId};
use rdom_tui::events::{KeyboardEvent, Modifiers};
use rdom_tui::path::{node_by_id, node_by_id_mut};
use rdom_tui::toggle::{
    activation_target, arrow_direction, closest_toggle, fires_input_change, move_focus_within_group, pre_activate,
    radio_group, revert, space_activates, ToggleUndo,
};

fn el(dom: &mut Dom, tag: &str, attrs: &[(&str, &str)]) -> Node {
    let mut n = dom.create_element(tag);
    for (k, v) in attrs {
        n.set_attribute(k, v);
    }
    n
}

fn checked(dom: &Dom, id: NodeId) -> bool {
    node_by_id(&dom.root, id).unwrap().has_attribute("checked")
}

fn checkbox_dom(on: bool) -> (Dom, NodeId) {
    let mut dom = Dom::new();
    let cb = if on {
        el(&mut dom, "input", &[("type", "checkbox"), ("checked", "")])
    } else {
        el(&mut dom, "input", &[("type", "checkbox")])
    };
    let id = cb.id;
    dom.root.append_child(cb);
    (dom, id)
}

/// Three radios named `g`, with ids `r0`..`r2`.
fn radio_group_dom() -> (Dom, [NodeId; 3]) {
    let mut dom = Dom::new();
    let mut ids = [0u64; 3];
    for (i, slot) in ids.iter_mut().enumerate() {
        let r = el(&mut dom, "input", &[("type", "radio"), ("name", "g"), ("id", &format!("r{i}"))]);
        *slot = r.id;
        dom.root.append_child(r);
    }
    (dom, ids)
}

/// A click on `target` as the default actions run it: the widget it
/// activates flips before listeners see the click and is reverted when
/// `prevented`. Returns whether `input` and `change` fire.
fn click(dom: &mut Dom, target: NodeId, prevented: bool) -> bool {
    match activation_target(&dom.root, target) {
        Some(w) => {
            let undo = pre_activate(dom, w);
            if prevented {
                revert(dom, w, undo);
            }
            fires_input_change(undo, prevented)
        }
        None => false,
    }
}

fn key(k: &str, m: Modifiers) -> KeyboardEvent {
    KeyboardEvent::new(k, m)
}

/// Space or an arrow on the focused radio or checkbox, as the defaults
/// run it.
fn press(dom: &mut Dom, k: &str, m: Modifiers) {
    let f = dom.focused.unwrap();
    let n = node_by_id(&dom.root, f).unwrap();
    if space_activates(n, &key(k, m), false) {
        click(dom, f, false);
    } else if let Some(d) = arrow_direction(n, &key(k, m), false) {
        move_focus_within_group(dom, f, d);
    }
}

fn radios(dom: &mut Dom, name: &str, n: usize) -> Vec<NodeId> {
    let mut ids = Vec::new();
    for _ in 0..n {
        let r = el(dom, "input", &[("type", "radio"), ("name", name)]);
        ids.push(r.id);
        dom.root.append_child(r);
    }
    ids
}

#[test]
fn click_on_checkbox_toggles_checked_attribute() {
    let (mut dom, cb) = checkbox_dom(false);
    assert!(!checked(&dom, cb));
    click(&mut dom, cb, false);
    assert!(checked(&dom, cb));
    click(&mut dom, cb, false);
    assert!(!checked(&dom, cb));
}

#[test]
fn prevent_default_on_click_blocks_checkbox_toggle() {
    let (mut dom, cb) = checkbox_dom(false);
    click(&mut dom, cb, true);
    assert!(!checked(&dom, cb));
}

#[test]
fn initially_checked_checkbox_unchecks_on_click() {
    let (mut dom, cb) = checkbox_dom(false);
    node_by_id_mut(&mut dom.root, cb).unwrap().set_attribute("checked", "");
    click(&mut dom, cb, false);
    assert!(!checked(&dom, cb));
}

#[test]
fn space_on_focused_checkbox_toggles() {
    let (mut dom, cb) = checkbox_dom(false);
    dom.focused = Some(cb);
    press(&mut dom, " ", Modifiers::none());
    assert!(checked(&dom, cb));
}

#[test]
fn enter_on_focused_checkbox_does_not_toggle() {
    let (mut dom, cb) = checkbox_dom(false);
    dom.focused = Some(cb);
    press(&mut dom, "Enter", Modifiers::none());
    assert!(!checked(&dom, cb));
}

#[test]
fn ctrl_space_does_not_toggle_checkbox() {
    let (mut dom, cb) = checkbox_dom(false);
    dom.focused = Some(cb);
    press(&mut dom, " ", Modifiers { shift: false, ctrl: true, alt: false, meta: false });
    assert!(!checked(&dom, cb));
}

#[test]
fn click_on_radio_checks_it_and_unchecks_siblings() {
    let (mut dom, [r1, r2, r3]) = radio_group_dom();
    node_by_id_mut(&mut dom.root, r1).unwrap().set_attribute("checked", "");
    dom.focused = Some(r2);
    press(&mut dom, " ", Modifiers::none());
    assert!(!checked(&dom, r1));
    assert!(checked(&dom, r2));
    assert!(!checked(&dom, r3));
}

#[test]
fn a_cancelled_radio_click_restores_the_previous_member() {
    let mut dom = Dom::new();
    let ids = radios(&mut dom, "g", 3);
    pre_activate(&mut dom, ids[0]);
    let undo = pre_activate(&mut dom, ids[2]);
    assert_eq!(undo, ToggleUndo::Radio { previously_checked: Some(ids[0]) });
    revert(&mut dom, ids[2], undo);
    assert!(checked(&dom, ids[0]));
    assert!(!checked(&dom, ids[2]));
}

#[test]
fn re_clicking_already_checked_radio_is_noop() {
    let (mut dom, [r1, _, _]) = radio_group_dom();
    node_by_id_mut(&mut dom.root, r1).unwrap().set_attribute("checked", "");
    let fired = click(&mut dom, r1, false);
    assert!(checked(&dom, r1));
    assert!(!fired, "no change event when state didn't change");
}

#[test]
fn radio_groups_with_different_names_are_independent() {
    let (mut dom, [r1, _, _]) = radio_group_dom();
    let other = el(&mut dom, "input", &[("type", "radio"), ("name", "other"), ("checked", "")]);
    let r_other = other.id;
    dom.root.append_child(other);
    click(&mut dom, r1, false);
    assert!(checked(&dom, r1));
    assert!(checked(&dom, r_other));
    let n = node_by_id(&dom.root, r1).unwrap();
    assert_eq!(radio_group(&dom.root, n).len(), 3);
}

#[test]
fn down_arrow_moves_focus_to_next_radio_in_group() {
    let (mut dom, [r1, r2, _]) = radio_group_dom();
    dom.focused = Some(r1);
    press(&mut dom, "ArrowDown", Modifiers::none());
    assert_eq!(dom.focused, Some(r2));
}

#[test]
fn right_arrow_also_moves_to_next_radio() {
    let (mut dom, [r1, r2, _]) = radio_group_dom();
    dom.focused = Some(r1);
    press(&mut dom, "ArrowRight", Modifiers::none());
    assert_eq!(dom.focused, Some(r2));
}

#[test]
fn up_arrow_moves_focus_to_previous_radio_in_group() {
    let (mut dom, [r1, r2, _]) = radio_group_dom();
    dom.focused = Some(r2);
    press(&mut dom, "ArrowUp", Modifiers::none());
    assert_eq!(dom.focused, Some(r1));
}

#[test]
fn down_arrow_at_last_radio_wraps_to_first() {
    let (mut dom, [r1, _, r3]) = radio_group_dom();
    dom.focused = Some(r3);
    press(&mut dom, "ArrowDown", Modifiers::none());
    assert_eq!(dom.focused, Some(r1));
}

#[test]
fn up_arrow_at_first_radio_wraps_to_last() {
    let (mut dom, [r1, _, r3]) = radio_group_dom();
    dom.focused = Some(r1);
    press(&mut dom, "ArrowUp", Modifiers::none());
    assert_eq!(dom.focused, Some(r3));
}

#[test]
fn arrow_with_modifier_does_not_navigate() {
    let (mut dom, [r1, _, _]) = radio_group_dom();
    dom.focused = Some(r1);
    press(&mut dom, "ArrowDown", Modifiers { shift: true, ctrl: false, alt: false, meta: false });
    assert_eq!(dom.focused, Some(r1));
}

#[test]
fn arrow_on_radio_without_name_is_noop() {
    let mut dom = Dom::new();
    let r = el(&mut dom, "input", &[("type", "radio")]);
    let id = r.id;
    dom.root.append_child(r);
    dom.focused = Some(id);
    press(&mut dom, "ArrowDown", Modifiers::none());
    assert_eq!(dom.focused, Some(id));
}

#[test]
fn space_on_focused_radio_selects_it() {
    let (mut dom, [_, r2, _]) = radio_group_dom();
    dom.focused = Some(r2);
    press(&mut dom, " ", Modifiers::none());
    assert!(checked(&dom, r2));
}

#[test]
fn click_on_checkbox_fires_input_then_change() {
    let (mut dom, cb) = checkbox_dom(false);
    assert!(click(&mut dom, cb, false));
}

#[test]
fn disabled_checkbox_does_not_toggle_on_click() {
    let (mut dom, cb) = checkbox_dom(false);
    node_by_id_mut(&mut dom.root, cb).unwrap().set_attribute("disabled", "");
    click(&mut dom, cb, false);
    assert!(!checked(&dom, cb));
}

#[test]
fn a_checkbox_in_a_disabled_fieldset_is_not_activated() {
    let mut dom = Dom::new();
    let mut fs = el(&mut dom, "fieldset", &[("disabled", "")]);
    let cb = el(&mut dom, "input", &[("type", "checkbox")]);
    let id = cb.id;
    fs.append_child(cb);
    dom.root.append_child(fs);
    assert_eq!(activation_target(&dom.root, id), None);
    assert_eq!(closest_toggle(&dom.root, id), Some(id));
}

#[test]
fn closest_toggle_walks_up_from_the_target() {
    let mut dom = Dom::new();
    let mut label = el(&mut dom, "span", &[]);
    let cb = el(&mut dom, "input", &[("type", "checkbox")]);
    let (l, c) = (label.id, cb.id);
    label.append_child(cb);
    dom.root.append_child(label);
    assert_eq!(closest_toggle(&dom.root, c), Some(c));
    assert_eq!(closest_toggle(&dom.root, l), None);
}

#[test]
fn input_and_change_fire_only_after_an_uncancelled_state_change() {
    assert!(fires_input_change(ToggleUndo::Checkbox, false));
    assert!(fires_input_change(ToggleUndo::Radio { previously_checked: None }, false));
    assert!(!fires_input_change(ToggleUndo::Nothing, false));
    assert!(!fires_input_change(ToggleUndo::Checkbox, true));
    assert!(!fires_input_change(ToggleUndo::Radio { previously_checked: Some(3) }, true));
}

#[test]
fn revert_of_a_radio_restores_the_previously_checked_one() {
    let (mut dom, ids) = radio_group_dom();
    node_by_id_mut(&mut dom.root, ids[0]).unwrap().set_attribute("checked", "");
    let undo = pre_activate(&mut dom, ids[1]);
    assert_eq!(undo, ToggleUndo::Radio { previously_checked: Some(ids[0]) });
    assert!(checked(&dom, ids[1]) && !checked(&dom, ids[0]));
    revert(&mut dom, ids[1], undo);
    assert!(checked(&dom, ids[0]));
    assert!(!checked(&dom, ids[1]));
    assert!(!checked(&dom, ids[2]));
}

#[test]
fn activating_a_radio_leaves_one_checked_member_even_across_nesting() {
    let mut dom = Dom::new();
    let mut outer = el(&mut dom, "div", &[]);
    let a = el(&mut dom, "input", &[("type", "radio"), ("name", "g"), ("checked", "")]);
    let mut inner = el(&mut dom, "div", &[]);
    let b = el(&mut dom, "input", &[("type", "radio"), ("name", "g"), ("checked", "")]);
    let c = el(&mut dom, "input", &[("type", "radio"), ("name", "g")]);
    let other = el(&mut dom, "input", &[("type", "radio"), ("name", "h"), ("checked", "")]);
    let (ia, ib, ic, io) = (a.id, b.id, c.id, other.id);
    inner.append_child(b);
    inner.append_child(c);
    outer.append_child(a);
    outer.append_child(inner);
    outer.append_child(other);
    dom.root.append_child(outer);
    click(&mut dom, ic, false);
    assert!(checked(&dom, ic));
    assert!(!checked(&dom, ia));
    assert!(!checked(&dom, ib));
    assert!(checked(&dom, io));
}
