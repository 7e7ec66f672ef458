use rdom_tui::dialog::{close, enclosing_dialog, escape_target, is_modal, return_value, set_return_value, show, show_modal};
use rdom_tui::dom::{Dom, NodeId};
use rdom_tui::events::{KeyboardEvent, Modifiers, ToggleChange};
use rdom_tui::form::{click_action, finish_submit, FormClick};
use rdom_tui::path::{node_by_id, node_by_id_mut};

/// <dialog><button autofocus>OK</button></dialog> and a sibling input.
fn dialog_dom() -> (Dom, NodeId, NodeId, NodeId) {
    let mut dom = Dom::new();
    let mut d = dom.create_element("dialog");
    let mut b = dom.create_element("button");
    b.set_attribute("autofocus", "");
    let t = dom.create_text_node("OK");
    b.append_child(t);
    let outside = dom.create_element("input");
    let ids = (d.id, b.id, outside.id);
    d.append_child(b);
    dom.root.append_child(d);
    dom.root.append_child(outside);
    (dom, ids.0, ids.1, ids.2)
}

/// A bare `<dialog>` under the root.
fn dialog_app() -> (Dom, NodeId) {
    let mut dom = Dom::new();
    let d = dom.create_element("dialog");
    let id = d.id;
    dom.root.append_child(d);
    (dom, id)
}

fn dlg(dom: &mut Dom, id: NodeId) -> &mut rdom_tui::dom::Node {
    node_by_id_mut(&mut dom.root, id).unwrap()
}

fn is_open(dom: &Dom, id: NodeId) -> bool {
    node_by_id(&dom.root, id).unwrap().has_attribute("open")
}

/// Escape on the focused node as the defaults run it: `cancel` at the
/// modal dialog it is in, then, unless cancelled, the dialog closes.
fn press_esc(dom: &mut Dom, key: &KeyboardEvent, cancel_prevented: bool) -> Option<NodeId> {
    let d = escape_target(&dom.root, dom.focused, key, false)?;
    if !cancel_prevented {
        close(dlg(dom, d), "");
    }
    Some(d)
}

fn esc() -> KeyboardEvent {
    KeyboardEvent::new("Escape", Modifiers::none())
}

#[test]
fn show_sets_open_attribute() {
    let (mut dom, d) = dialog_app();
    show(dlg(&mut dom, d));
    assert!(is_open(&dom, d));
    assert!(!is_modal(dlg(&mut dom, d)));
}

#[test]
fn show_modal_focuses_the_autofocus_descendant() {
    let (mut dom, d, b, _) = dialog_dom();
    assert!(show_modal(&mut dom, d));
    assert_eq!(dom.focused, Some(b));
}

#[test]
fn show_modal_sets_open_and_modal_marker() {
    let (mut dom, d) = dialog_app();
    show_modal(&mut dom, d);
    assert!(is_open(&dom, d));
    assert!(is_modal(dlg(&mut dom, d)));
}

#[test]
fn show_after_show_modal_clears_modal_marker() {
    let (mut dom, d) = dialog_app();
    show_modal(&mut dom, d);
    show(dlg(&mut dom, d));
    assert!(is_open(&dom, d));
    assert!(!is_modal(dlg(&mut dom, d)));
}

#[test]
fn close_clears_open_attribute_and_stores_return_value() {
    let (mut dom, d) = dialog_app();
    show(dlg(&mut dom, d));
    close(dlg(&mut dom, d), "ok");
    assert!(!is_open(&dom, d));
    assert_eq!(return_value(dlg(&mut dom, d)), "ok");
}

#[test]
fn close_on_already_closed_dialog_is_noop() {
    let (mut dom, d) = dialog_app();
    let mut fired = 0u32;
    if close(dlg(&mut dom, d), "x") {
        fired += 1;
    }
    assert_eq!(fired, 0);
    assert_eq!(return_value(dlg(&mut dom, d)), "");
}

#[test]
fn set_return_value_does_not_close() {
    let (mut dom, d, _, _) = dialog_dom();
    let n = node_by_id_mut(&mut dom.root, d).unwrap();
    show(n);
    set_return_value(n, "later");
    assert!(n.has_attribute("open"));
    assert_eq!(return_value(n), "later");
}

#[test]
fn esc_in_modal_dialog_fires_cancel_then_closes() {
    let (mut dom, d) = dialog_app();
    show_modal(&mut dom, d);
    dom.focused = Some(d);
    let mut order = Vec::new();
    if let Some(target) = escape_target(&dom.root, dom.focused, &esc(), false) {
        order.push("cancel");
        if close(dlg(&mut dom, target), "") {
            order.push("close");
        }
    }
    assert_eq!(order, vec!["cancel", "close"]);
    assert!(!is_open(&dom, d));
}

#[test]
fn esc_in_non_modal_dialog_does_nothing() {
    let (mut dom, d) = dialog_app();
    show(dlg(&mut dom, d));
    dom.focused = Some(d);
    assert_eq!(press_esc(&mut dom, &esc(), false), None);
    assert!(is_open(&dom, d));
}

#[test]
fn prevent_default_on_keydown_keeps_modal_dialog_open() {
    let (mut dom, d, b, _) = dialog_dom();
    show_modal(&mut dom, d);
    assert_eq!(escape_target(&dom.root, Some(b), &esc(), true), None);
}

#[test]
fn esc_with_modifier_does_not_trigger_cancel() {
    let (mut dom, d) = dialog_app();
    show_modal(&mut dom, d);
    dom.focused = Some(d);
    let shift = Modifiers { shift: true, ctrl: false, alt: false, meta: false };
    press_esc(&mut dom, &KeyboardEvent::new("Escape", shift), false);
    assert!(is_open(&dom, d));
}

#[test]
fn esc_outside_any_dialog_does_nothing() {
    let mut dom = Dom::new();
    let p = dom.create_element("p");
    let id = p.id;
    dom.root.append_child(p);
    dom.focused = Some(id);
    assert_eq!(enclosing_dialog(&dom.root, id), None);
    assert_eq!(press_esc(&mut dom, &esc(), false), None);
}


#[test]
fn close_fires_close_event_on_dialog() {
    let (mut dom, d) = dialog_app();
    show(dlg(&mut dom, d));
    let mut fired = 0u32;
    if close(dlg(&mut dom, d), "") {
        fired += 1;
    }
    assert_eq!(fired, 1);
}

#[test]
fn prevent_default_on_cancel_keeps_modal_dialog_open() {
    let (mut dom, d) = dialog_app();
    show_modal(&mut dom, d);
    dom.focused = Some(d);
    assert_eq!(press_esc(&mut dom, &esc(), true), Some(d));
    assert!(is_open(&dom, d));
}

#[test]
fn esc_on_focused_element_inside_modal_dialog_closes_dialog() {
    let mut dom = Dom::new();
    let mut d = dom.create_element("dialog");
    let inner = dom.create_element("button");
    let (did, iid) = (d.id, inner.id);
    d.append_child(inner);
    dom.root.append_child(d);
    show_modal(&mut dom, did);
    dom.focused = Some(iid);
    press_esc(&mut dom, &esc(), false);
    assert!(!is_open(&dom, did));
}

/// `<dialog><form method=?><input type=submit value=?></form></dialog>`.
fn dialog_form(method: Option<&str>, value: Option<&str>) -> (Dom, NodeId, NodeId, NodeId) {
    let mut dom = Dom::new();
    let mut d = dom.create_element("dialog");
    let mut form = dom.create_element("form");
    if let Some(m) = method {
        form.set_attribute("method", m);
    }
    let mut btn = dom.create_element("input");
    btn.set_attribute("type", "submit");
    if let Some(v) = value {
        btn.set_attribute("value", v);
    }
    let ids = (d.id, form.id, btn.id);
    form.append_child(btn);
    d.append_child(form);
    dom.root.append_child(d);
    show_modal(&mut dom, ids.0);
    (dom, ids.0, ids.1, ids.2)
}

/// A click on the submit button and the submission it runs, `submit`
/// cancelled or not.
fn click_submit(dom: &mut Dom, btn: NodeId, canceled: bool) {
    if let FormClick::Submit { form, submitter } = click_action(&dom.root, btn, false) {
        let (_, close_with) = finish_submit(&dom.root, form, Some(submitter), canceled);
        if let Some((d, rv)) = close_with {
            close(dlg(dom, d), &rv);
        }
    }
}

#[test]
fn form_method_dialog_submit_closes_enclosing_dialog_with_button_value() {
    let (mut dom, d, _, btn) = dialog_form(Some("dialog"), Some("confirm"));
    click_submit(&mut dom, btn, false);
    assert!(!is_open(&dom, d));
    assert_eq!(return_value(dlg(&mut dom, d)), "confirm");
}

#[test]
fn form_method_dialog_submit_does_not_close_if_submit_handler_prevents() {
    let (mut dom, d, _, btn) = dialog_form(Some("dialog"), None);
    click_submit(&mut dom, btn, true);
    assert!(is_open(&dom, d));
}

#[test]
fn form_with_method_get_does_not_close_dialog_on_submit() {
    let (mut dom, d, _, btn) = dialog_form(None, None);
    click_submit(&mut dom, btn, false);
    assert!(is_open(&dom, d));
}

#[test]
fn dialog_show_and_close_fire_toggle_events_with_typed_state_transitions() {
    let (mut dom, d) = dialog_app();
    let mut captured = Vec::new();
    if show(dlg(&mut dom, d)) {
        captured.push(ToggleChange { target: d, opened: true });
    }
    if close(dlg(&mut dom, d), "") {
        captured.push(ToggleChange { target: d, opened: false });
    }
    assert_eq!(captured, vec![ToggleChange { target: d, opened: true }, ToggleChange { target: d, opened: false }]);
}

#[test]
fn dialog_show_modal_fires_toggle_event_closed_to_open() {
    let (mut dom, d) = dialog_app();
    assert!(show_modal(&mut dom, d), "closed -> open");
}

#[test]
fn dialog_show_on_already_open_does_not_refire_toggle() {
    let (mut dom, d) = dialog_app();
    let mut count = 0u32;
    for opened in [show(dlg(&mut dom, d)), show(dlg(&mut dom, d)), show_modal(&mut dom, d)] {
        if opened {
            count += 1;
        }
    }
    assert_eq!(count, 1);
}
