use rdom_tui::details::{details_for_click, details_for_key, on_click, on_keydown, toggle};
use rdom_tui::dom::{Dom, NodeId};
use rdom_tui::events::{KeyboardEvent, Modifiers, ToggleChange};
use rdom_tui::path::node_by_id;

/// <details><summary>More<b>!</b></summary><p>body</p></details>
fn details_fixture(open: bool) -> (Dom, NodeId, NodeId, NodeId) {
    let mut dom = Dom::new();
    let mut details = dom.create_element("details");
    if open {
        details.set_attribute("open", "");
    }
    let mut summary = dom.create_element("summary");
    let t = dom.create_text_node("More");
    summary.append_child(t);
    let mut b = dom.create_element("b");
    let bt = dom.create_text_node("!");
    b.append_child(bt);
    let ids = (details.id, summary.id, b.id);
    summary.append_child(b);
    let mut p = dom.create_element("p");
    let pt = dom.create_text_node("body");
    p.append_child(pt);
    details.append_child(summary);
    details.append_child(p);
    dom.root.append_child(details);
    (dom, ids.0, ids.1, ids.2)
}

fn is_open(dom: &Dom, id: NodeId) -> bool {
    node_by_id(&dom.root, id).unwrap().has_attribute("open")
}

#[test]
fn click_on_summary_toggles_open_attribute() {
    let (mut dom, d, s, _) = details_fixture(false);
    assert!(!is_open(&dom, d));
    on_click(&mut dom, s, false);
    assert!(is_open(&dom, d));
    on_click(&mut dom, s, false);
    assert!(!is_open(&dom, d));
}

#[test]
fn click_on_summary_fires_toggle_event_on_details() {
    let (mut dom, d, s, _) = details_fixture(false);
    assert_eq!(on_click(&mut dom, s, false), Some(ToggleChange { target: d, opened: true }));
    assert_eq!(on_click(&mut dom, s, false), Some(ToggleChange { target: d, opened: false }));
}

#[test]
fn click_on_text_inside_summary_still_toggles() {
    let (mut dom, d, _, b) = details_fixture(false);
    assert_eq!(details_for_click(&dom.root, b), Some(d));
    on_click(&mut dom, b, false);
    assert!(is_open(&dom, d));
}

#[test]
fn click_on_summary_not_child_of_details_does_nothing() {
    let mut dom = Dom::new();
    let mut div = dom.create_element("div");
    let summary = dom.create_element("summary");
    let s = summary.id;
    div.append_child(summary);
    dom.root.append_child(div);
    assert_eq!(on_click(&mut dom, s, false), None);
}

fn key(k: &str, m: Modifiers) -> KeyboardEvent {
    KeyboardEvent::new(k, m)
}

#[test]
fn enter_on_focused_summary_toggles() {
    let (mut dom, d, s, _) = details_fixture(false);
    dom.focused = Some(s);
    assert_eq!(on_keydown(&mut dom, &key("Enter", Modifiers::none()), false), Some(ToggleChange { target: d, opened: true }));
    assert!(is_open(&dom, d));
}

#[test]
fn space_on_focused_summary_toggles() {
    let (mut dom, d, s, _) = details_fixture(false);
    dom.focused = Some(s);
    on_keydown(&mut dom, &key(" ", Modifiers::none()), false);
    assert!(is_open(&dom, d));
}

#[test]
fn ctrl_enter_does_not_toggle() {
    let (mut dom, d, s, _) = details_fixture(false);
    dom.focused = Some(s);
    let ctrl = Modifiers { shift: false, ctrl: true, alt: false, meta: false };
    assert_eq!(on_keydown(&mut dom, &key("Enter", ctrl), false), None);
    assert!(!is_open(&dom, d));
    assert_eq!(details_for_key(&dom.root, Some(d), &key("Enter", Modifiers::none()), false), None);
}

#[test]
fn prevent_default_on_click_blocks_toggle() {
    let (mut dom, d, s, _) = details_fixture(false);
    assert_eq!(on_click(&mut dom, s, true), None);
    assert!(!is_open(&dom, d));
}

#[test]
fn initially_open_details_toggles_closed_on_click() {
    let (mut dom, d, s, _) = details_fixture(true);
    assert_eq!(on_click(&mut dom, s, false), Some(ToggleChange { target: d, opened: false }));
    assert!(!is_open(&dom, d));
}

#[test]
fn any_open_value_counts_as_open() {
    let mut dom = Dom::new();
    let mut d = dom.create_element("details");
    d.set_attribute("open", "false");
    assert_eq!(toggle(&mut d).opened, false);
    assert!(!d.has_attribute("open"));
}

#[test]
fn toggle_event_does_not_bubble_to_root() {
    let (mut dom, d, s, _) = details_fixture(false);
    let change = on_click(&mut dom, s, false).expect("toggle fires");
    assert_eq!(change.target, d, "toggle is delivered at the details, not the root");
    assert_ne!(change.target, dom.root.id);
}

#[test]
fn details_toggle_event_carries_typed_state_transitions() {
    let (mut dom, d, s, _) = details_fixture(false);
    let captured: Vec<ToggleChange> = (0..2).filter_map(|_| on_click(&mut dom, s, false)).collect();
    assert_eq!(captured, vec![ToggleChange { target: d, opened: true }, ToggleChange { target: d, opened: false }]);
}
