use rdom_tui::canvas::has_paint;
use rdom_tui::dom::{Dom, NodeId};
use rdom_tui::events::{KeyboardEvent, Modifiers};
use rdom_tui::path::{node_by_id, node_by_id_mut};
use rdom_tui::range::{attach, attach_all, range_key};

/// An `<input type=range min=.. max=.. value=..?>`, attached as at start-up.
fn range_app(min: &str, max: &str, value: Option<&str>) -> (Dom, NodeId) {
    let mut dom = Dom::new();
    let mut inp = dom.create_element("input");
    inp.set_attribute("type", "range");
    inp.set_attribute("min", min);
    inp.set_attribute("max", max);
    if let Some(v) = value {
        inp.set_attribute("value", v);
    }
    let id = inp.id;
    dom.root.append_child(inp);
    attach_all(&mut dom);
    (dom, id)
}

#[test]
fn disabled_range_ignores_keyboard() {
    let (mut dom, inp) = range_app("0", "100", Some("50"));
    node_by_id_mut(&mut dom.root, inp).unwrap().set_attribute("disabled", "");
    let n = node_by_id(&dom.root, inp).unwrap();
    assert_eq!(range_key(n, &KeyboardEvent::new("ArrowRight", Modifiers::none()), false), None);
    assert_eq!(n.get_attribute("value").map(|s| s.as_str()), Some("50"));
}

#[test]
fn ctrl_modifier_skips_range_keyboard_handler() {
    let (dom, inp) = range_app("0", "100", Some("50"));
    let ctrl = Modifiers { shift: false, ctrl: true, alt: false, meta: false };
    let n = node_by_id(&dom.root, inp).unwrap();
    assert_eq!(range_key(n, &KeyboardEvent::new("ArrowRight", ctrl), false), None);
    assert_eq!(n.get_attribute("value").map(|s| s.as_str()), Some("50"));
}

#[test]
fn attach_is_noop_on_non_range_input() {
    let mut dom = Dom::new();
    let mut text = dom.create_element("input");
    text.set_attribute("type", "text");
    let id = text.id;
    dom.root.append_child(text);
    attach(&mut dom, id);
    assert!(!has_paint(&dom, id));
}

#[test]
fn install_attaches_canvas_paint_to_existing_ranges() {
    let (dom, inp) = range_app("0", "100", None);
    assert!(has_paint(&dom, inp));
}
