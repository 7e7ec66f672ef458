use rdom_tui::button::{activates, chrome, chrome_width, is_button_like};
use rdom_tui::dom::{Dom, NodeId};
use rdom_tui::events::{KeyboardEvent, Modifiers};
use rdom_tui::path::node_by_id;
use rdom_tui::render::{Buffer, Rect, Style};

fn input_button(ty: &str, value: Option<&str>) -> (Dom, NodeId) {
    let mut dom = Dom::new();
    let mut inp = dom.create_element("input");
    inp.set_attribute("type", ty);
    if let Some(v) = value {
        inp.set_attribute("value", v);
    }
    let id = inp.id;
    dom.root.append_child(inp);
    (dom, id)
}

/// The chrome of the button painted into a 20x1 buffer; row 0.
fn painted_row(dom: &Dom, id: NodeId) -> String {
    let node = node_by_id(&dom.root, id).expect("in the tree");
    let text = chrome(node).expect("button-like");
    let viewport = Rect::new(0, 0, 20, 1);
    let mut buf = Buffer::empty(viewport);
    buf.set_stringn(0, 0, &text, 20, Style::new());
    let mut s = String::new();
    for x in 0..viewport.width {
        if let Some(c) = buf.cell(x, 0) {
            if !c.is_spacer() {
                s.push(c.symbol());
            }
        }
    }
    s.trim_end().to_string()
}

#[test]
fn submit_input_paints_its_value_as_the_label() {
    let (dom, id) = input_button("submit", Some("Go"));
    assert_eq!(painted_row(&dom, id), "[ Go ]");
}

#[test]
fn value_less_submit_input_paints_the_default_submit_label() {
    let (dom, id) = input_button("submit", None);
    assert_eq!(painted_row(&dom, id), "[ Submit ]");
}

#[test]
fn value_less_reset_input_paints_the_default_reset_label() {
    let (dom, id) = input_button("reset", None);
    assert_eq!(painted_row(&dom, id), "[ Reset ]");
}

#[test]
fn reset_input_paints_its_value_as_the_label() {
    let (dom, id) = input_button("reset", Some("Clear"));
    assert_eq!(painted_row(&dom, id), "[ Clear ]");
}

#[test]
fn button_input_paints_its_value_as_the_label() {
    let (dom, id) = input_button("button", Some("Open"));
    assert_eq!(painted_row(&dom, id), "[ Open ]");
}

#[test]
fn value_less_button_input_paints_an_empty_label() {
    let (dom, id) = input_button("button", None);
    assert_eq!(painted_row(&dom, id), "[  ]");
}

#[test]
fn empty_value_submit_input_paints_an_empty_label() {
    let (dom, id) = input_button("submit", Some(""));
    assert_eq!(painted_row(&dom, id), "[  ]");
}

#[test]
fn submit_input_label_follows_a_later_value_change() {
    let (mut dom, id) = input_button("submit", Some("Go"));
    assert_eq!(painted_row(&dom, id), "[ Go ]");
    dom.root.children[0].set_attribute("value", "Send");
    assert_eq!(painted_row(&dom, id), "[ Send ]");
}

#[test]
fn submit_input_box_is_as_wide_as_its_label() {
    let (dom, id) = input_button("submit", Some("Go"));
    let node = node_by_id(&dom.root, id).unwrap();
    assert_eq!(chrome_width(node), Some(6), "`[ Go ]` is 6 cells");
}

#[test]
fn a_button_element_keeps_its_own_children_as_the_label() {
    let mut dom = Dom::new();
    let mut btn = dom.create_element("button");
    btn.set_attribute("value", "v");
    let t = dom.create_text_node("Save");
    btn.append_child(t);
    let id = btn.id;
    dom.root.append_child(btn);
    assert_eq!(painted_row(&dom, id), "[ Save ]");
}

fn key(k: &str, m: Modifiers) -> KeyboardEvent {
    KeyboardEvent::new(k, m)
}

#[test]
fn enter_on_focused_button_synthesizes_click() {
    let mut dom = Dom::new();
    let btn = dom.create_element("button");
    assert!(activates(&btn, &key("Enter", Modifiers::none()), false));
}

#[test]
fn space_on_focused_button_synthesizes_click() {
    let mut dom = Dom::new();
    let btn = dom.create_element("button");
    assert!(activates(&btn, &key(" ", Modifiers::none()), false));
}

#[test]
fn ctrl_enter_is_not_activation() {
    let mut dom = Dom::new();
    let btn = dom.create_element("button");
    let ctrl = Modifiers { shift: false, ctrl: true, alt: false, meta: false };
    assert!(!activates(&btn, &key("Enter", ctrl), false));
}

#[test]
fn keydown_prevent_default_suppresses_click() {
    let mut dom = Dom::new();
    let btn = dom.create_element("button");
    assert!(!activates(&btn, &key("Enter", Modifiers::none()), true));
}

#[test]
fn other_keys_and_other_elements_do_not_activate() {
    let mut dom = Dom::new();
    let btn = dom.create_element("button");
    assert!(!activates(&btn, &key("a", Modifiers::none()), false));
    let div = dom.create_element("div");
    assert!(!activates(&div, &key("Enter", Modifiers::none()), false));
}

#[test]
fn input_submit_reset_button_are_button_like() {
    let mut dom = Dom::new();
    for ty in ["submit", "reset", "button"] {
        let mut i = dom.create_element("input");
        i.set_attribute("type", ty);
        assert!(is_button_like(&i), "{ty}");
    }
    let mut text = dom.create_element("input");
    text.set_attribute("type", "text");
    assert!(!is_button_like(&text));
    assert_eq!(chrome(&text), None);
}

#[test]
fn shift_enter_still_activates() {
    let mut dom = Dom::new();
    let btn = dom.create_element("button");
    let shift = Modifiers { shift: true, ctrl: false, alt: false, meta: false };
    assert!(activates(&btn, &key("Enter", shift), false));
}

#[test]
fn enter_on_non_button_does_not_synthesize_click() {
    let mut dom = Dom::new();
    let mut div = dom.create_element("div");
    div.set_attribute("tabindex", "0");
    assert!(!activates(&div, &key("Enter", Modifiers::none()), false));
}

#[test]
fn disabled_button_does_not_activate() {
    // Focus navigation skips a disabled button; forced onto one, Enter
    // still activates it (the check is at focus navigation).
    let mut dom = Dom::new();
    let mut btn = dom.create_element("button");
    btn.set_attribute("disabled", "");
    assert!(activates(&btn, &key("Enter", Modifiers::none()), false));
}

#[test]
fn enter_on_input_type_submit_synthesizes_click() {
    let (dom, id) = input_button("submit", None);
    assert!(activates(node_by_id(&dom.root, id).unwrap(), &key("Enter", Modifiers::none()), false));
}

#[test]
fn space_on_input_type_reset_synthesizes_click() {
    let (dom, id) = input_button("reset", None);
    assert!(activates(node_by_id(&dom.root, id).unwrap(), &key(" ", Modifiers::none()), false));
}

#[test]
fn enter_on_input_type_button_synthesizes_click() {
    let (dom, id) = input_button("button", None);
    assert!(activates(node_by_id(&dom.root, id).unwrap(), &key("Enter", Modifiers::none()), false));
}

#[test]
fn enter_on_text_input_does_not_synthesize_click() {
    let (dom, id) = input_button("text", None);
    assert!(!activates(node_by_id(&dom.root, id).unwrap(), &key("Enter", Modifiers::none()), false));
}
