use rdom_tui::dom::{Dom, NodeId};
use rdom_tui::events::{KeyboardEvent, Modifiers};
use rdom_tui::input::{seed_all, set_value, value};
use rdom_tui::keys::{edit_action, EditAction, KeyCode, KeyInput, KeyKind};
use rdom_tui::number::{refuses_insert, step_direction};
use rdom_tui::path::{node_by_id, node_by_id_mut};

/// An `<input type=ty value=initial>`, seeded as at start-up.
fn input_dom(ty: &str, initial: &str) -> (Dom, NodeId) {
    let mut dom = Dom::new();
    let mut inp = dom.create_element("input");
    inp.set_attribute("type", ty);
    inp.set_attribute("value", initial);
    let id = inp.id;
    dom.root.append_child(inp);
    seed_all(&mut dom);
    dom.focused = Some(id);
    (dom, id)
}

fn val(dom: &Dom, id: NodeId) -> String {
    value(node_by_id(&dom.root, id).unwrap())
}

/// A character key typed at the end of the focused input's value: the
/// number filter refuses a non-numeric insert; anything else is added.
fn type_char(dom: &mut Dom, id: NodeId, c: char) {
    let key = KeyInput { code: KeyCode::Char(c), modifiers: Modifiers::none(), kind: KeyKind::Press };
    if let EditAction::InsertChar(ch) = edit_action(&key, true) {
        let text = ch.to_string();
        if !refuses_insert(node_by_id(&dom.root, id).unwrap(), Some(&text), false) {
            let next = format!("{}{}", val(dom, id), text);
            set_value(dom, id, &next);
        }
    }
}

#[test]
fn typing_a_digit_in_number_input_inserts() {
    let (mut dom, inp) = input_dom("number", "12");
    type_char(&mut dom, inp, '3');
    assert_eq!(val(&dom, inp), "123");
}

#[test]
fn typing_a_letter_in_number_input_is_filtered_out() {
    let (mut dom, inp) = input_dom("number", "12");
    type_char(&mut dom, inp, 'a');
    assert_eq!(val(&dom, inp), "12");
}

#[test]
fn typing_decimal_point_is_allowed() {
    let (mut dom, inp) = input_dom("number", "3");
    for c in ['.', '1', '4'] {
        type_char(&mut dom, inp, c);
    }
    assert_eq!(val(&dom, inp), "3.14");
}

#[test]
fn typing_in_text_input_is_unaffected_by_number_filter() {
    let (mut dom, inp) = input_dom("text", "x");
    type_char(&mut dom, inp, 'y');
    assert_eq!(val(&dom, inp), "xy");
}

#[test]
fn arrow_does_not_step_when_readonly() {
    let (mut dom, inp) = input_dom("number", "5");
    node_by_id_mut(&mut dom.root, inp).unwrap().set_attribute("readonly", "");
    let n = node_by_id(&dom.root, inp).unwrap();
    assert_eq!(step_direction(n, &KeyboardEvent::new("ArrowUp", Modifiers::none()), false), None);
    assert_eq!(val(&dom, inp), "5");
}

#[test]
fn arrow_with_modifier_does_not_step() {
    let (dom, inp) = input_dom("number", "5");
    let shift = Modifiers { shift: true, ctrl: false, alt: false, meta: false };
    let n = node_by_id(&dom.root, inp).unwrap();
    assert_eq!(step_direction(n, &KeyboardEvent::new("ArrowUp", shift), false), None);
    assert_eq!(val(&dom, inp), "5");
}
