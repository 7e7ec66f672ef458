use rdom_tui::dom::{Dom, Node, NodeId};
use rdom_tui::label::{associated_control, closest_label, is_labelable, on_click};
use rdom_tui::path::node_by_id;
use rdom_tui::toggle::{activation_target, pre_activate};

fn el(dom: &mut Dom, tag: &str, attrs: &[(&str, &str)]) -> Node {
    let mut n = dom.create_element(tag);
    for (k, v) in attrs {
        n.set_attribute(k, v);
    }
    n
}

#[test]
fn click_on_label_with_for_focuses_target_input() {
    let mut dom = Dom::new();
    let mut label = el(&mut dom, "label", &[("for", "name")]);
    let t = dom.create_text_node("Name");
    label.append_child(t);
    let input = el(&mut dom, "input", &[("id", "name")]);
    let (l, i) = (label.id, input.id);
    dom.root.append_child(label);
    dom.root.append_child(input);
    assert_eq!(on_click(&mut dom, l, false), None);
    assert_eq!(dom.focused, Some(i));
}

#[test]
fn click_on_label_wrapping_input_focuses_it() {
    let mut dom = Dom::new();
    let mut label = el(&mut dom, "label", &[]);
    let t = dom.create_text_node("Name");
    let tid = t.id;
    label.append_child(t);
    let input = el(&mut dom, "input", &[]);
    let i = input.id;
    label.append_child(input);
    dom.root.append_child(label);
    on_click(&mut dom, tid, false);
    assert_eq!(dom.focused, Some(i));
}

#[test]
fn click_on_label_with_for_to_missing_id_focuses_nothing() {
    let mut dom = Dom::new();
    let mut label = el(&mut dom, "label", &[("for", "nope")]);
    let input = el(&mut dom, "input", &[]);
    label.append_child(input);
    let l = label.id;
    dom.root.append_child(label);
    on_click(&mut dom, l, false);
    assert_eq!(dom.focused, None);
}

#[test]
fn click_on_label_with_no_association_focuses_nothing() {
    let mut dom = Dom::new();
    let label = el(&mut dom, "label", &[]);
    let l = label.id;
    dom.root.append_child(label);
    on_click(&mut dom, l, false);
    assert_eq!(dom.focused, None);
}

#[test]
fn click_on_non_label_is_untouched() {
    let mut dom = Dom::new();
    let div = el(&mut dom, "div", &[]);
    let d = div.id;
    dom.root.append_child(div);
    assert_eq!(closest_label(&dom.root, d), None);
    on_click(&mut dom, d, false);
    assert_eq!(dom.focused, None);
}

#[test]
fn prevent_default_on_click_blocks_focus_transfer() {
    let mut dom = Dom::new();
    let mut label = el(&mut dom, "label", &[]);
    let input = el(&mut dom, "input", &[]);
    label.append_child(input);
    let l = label.id;
    dom.root.append_child(label);
    on_click(&mut dom, l, true);
    assert_eq!(dom.focused, None);
}

#[test]
fn label_wrapping_non_labelable_element_focuses_nothing() {
    let mut dom = Dom::new();
    let mut label = el(&mut dom, "label", &[]);
    let span = el(&mut dom, "span", &[]);
    label.append_child(span);
    let hidden = el(&mut dom, "input", &[("type", "hidden")]);
    label.append_child(hidden);
    let l = label.id;
    dom.root.append_child(label);
    assert_eq!(associated_control(&dom.root, l), None);
}

#[test]
fn for_attribute_wins_over_implicit_wrap() {
    let mut dom = Dom::new();
    let mut label = el(&mut dom, "label", &[("for", "other")]);
    let inner = el(&mut dom, "input", &[]);
    label.append_child(inner);
    let other = el(&mut dom, "textarea", &[("id", "other")]);
    let (l, o) = (label.id, other.id);
    dom.root.append_child(label);
    dom.root.append_child(other);
    assert_eq!(associated_control(&dom.root, l), Some(o));
}

/// A click on `target` as the defaults run it: the checkbox or radio it
/// activates flips, and a label hands the click on to its control.
/// Returns the clicks dispatched, in order.
fn click(dom: &mut Dom, target: NodeId) -> Vec<NodeId> {
    let mut seen = vec![target];
    if let Some(w) = activation_target(&dom.root, target) {
        pre_activate(dom, w);
    }
    if let Some(control) = on_click(dom, target, false) {
        seen.extend(click(dom, control));
    }
    seen
}

fn checked(dom: &Dom, id: NodeId) -> bool {
    node_by_id(&dom.root, id).unwrap().has_attribute("checked")
}

/// `<label>text<input type=ty name=g?></label>`: (label text, input).
fn wrapping_label(dom: &mut Dom, text: &str, ty: &str, grouped: bool) -> (NodeId, NodeId) {
    let mut label = el(dom, "label", &[]);
    let t = dom.create_text_node(text);
    let tid = t.id;
    label.append_child(t);
    let input = if grouped { el(dom, "input", &[("type", ty), ("name", "g")]) } else { el(dom, "input", &[("type", ty)]) };
    let c = input.id;
    label.append_child(input);
    dom.root.append_child(label);
    (tid, c)
}

#[test]
fn click_on_label_wrapping_checkbox_toggles_checked() {
    let mut dom = Dom::new();
    let (text, cb) = wrapping_label(&mut dom, "Agree", "checkbox", false);
    click(&mut dom, text);
    assert!(checked(&dom, cb), "first click toggles checkbox on");
    click(&mut dom, text);
    assert!(!checked(&dom, cb), "second click toggles checkbox off");
}

#[test]
fn click_on_label_wrapping_radio_toggles_checked() {
    let mut dom = Dom::new();
    let (text, radio) = wrapping_label(&mut dom, "Pick me", "radio", true);
    click(&mut dom, text);
    assert!(checked(&dom, radio), "clicking the label text should toggle the wrapped radio");
    assert_eq!(dom.focused, Some(radio), "label click also moves focus");
}

#[test]
fn label_text_click_re_dispatches_exactly_once_to_input() {
    let mut dom = Dom::new();
    let (text, radio) = wrapping_label(&mut dom, "Pick me", "radio", true);
    let clicks = click(&mut dom, text);
    assert_eq!(clicks.iter().filter(|&&c| c == radio).count(), 1);
}

#[test]
fn labelable_elements() {
    let mut dom = Dom::new();
    for tag in ["button", "meter", "output", "progress", "select", "textarea", "input"] {
        let n = el(&mut dom, tag, &[]);
        assert!(is_labelable(&n), "{tag}");
    }
    let div = el(&mut dom, "div", &[]);
    assert!(!is_labelable(&div));
}

fn _id(_: NodeId) {}
