use rdom_tui::autofocus::{focus_first_autofocus, is_focusable};
use rdom_tui::dom::{Dom, Node};
use rdom_tui::events::{KeyboardEvent, Modifiers};
use rdom_tui::gauge::{fill_bar, indeterminate_bar, is_gauge, meter_zone_color, Zone};
use rdom_tui::number::{is_numeric_char, refuses_insert, step_direction};
use rdom_tui::range::{range_key, RangeMove};
use rdom_tui::render::Color;

fn el(dom: &mut Dom, tag: &str, attrs: &[(&str, &str)]) -> Node {
    let mut n = dom.create_element(tag);
    for (k, v) in attrs {
        n.set_attribute(k, v);
    }
    n
}

fn key(k: &str) -> KeyboardEvent {
    KeyboardEvent::new(k, Modifiers::none())
}

#[test]
fn autofocus_focuses_the_first_focusable_candidate() {
    let mut dom = Dom::new();
    let disabled = el(&mut dom, "input", &[("autofocus", ""), ("disabled", "")]);
    let first = el(&mut dom, "input", &[("autofocus", "")]);
    let second = el(&mut dom, "button", &[("autofocus", "")]);
    let id = first.id;
    dom.root.append_child(disabled);
    dom.root.append_child(first);
    dom.root.append_child(second);
    focus_first_autofocus(&mut dom);
    assert_eq!(dom.focused, Some(id));
}

#[test]
fn autofocus_keeps_an_existing_focus() {
    let mut dom = Dom::new();
    let a = el(&mut dom, "input", &[("autofocus", "")]);
    dom.root.append_child(a);
    dom.focused = Some(99);
    focus_first_autofocus(&mut dom);
    assert_eq!(dom.focused, Some(99));
}

#[test]
fn focusable_elements() {
    let mut dom = Dom::new();
    assert!(is_focusable(&el(&mut dom, "button", &[])));
    assert!(!is_focusable(&el(&mut dom, "button", &[("disabled", "")])));
    assert!(!is_focusable(&el(&mut dom, "div", &[])));
}

#[test]
fn progress_bar_fills_its_share() {
    assert_eq!(fill_bar(5, 2), "\u{2588}\u{2588}\u{2591}\u{2591}\u{2591}");
    assert_eq!(fill_bar(3, 9), "\u{2588}\u{2588}\u{2588}");
    assert_eq!(indeterminate_bar(2), "\u{2591}\u{2591}");
}

#[test]
fn is_gauge_recognizes_progress_and_meter_only() {
    let mut dom = Dom::new();
    assert!(is_gauge(&el(&mut dom, "progress", &[])));
    assert!(is_gauge(&el(&mut dom, "meter", &[])));
    assert!(!is_gauge(&el(&mut dom, "div", &[])));
}

#[test]
fn meter_colors_by_distance_from_the_optimum() {
    assert_eq!(meter_zone_color(Zone::Mid, Zone::Mid), None);
    assert_eq!(meter_zone_color(Zone::Low, Zone::Mid), Some(Color::Rgb(255, 255, 0)));
    assert_eq!(meter_zone_color(Zone::Low, Zone::High), Some(Color::Rgb(255, 0, 0)));
}

#[test]
fn range_keys_step_the_value() {
    let mut dom = Dom::new();
    let r = el(&mut dom, "input", &[("type", "range")]);
    assert_eq!(range_key(&r, &key("ArrowRight"), false), Some(RangeMove::Increase(1)));
    assert_eq!(range_key(&r, &key("ArrowDown"), false), Some(RangeMove::Decrease(1)));
    assert_eq!(range_key(&r, &key("PageUp"), false), Some(RangeMove::Increase(10)));
    assert_eq!(range_key(&r, &key("Home"), false), Some(RangeMove::ToMin));
    assert_eq!(range_key(&r, &key("End"), false), Some(RangeMove::ToMax));
    assert_eq!(range_key(&r, &key("End"), true), None);
    let d = el(&mut dom, "input", &[("type", "range"), ("disabled", "")]);
    assert_eq!(range_key(&d, &key("End"), false), None);
}

#[test]
fn number_input_refuses_non_numeric_insertions() {
    let mut dom = Dom::new();
    let n = el(&mut dom, "input", &[("type", "number")]);
    assert!(refuses_insert(&n, Some("1a"), false));
    assert!(!refuses_insert(&n, Some("-1.5"), false));
    assert!(!refuses_insert(&n, None, false));
    assert!(!refuses_insert(&n, Some("x"), true));
    let t = el(&mut dom, "input", &[]);
    assert!(!refuses_insert(&t, Some("x"), false));
    assert!(is_numeric_char('+'));
    assert!(!is_numeric_char('e'));
}

#[test]
fn number_arrows_step() {
    let mut dom = Dom::new();
    let n = el(&mut dom, "input", &[("type", "number")]);
    assert_eq!(step_direction(&n, &key("ArrowUp"), false), Some(1));
    assert_eq!(step_direction(&n, &key("ArrowDown"), false), Some(-1));
    assert_eq!(step_direction(&n, &key("ArrowLeft"), false), None);
    let ro = el(&mut dom, "input", &[("type", "number"), ("readonly", "")]);
    assert_eq!(step_direction(&ro, &key("ArrowUp"), false), None);
}
