use rdom_tui::dom::{Dom, NodeId};
use rdom_tui::input::{
    bullets, default_value, ensure_seeded, keeps_default_value, mirror_to_attribute, password_inline_chrome, reset_to_default,
    seed_all, set_value, value,
};
use rdom_tui::path::{node_by_id, node_by_id_mut};

fn input_with(dom: &mut Dom, attrs: &[(&str, &str)]) -> NodeId {
    let mut i = dom.create_element("input");
    for (k, v) in attrs {
        i.set_attribute(k, v);
    }
    let id = i.id;
    dom.root.append_child(i);
    id
}

fn val(dom: &Dom, id: NodeId) -> String {
    value(node_by_id(&dom.root, id).unwrap())
}

fn child_count(dom: &Dom, id: NodeId) -> usize {
    node_by_id(&dom.root, id).unwrap().children.len()
}

fn attr(dom: &Dom, id: NodeId, name: &str) -> Option<String> {
    node_by_id(&dom.root, id).unwrap().get_attribute(name).cloned()
}

#[test]
fn seed_all_is_idempotent_when_text_already_matches_attribute() {
    let mut dom = Dom::new();
    let mut input = dom.create_element("input");
    input.set_attribute("value", "hi");
    let t = dom.create_text_node("hi");
    input.append_child(t);
    let id = input.id;
    dom.root.append_child(input);
    let before = node_by_id(&dom.root, id).unwrap().children.first().map(|c| c.id);
    seed_all(&mut dom);
    let after = node_by_id(&dom.root, id).unwrap().children.first().map(|c| c.id);
    assert_eq!(before, after);
}

#[test]
fn seed_all_creates_text_child_from_value_attribute() {
    let mut dom = Dom::new();
    let id = input_with(&mut dom, &[("value", "hello")]);
    seed_all(&mut dom);
    assert_eq!(val(&dom, id), "hello");
}

#[test]
fn seed_all_creates_empty_text_child_when_no_value_attribute() {
    let mut dom = Dom::new();
    let id = input_with(&mut dom, &[]);
    seed_all(&mut dom);
    assert_eq!(val(&dom, id), "");
    assert_eq!(child_count(&dom, id), 1);
}

#[test]
fn seed_all_re_seeds_when_text_disagrees_with_attribute() {
    let mut dom = Dom::new();
    let mut input = dom.create_element("input");
    input.set_attribute("value", "fresh");
    let stale = dom.create_text_node("stale");
    input.append_child(stale);
    let id = input.id;
    dom.root.append_child(input);
    seed_all(&mut dom);
    assert_eq!(val(&dom, id), "fresh");
}

#[test]
fn seed_all_handles_inputs_nested_inside_other_elements() {
    let mut dom = Dom::new();
    let mut form = dom.create_element("form");
    let mut input = dom.create_element("input");
    input.set_attribute("value", "nested");
    let id = input.id;
    form.append_child(input);
    dom.root.append_child(form);
    seed_all(&mut dom);
    assert_eq!(val(&dom, id), "nested");
}

#[test]
fn seed_all_gives_textareas_an_empty_text_child() {
    let mut dom = Dom::new();
    let ta = dom.create_element("textarea");
    let id = ta.id;
    dom.root.append_child(ta);
    seed_all(&mut dom);
    assert_eq!(child_count(&dom, id), 1);
    assert_eq!(val(&dom, id), "");
}

#[test]
fn seed_all_skips_checkboxes() {
    let mut dom = Dom::new();
    let id = input_with(&mut dom, &[("type", "checkbox"), ("value", "on")]);
    seed_all(&mut dom);
    assert_eq!(child_count(&dom, id), 0);
}

#[test]
fn set_value_writes_attribute_and_text_child() {
    let mut dom = Dom::new();
    let id = input_with(&mut dom, &[]);
    seed_all(&mut dom);
    set_value(&mut dom, id, "set");
    assert_eq!(val(&dom, id), "set");
    assert_eq!(attr(&dom, id, "value"), Some("set".to_string()));
}

#[test]
fn set_value_keeps_the_authored_default() {
    let mut dom = Dom::new();
    let id = input_with(&mut dom, &[("value", "authored")]);
    seed_all(&mut dom);
    set_value(&mut dom, id, "typed");
    assert_eq!(default_value(node_by_id(&dom.root, id).unwrap()), Some("authored".to_string()));
    reset_to_default(&mut dom, id);
    assert_eq!(val(&dom, id), "authored");
    assert_eq!(attr(&dom, id, "value"), Some("authored".to_string()));
}

#[test]
fn textarea_set_value_keeps_the_authored_default_value() {
    let mut dom = Dom::new();
    let mut ta = dom.create_element("textarea");
    let t = dom.create_text_node("orig");
    ta.append_child(t);
    let id = ta.id;
    dom.root.append_child(ta);
    set_value(&mut dom, id, "new");
    assert_eq!(val(&dom, id), "new");
    assert_eq!(default_value(node_by_id(&dom.root, id).unwrap()), Some("orig".to_string()));
}

#[test]
fn range_reset_removes_an_empty_default() {
    let mut dom = Dom::new();
    let id = input_with(&mut dom, &[("type", "range")]);
    seed_all(&mut dom);
    {
        let n = node_by_id_mut(&mut dom.root, id).unwrap();
        rdom_tui::input::note_default_value(n);
        n.set_attribute("value", "70");
    }
    reset_to_default(&mut dom, id);
    assert_eq!(attr(&dom, id, "value"), None);
}

#[test]
fn mirror_to_attribute_copies_the_live_text() {
    let mut dom = Dom::new();
    let id = input_with(&mut dom, &[("value", "a")]);
    seed_all(&mut dom);
    {
        let n = node_by_id_mut(&mut dom.root, id).unwrap();
        n.children[0].text = "abc".to_string();
        mirror_to_attribute(n);
    }
    assert_eq!(attr(&dom, id, "value"), Some("abc".to_string()));
}

#[test]
fn ensure_seeded_adds_a_text_child_once() {
    let mut dom = Dom::new();
    let id = input_with(&mut dom, &[("value", "v")]);
    ensure_seeded(&mut dom, id);
    assert_eq!(val(&dom, id), "v");
    let first = node_by_id(&dom.root, id).unwrap().children[0].id;
    ensure_seeded(&mut dom, id);
    assert_eq!(node_by_id(&dom.root, id).unwrap().children[0].id, first);
    assert_eq!(child_count(&dom, id), 1);
}

#[test]
fn keeps_default_value_for_text_controls_and_ranges_only() {
    let mut dom = Dom::new();
    let text = dom.create_element("input");
    assert!(keeps_default_value(&text));
    let ta = dom.create_element("textarea");
    assert!(keeps_default_value(&ta));
    let mut range = dom.create_element("input");
    range.set_attribute("type", "range");
    assert!(keeps_default_value(&range));
    let mut hidden = dom.create_element("input");
    hidden.set_attribute("type", "hidden");
    assert!(!keeps_default_value(&hidden));
}

#[test]
fn password_paints_one_bullet_per_grapheme() {
    let mut dom = Dom::new();
    let id = input_with(&mut dom, &[("type", "password"), ("value", "e\u{301}ab")]);
    seed_all(&mut dom);
    let n = node_by_id(&dom.root, id).unwrap();
    assert_eq!(password_inline_chrome(n), Some("\u{2022}\u{2022}\u{2022}".to_string()));
    let mut text = dom.create_element("input");
    text.set_attribute("type", "text");
    assert_eq!(password_inline_chrome(&text), None);
    assert_eq!(bullets(2), "\u{2022}\u{2022}");
}

#[test]
fn app_build_seeds_all_inputs_in_the_tree() {
    let mut dom = Dom::new();
    let mut input = dom.create_element("input");
    input.set_attribute("value", "auto");
    let id = input.id;
    dom.root.append_child(input);
    seed_all(&mut dom);
    assert_eq!(value(node_by_id(&dom.root, id).unwrap()), "auto");
}

#[test]
fn value_reads_the_first_text_child_only() {
    let mut dom = Dom::new();
    let mut i = dom.create_element("input");
    let ab = dom.create_text_node("ab");
    let cd = dom.create_text_node("cd");
    i.append_child(ab);
    i.append_child(cd);
    let id = i.id;
    dom.root.append_child(i);
    assert_eq!(val(&dom, id), "ab");
    let bare = input_with(&mut dom, &[("value", "x")]);
    assert_eq!(val(&dom, bare), "");
}
