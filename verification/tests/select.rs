use rdom_tui::dom::{Dom, Node, NodeId};
use rdom_tui::events::{KeyboardEvent, Modifiers};
use rdom_tui::path::node_by_id;
use rdom_tui::select::click::{dispatch_click, on_click};
use rdom_tui::select::dropdown::{close, is_dropdown, is_open, open};
use rdom_tui::select::keyboard::on_keydown;
use rdom_tui::select::model::{option_value, options, value};
use rdom_tui::form::collect;
use rdom_tui::select::selectedness::{make_exclusive, reset_to_default, run, seed_all};

fn select_fixture(multi: bool, labels: &[&str]) -> (Dom, NodeId, Vec<NodeId>) {
    let mut dom = Dom::new();
    let mut sel = dom.create_element("select");
    if multi {
        sel.set_attribute("multiple", "");
    }
    let mut opts = Vec::new();
    for label in labels {
        let mut opt = dom.create_element("option");
        opt.set_attribute("value", label);
        let t = dom.create_text_node(label);
        opt.append_child(t);
        opts.push(opt.id);
        sel.append_child(opt);
    }
    let id = sel.id;
    dom.root.append_child(sel);
    (dom, id, opts)
}

fn sel_mut(dom: &mut Dom) -> &mut Node {
    &mut dom.root.children[0]
}

fn sel(dom: &Dom) -> &Node {
    &dom.root.children[0]
}

fn key(k: &str) -> KeyboardEvent {
    KeyboardEvent::new(k, Modifiers::none())
}

fn mark(dom: &mut Dom, i: usize, attr: &str) {
    sel_mut(dom).children[i].set_attribute(attr, "");
}

/// The fixture as the app leaves it after building: selects settled.
fn built(multi: bool, labels: &[&str]) -> (Dom, NodeId, Vec<NodeId>) {
    let (mut dom, sel, opts) = select_fixture(multi, labels);
    seed_all(&mut dom);
    (dom, sel, opts)
}

fn set(dom: &mut Dom, i: usize, attr: &str) {
    mark(dom, i, attr);
}

fn mods(shift: bool, ctrl: bool) -> Modifiers {
    Modifiers { shift, ctrl, alt: false, meta: false }
}

fn press(dom: &mut Dom, k: &str, now: u64) -> bool {
    on_keydown(sel_mut(dom), &key(k), now)
}

fn has(dom: &Dom, id: NodeId, attr: &str) -> bool {
    node_by_id(&dom.root, id).unwrap().has_attribute(attr)
}

#[test]
fn value_returns_empty_when_nothing_selected() {
    let (dom, _, _) = select_fixture(false, &["a", "b", "c"]);
    assert_eq!(value(sel(&dom)), "");
}

#[test]
fn value_returns_single_selected_option_value() {
    let (mut dom, _, _) = select_fixture(false, &["a", "b", "c"]);
    mark(&mut dom, 1, "selected");
    assert_eq!(value(sel(&dom)), "b");
}

#[test]
fn value_returns_space_separated_for_multi_select() {
    let (mut dom, _, _) = select_fixture(true, &["a", "b", "c"]);
    mark(&mut dom, 0, "selected");
    mark(&mut dom, 2, "selected");
    assert_eq!(value(sel(&dom)), "a c");
}

#[test]
fn option_value_falls_back_to_text_content_when_no_value_attribute() {
    let mut dom = Dom::new();
    let mut opt = dom.create_element("option");
    let t = dom.create_text_node("Hello");
    opt.append_child(t);
    assert_eq!(option_value(&opt), "Hello");
}

#[test]
fn options_descend_into_optgroup() {
    let mut dom = Dom::new();
    let mut s = dom.create_element("select");
    let mut grp = dom.create_element("optgroup");
    let o1 = dom.create_element("option");
    let o2 = dom.create_element("option");
    let ids = vec![o1.id, o2.id];
    grp.append_child(o1);
    grp.append_child(o2);
    s.append_child(grp);
    assert_eq!(options(&s), ids);
}

#[test]
fn down_arrow_selects_next_option_in_single_select() {
    let (mut dom, _, opts) = select_fixture(false, &["a", "b", "c"]);
    mark(&mut dom, 0, "selected");
    assert!(on_keydown(sel_mut(&mut dom), &key("ArrowDown"), 0));
    assert_eq!(value(sel(&dom)), "b");
    assert!(!has(&dom, opts[0], "selected"));
}

#[test]
fn up_arrow_stops_at_first_option() {
    let (mut dom, _, _) = select_fixture(false, &["a", "b", "c"]);
    mark(&mut dom, 0, "selected");
    on_keydown(sel_mut(&mut dom), &key("ArrowUp"), 0);
    assert_eq!(value(sel(&dom)), "a");
}

#[test]
fn down_arrow_skips_disabled_options() {
    let (mut dom, _, _) = select_fixture(false, &["a", "b", "c"]);
    mark(&mut dom, 0, "selected");
    mark(&mut dom, 1, "disabled");
    on_keydown(sel_mut(&mut dom), &key("ArrowDown"), 0);
    assert_eq!(value(sel(&dom)), "c");
}

#[test]
fn disabled_select_ignores_keyboard() {
    let (mut dom, _, _) = built(false, &["a", "b", "c"]);
    sel_mut(&mut dom).set_attribute("disabled", "");
    set(&mut dom, 0, "selected");
    assert!(!press(&mut dom, "ArrowDown", 0));
    assert_eq!(value(sel(&dom)), "a");
}

#[test]
fn space_toggles_highlighted_option_in_multi_select() {
    let (mut dom, _, opts) = built(true, &["a", "b", "c"]);
    press(&mut dom, "ArrowDown", 0);
    press(&mut dom, " ", 0);
    assert!(has(&dom, opts[1], "selected"));
    press(&mut dom, " ", 0);
    assert!(!has(&dom, opts[1], "selected"));
}

#[test]
fn ctrl_a_selects_all_options_in_multi_select() {
    let (mut dom, _, opts) = built(true, &["a", "b", "c"]);
    on_keydown(sel_mut(&mut dom), &KeyboardEvent::new("a", mods(false, true)), 0);
    assert!(opts.iter().all(|&o| has(&dom, o, "selected")));
}

#[test]
fn click_on_option_in_single_select_replaces_selection() {
    let (mut dom, _, opts) = built(false, &["a", "b", "c"]);
    set(&mut dom, 0, "selected");
    dispatch_click(&mut dom, opts[2], false);
    assert!(!has(&dom, opts[0], "selected"));
    assert!(has(&dom, opts[2], "selected"));
}

#[test]
fn click_on_option_in_multi_select_toggles() {
    let (mut dom, _, opts) = built(true, &["a", "b", "c"]);
    dispatch_click(&mut dom, opts[1], false);
    assert!(has(&dom, opts[1], "selected"));
    dispatch_click(&mut dom, opts[1], false);
    assert!(!has(&dom, opts[1], "selected"));
}

#[test]
fn click_on_disabled_option_is_ignored() {
    let (mut dom, _, opts) = built(false, &["a", "b", "c"]);
    set(&mut dom, 1, "disabled");
    dispatch_click(&mut dom, opts[1], false);
    assert!(!has(&dom, opts[1], "selected"));
}

#[test]
fn click_on_option_text_routes_to_its_select() {
    let (mut dom, _, opts) = select_fixture(false, &["a", "b"]);
    let text_of_b = node_by_id(&dom.root, opts[1]).unwrap().children[0].id;
    assert!(dispatch_click(&mut dom, text_of_b, false));
    assert_eq!(value(sel(&dom)), "b");
}

#[test]
fn select_without_multiple_or_size_is_dropdown() {
    let (dom, _, _) = built(false, &["a", "b"]);
    assert!(is_dropdown(sel(&dom)));
    assert!(!is_open(sel(&dom)));
}

#[test]
fn typing_letter_jumps_to_option_with_matching_label() {
    let (mut dom, _, opts) = select_fixture(false, &["Apple", "Banana", "Cherry"]);
    on_keydown(sel_mut(&mut dom), &key("b"), 1000);
    assert_eq!(value(sel(&dom)), "Banana");
    assert!(has(&dom, opts[1], "data-rdom-highlight"));
}

#[test]
fn type_ahead_is_case_insensitive() {
    let (mut dom, _, _) = select_fixture(false, &["Apple", "Banana"]);
    let shift = Modifiers { shift: true, ctrl: false, alt: false, meta: false };
    on_keydown(sel_mut(&mut dom), &KeyboardEvent::new("A", shift), 1000);
    assert_eq!(value(sel(&dom)), "Apple");
}

#[test]
fn type_ahead_skips_disabled_options() {
    let (mut dom, _, _) = select_fixture(false, &["Apple", "Apricot", "Cherry"]);
    mark(&mut dom, 0, "disabled");
    on_keydown(sel_mut(&mut dom), &key("a"), 1000);
    assert_eq!(value(sel(&dom)), "Apricot");
}

#[test]
fn type_ahead_multi_keystroke_matches_prefix() {
    let (mut dom, _, _) = built(false, &["Avocado", "Apple", "Apricot"]);
    press(&mut dom, "a", 1000);
    assert_eq!(value(sel(&dom)), "Avocado");
    press(&mut dom, "p", 1100);
    assert_eq!(value(sel(&dom)), "Apple");
    press(&mut dom, "p", 1200);
    assert_eq!(value(sel(&dom)), "Apple");
    press(&mut dom, "r", 1300);
    assert_eq!(value(sel(&dom)), "Apple");
}

#[test]
fn selectedness_picks_the_first_enabled_option_of_a_dropdown() {
    let (mut dom, _, opts) = select_fixture(false, &["a", "b"]);
    mark(&mut dom, 0, "disabled");
    run(sel_mut(&mut dom));
    assert_eq!(value(sel(&dom)), "b");
    assert!(has(&dom, opts[1], "selected"));
}

#[test]
fn selectedness_keeps_only_the_last_selected() {
    let (mut dom, _, _) = select_fixture(false, &["a", "b", "c"]);
    mark(&mut dom, 0, "selected");
    mark(&mut dom, 2, "selected");
    run(sel_mut(&mut dom));
    assert_eq!(value(sel(&dom)), "c");
    run(sel_mut(&mut dom));
    assert_eq!(value(sel(&dom)), "c");
}

#[test]
fn make_exclusive_unselects_the_others() {
    let (mut dom, _, opts) = select_fixture(false, &["a", "b", "c"]);
    mark(&mut dom, 0, "selected");
    mark(&mut dom, 1, "selected");
    make_exclusive(sel_mut(&mut dom), opts[1]);
    assert_eq!(value(sel(&dom)), "b");
}

#[test]
fn down_arrow_starts_from_first_enabled_when_no_selection() {
    let (mut dom, _, opts) = built(false, &["a", "b", "c"]);
    press(&mut dom, "ArrowDown", 0);
    assert_eq!(value(sel(&dom)), "b");
    assert!(has(&dom, opts[1], "selected"));
}

#[test]
fn home_jumps_to_first_option() {
    let (mut dom, _, _) = built(false, &["a", "b", "c"]);
    set(&mut dom, 2, "selected");
    run(sel_mut(&mut dom));
    press(&mut dom, "Home", 0);
    assert_eq!(value(sel(&dom)), "a");
}

#[test]
fn end_jumps_to_last_option() {
    let (mut dom, _, _) = built(false, &["a", "b", "c"]);
    set(&mut dom, 0, "selected");
    press(&mut dom, "End", 0);
    assert_eq!(value(sel(&dom)), "c");
}

#[test]
fn arrow_in_multi_select_moves_highlight_without_changing_selection() {
    let (mut dom, _, opts) = built(true, &["a", "b", "c"]);
    set(&mut dom, 0, "selected");
    press(&mut dom, "ArrowDown", 0);
    assert_eq!(value(sel(&dom)), "a");
    assert!(has(&dom, opts[1], "data-rdom-highlight"));
}

#[test]
fn shift_down_extends_multi_select_from_anchor() {
    let (mut dom, _, opts) = built(true, &["a", "b", "c", "d"]);
    set(&mut dom, 0, "selected");
    press(&mut dom, "ArrowDown", 0);
    on_keydown(sel_mut(&mut dom), &KeyboardEvent::new("ArrowDown", mods(true, false)), 0);
    assert!(has(&dom, opts[1], "selected"));
    assert!(has(&dom, opts[2], "selected"));
    assert!(!has(&dom, opts[0], "selected"));
    assert!(!has(&dom, opts[3], "selected"));
}

#[test]
fn ctrl_a_skips_disabled_options() {
    let (mut dom, _, opts) = built(true, &["a", "b", "c"]);
    set(&mut dom, 1, "disabled");
    on_keydown(sel_mut(&mut dom), &KeyboardEvent::new("a", mods(false, true)), 0);
    assert!(has(&dom, opts[0], "selected"));
    assert!(!has(&dom, opts[1], "selected"));
    assert!(has(&dom, opts[2], "selected"));
}

#[test]
fn keyboard_navigation_fires_change_event() {
    let (mut dom, _, _) = built(false, &["a", "b", "c"]);
    let mut fired = 0u32;
    if press(&mut dom, "ArrowDown", 0) {
        fired += 1;
    }
    assert_eq!(fired, 1);
}

fn pet_form(dom: &mut Dom, name: &str, multiple: bool, entries: &[(Option<&str>, &str, bool)]) -> NodeId {
    let mut form = dom.create_element("form");
    let mut s = dom.create_element("select");
    s.set_attribute("name", name);
    if multiple {
        s.set_attribute("multiple", "");
    }
    for (v, text, selected) in entries {
        let mut o = dom.create_element("option");
        if let Some(v) = v {
            o.set_attribute("value", v);
        }
        if *selected {
            o.set_attribute("selected", "");
        }
        if !text.is_empty() {
            let tn = dom.create_text_node(text);
            o.append_child(tn);
        }
        s.append_child(o);
    }
    form.append_child(s);
    let id = form.id;
    dom.root.append_child(form);
    seed_all(dom);
    id
}

#[test]
fn form_collect_includes_select_value() {
    let mut dom = Dom::new();
    let f = pet_form(&mut dom, "pet", false, &[(Some("dog"), "", true), (Some("cat"), "", false)]);
    assert_eq!(collect(&dom.root, f), vec![("pet".to_string(), "dog".to_string())]);
}

#[test]
fn form_collect_emits_multi_select_values_as_separate_pairs() {
    let mut dom = Dom::new();
    let f = pet_form(
        &mut dom,
        "toppings",
        true,
        &[(Some("olives"), "", true), (Some("mushrooms"), "", false), (Some("peppers"), "", true)],
    );
    assert_eq!(
        collect(&dom.root, f),
        vec![("toppings".to_string(), "olives".to_string()), ("toppings".to_string(), "peppers".to_string())]
    );
}

#[test]
fn form_collect_uses_text_content_when_option_has_no_value() {
    let mut dom = Dom::new();
    let f = pet_form(&mut dom, "x", false, &[(None, "FallbackText", true)]);
    assert_eq!(collect(&dom.root, f), vec![("x".to_string(), "FallbackText".to_string())]);
}

#[test]
fn select_with_multiple_is_not_dropdown() {
    let (dom, _, _) = built(true, &["a", "b"]);
    assert!(!is_dropdown(sel(&dom)));
}

#[test]
fn select_with_size_is_not_dropdown() {
    let (mut dom, _, _) = built(false, &["a", "b", "c"]);
    sel_mut(&mut dom).set_attribute("size", "3");
    assert!(!is_dropdown(sel(&dom)));
}

#[test]
fn open_sets_the_open_marker_on_dropdown() {
    let (mut dom, _, _) = built(false, &["a"]);
    open(sel_mut(&mut dom));
    assert!(is_open(sel(&dom)));
}

#[test]
fn close_clears_the_open_marker() {
    let (mut dom, _, _) = built(false, &["a"]);
    open(sel_mut(&mut dom));
    close(sel_mut(&mut dom));
    assert!(!is_open(sel(&dom)));
}

#[test]
fn open_on_listbox_is_noop() {
    let (mut dom, _, _) = built(true, &["a"]);
    open(sel_mut(&mut dom));
    assert!(!sel(&dom).has_attribute("data-rdom-open"));
}

#[test]
fn click_on_closed_dropdown_chrome_opens_it() {
    let (mut dom, s, _) = built(false, &["a", "b"]);
    dispatch_click(&mut dom, s, false);
    assert!(is_open(sel(&dom)));
}

#[test]
fn click_on_open_dropdown_chrome_closes_it() {
    let (mut dom, s, _) = built(false, &["a", "b"]);
    open(sel_mut(&mut dom));
    dispatch_click(&mut dom, s, false);
    assert!(!is_open(sel(&dom)));
}

#[test]
fn click_on_option_in_open_dropdown_selects_and_closes() {
    let (mut dom, _, opts) = built(false, &["a", "b", "c"]);
    open(sel_mut(&mut dom));
    dispatch_click(&mut dom, opts[1], false);
    assert!(has(&dom, opts[1], "selected"));
    assert!(!is_open(sel(&dom)));
}

#[test]
fn clicking_an_option_on_a_listbox_does_not_toggle_open_marker() {
    let (mut dom, _, opts) = built(true, &["a", "b"]);
    dispatch_click(&mut dom, opts[0], false);
    assert!(!sel(&dom).has_attribute("data-rdom-open"));
    assert!(has(&dom, opts[0], "selected"));
}

#[test]
fn esc_closes_an_open_dropdown() {
    let (mut dom, _, _) = built(false, &["a"]);
    open(sel_mut(&mut dom));
    press(&mut dom, "Escape", 0);
    assert!(!is_open(sel(&dom)));
}

#[test]
fn esc_on_closed_dropdown_is_noop() {
    let (mut dom, _, _) = built(false, &["a"]);
    press(&mut dom, "Escape", 0);
    assert!(!is_open(sel(&dom)));
}

#[test]
fn enter_on_closed_dropdown_opens_it() {
    let (mut dom, _, _) = built(false, &["a"]);
    press(&mut dom, "Enter", 0);
    assert!(is_open(sel(&dom)));
}

#[test]
fn enter_on_open_dropdown_closes_it() {
    let (mut dom, _, _) = built(false, &["a"]);
    open(sel_mut(&mut dom));
    press(&mut dom, "Enter", 0);
    assert!(!is_open(sel(&dom)));
}

#[test]
fn enter_on_listbox_does_not_toggle_open_marker() {
    let (mut dom, _, _) = built(true, &["a"]);
    press(&mut dom, "Enter", 0);
    assert!(!sel(&dom).has_attribute("data-rdom-open"));
}

#[test]
fn type_ahead_wraps_around_at_end() {
    let (mut dom, _, _) = built(false, &["Apple", "Banana", "Cherry"]);
    set(&mut dom, 2, "data-rdom-highlight");
    press(&mut dom, "a", 1000);
    assert_eq!(value(sel(&dom)), "Apple");
}

#[test]
fn type_ahead_with_no_match_leaves_state_unchanged() {
    let (mut dom, _, _) = built(false, &["Apple", "Banana"]);
    set(&mut dom, 0, "selected");
    press(&mut dom, "z", 1000);
    assert_eq!(value(sel(&dom)), "Apple");
}

#[test]
fn type_ahead_in_multi_select_moves_highlight_only() {
    let (mut dom, _, opts) = built(true, &["Apple", "Banana"]);
    set(&mut dom, 0, "selected");
    press(&mut dom, "b", 1000);
    assert!(has(&dom, opts[1], "data-rdom-highlight"));
    assert_eq!(value(sel(&dom)), "Apple");
}

#[test]
fn type_ahead_advances_past_current_highlight_on_repeat() {
    let (mut dom, _, _) = built(false, &["Apple", "Apricot", "Avocado"]);
    press(&mut dom, "a", 1000);
    assert_eq!(value(sel(&dom)), "Apple");
    press(&mut dom, "a", 1100);
    assert_eq!(value(sel(&dom)), "Apricot");
    press(&mut dom, "a", 1200);
    assert_eq!(value(sel(&dom)), "Avocado");
    press(&mut dom, "a", 1300);
    assert_eq!(value(sel(&dom)), "Apple");
}

#[test]
fn ctrl_letter_is_not_type_ahead() {
    let (mut dom, _, _) = built(false, &["Apple", "Banana"]);
    set(&mut dom, 0, "selected");
    on_keydown(sel_mut(&mut dom), &KeyboardEvent::new("b", mods(false, true)), 1000);
    assert_eq!(value(sel(&dom)), "Apple");
}

#[test]
fn type_ahead_buffer_resets_on_focus_change() {
    let mut dom = Dom::new();
    let mut s1 = dom.create_element("select");
    let mut o1 = dom.create_element("option");
    let t1 = dom.create_text_node("Apple");
    o1.append_child(t1);
    s1.append_child(o1);
    let mut s2 = dom.create_element("select");
    let mut o2 = dom.create_element("option");
    let t2 = dom.create_text_node("Avocado");
    o2.append_child(t2);
    let mut o3 = dom.create_element("option");
    let t3 = dom.create_text_node("Banana");
    o3.append_child(t3);
    s2.append_child(o2);
    s2.append_child(o3);
    dom.root.append_child(s1);
    dom.root.append_child(s2);
    seed_all(&mut dom);
    on_keydown(&mut dom.root.children[0], &key("a"), 1000);
    assert_eq!(value(&dom.root.children[0]), "Apple");
    on_keydown(&mut dom.root.children[1], &key("b"), 1100);
    assert_eq!(value(&dom.root.children[1]), "Banana");
}

#[test]
fn type_ahead_different_letters_build_multi_char_prefix() {
    let (mut dom, _, _) = built(false, &["Cabbage", "Cauliflower", "Cherry", "Carrot"]);
    press(&mut dom, "c", 1000);
    assert_eq!(value(sel(&dom)), "Cabbage");
    press(&mut dom, "h", 1100);
    assert_eq!(value(sel(&dom)), "Cherry");
}

#[test]
fn space_in_single_select_does_not_trigger_type_ahead() {
    let (mut dom, _, _) = built(false, &[" Apple", "Banana"]);
    set(&mut dom, 1, "selected");
    run(sel_mut(&mut dom));
    press(&mut dom, " ", 1000);
    assert_eq!(value(sel(&dom)), "Banana");
}

#[test]
fn the_algorithm_pick_is_not_taken_for_the_authored_default() {
    let (mut dom, _, opts) = built(false, &["a", "b"]);
    assert!(has(&dom, opts[0], "selected"), "the drop-down shows its first option");
    let a = node_by_id(&dom.root, opts[0]).unwrap();
    assert_eq!(a.ext.default_selected, Some(false), "the author selected nothing");
    reset_to_default(sel_mut(&mut dom));
    assert_eq!(value(sel(&dom)), "a");
    assert_eq!(node_by_id(&dom.root, opts[0]).unwrap().ext.default_selected, Some(false));
}

#[test]
fn type_ahead_falls_back_to_the_new_key_when_the_buffer_matches_nothing() {
    let (mut dom, _, _) = built(false, &["Apple", "Banana"]);
    press(&mut dom, "a", 1000);
    assert_eq!(value(sel(&dom)), "Apple");
    assert!(press(&mut dom, "b", 1000));
    assert_eq!(value(sel(&dom)), "Banana");
    let st = sel(&dom).ext.typeahead.as_ref().unwrap();
    assert_eq!(st.buffer, vec!['a', 'b']);
    assert_eq!(st.last_ms, 1000);
}

#[test]
fn a_listbox_carrying_the_open_marker_is_not_open() {
    let (mut dom, _, _) = built(true, &["a", "b"]);
    sel_mut(&mut dom).set_attribute("data-rdom-open", "");
    assert!(!is_open(sel(&dom)));
    let (mut dom, _, _) = built(false, &["a", "b"]);
    sel_mut(&mut dom).set_attribute("size", "3");
    sel_mut(&mut dom).set_attribute("data-rdom-open", "");
    assert!(!is_open(sel(&dom)));
}
