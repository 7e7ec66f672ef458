use rdom_tui::dom::{Dom, Node, NodeId};
use rdom_tui::events::{KeyboardEvent, Modifiers};
use rdom_tui::form::{
    check_request_submit, click_action, collect, collect_with_submitter, control_state, count_text_inputs,
    default_button, elements, finish_submit, implicit_submission, reset_controls, submit_detail, FormClick, FormEnctype,
    FormMethod, ImplicitSubmission, RequestSubmitError, SubmitOutcome,
};
use rdom_tui::input::{default_value, note_default_value, seed_all, set_value, value};
use rdom_tui::path::{node_by_id, node_by_id_mut};
use rdom_tui::select::model::value as select_value;
use rdom_tui::select::selectedness::seed_all as settle_selects;
use rdom_tui::select::state::select_single;
use rdom_tui::toggle::pre_activate;

fn el(dom: &mut Dom, tag: &str, attrs: &[(&str, &str)]) -> Node {
    let mut n = dom.create_element(tag);
    for (k, v) in attrs {
        n.set_attribute(k, v);
    }
    n
}

fn pairs(p: &[(&str, &str)]) -> Vec<(String, String)> {
    p.iter().map(|(a, b)| (a.to_string(), b.to_string())).collect()
}

fn enter() -> KeyboardEvent {
    KeyboardEvent::new("Enter", Modifiers::none())
}

fn node(dom: &Dom, id: NodeId) -> &Node {
    node_by_id(&dom.root, id).expect("in the tree")
}

/// Enter in `input`, then the default actions it leads to: the
/// submissions that result, as (submitter, entry list).
fn press_enter_in(dom: &Dom, input: NodeId) -> Vec<(Option<NodeId>, Vec<(String, String)>)> {
    let mut log = Vec::new();
    match implicit_submission(&dom.root, node(dom, input), &enter(), false) {
        ImplicitSubmission::Ignore => {}
        ImplicitSubmission::Submit(form) => log.push((None, collect_with_submitter(&dom.root, form, None))),
        ImplicitSubmission::Click(button) => {
            if let FormClick::Submit { form, submitter } = click_action(&dom.root, button, false) {
                log.push((Some(submitter), collect_with_submitter(&dom.root, form, Some(submitter))));
            }
        }
    }
    log
}

#[test]
fn default_value_of_non_text_inputs_is_the_value_attribute() {
    let mut dom = Dom::new();
    let mut ids = Vec::new();
    for (ty, v) in [("range", "30"), ("hidden", "h"), ("submit", "Go"), ("checkbox", "yes")] {
        let i = el(&mut dom, "input", &[("type", ty), ("value", v)]);
        ids.push(i.id);
        dom.root.append_child(i);
    }
    assert_eq!(default_value(node(&dom, ids[0])), Some("30".into()));
    assert_eq!(default_value(node(&dom, ids[1])), Some("h".into()));
    assert_eq!(default_value(node(&dom, ids[2])), Some("Go".into()));
    assert_eq!(default_value(node(&dom, ids[3])), Some("yes".into()));
}

#[test]
fn implicit_submission_follows_the_form_attribute() {
    let mut dom = Dom::new();
    let f = el(&mut dom, "form", &[("id", "f")]);
    let input = el(&mut dom, "input", &[("form", "f"), ("name", "q"), ("value", "x")]);
    let go = el(&mut dom, "button", &[("form", "f"), ("name", "go"), ("value", "G")]);
    let (f, input, go) = {
        let ids = (f.id, input.id, go.id);
        dom.root.append_child(f);
        dom.root.append_child(input);
        dom.root.append_child(go);
        ids
    };
    seed_all(&mut dom);
    let log = press_enter_in(&dom, input);
    assert_eq!(log, vec![(Some(go), pairs(&[("q", "x"), ("go", "G")]))]);
    let _ = f;
}

fn simple_form(dom: &mut Dom) -> (NodeId, NodeId, NodeId) {
    let mut form = el(dom, "form", &[]);
    let text = el(dom, "input", &[("name", "a"), ("value", "1")]);
    let go = el(dom, "button", &[("name", "go"), ("value", "G")]);
    let ids = (form.id, text.id, go.id);
    form.append_child(text);
    form.append_child(go);
    dom.root.append_child(form);
    seed_all(dom);
    ids
}

#[test]
fn collect_gathers_named_controls_in_tree_order() {
    let mut dom = Dom::new();
    let mut form = el(&mut dom, "form", &[]);
    let a = el(&mut dom, "input", &[("name", "a"), ("value", "1")]);
    let unnamed = el(&mut dom, "input", &[("value", "skip")]);
    let cb_on = el(&mut dom, "input", &[("type", "checkbox"), ("name", "c"), ("checked", "")]);
    let cb_off = el(&mut dom, "input", &[("type", "checkbox"), ("name", "d")]);
    let hidden = el(&mut dom, "input", &[("type", "hidden"), ("name", "h"), ("value", "z")]);
    let fid = form.id;
    for c in [a, unnamed, cb_on, cb_off, hidden] {
        form.append_child(c);
    }
    dom.root.append_child(form);
    seed_all(&mut dom);
    assert_eq!(collect(&dom.root, fid), pairs(&[("a", "1"), ("c", "on"), ("h", "z")]));
}

#[test]
fn disabled_controls_are_not_collected() {
    let mut dom = Dom::new();
    let mut form = el(&mut dom, "form", &[]);
    let a = el(&mut dom, "input", &[("name", "a"), ("value", "1"), ("disabled", "")]);
    let b = el(&mut dom, "input", &[("name", "b"), ("value", "2")]);
    let fid = form.id;
    form.append_child(a);
    form.append_child(b);
    dom.root.append_child(form);
    seed_all(&mut dom);
    assert_eq!(collect(&dom.root, fid), pairs(&[("b", "2")]));
}

#[test]
fn only_the_submitter_button_is_collected() {
    let mut dom = Dom::new();
    let (f, _, go) = simple_form(&mut dom);
    assert_eq!(collect(&dom.root, f), pairs(&[("a", "1")]));
    assert_eq!(collect_with_submitter(&dom.root, f, Some(go)), pairs(&[("a", "1"), ("go", "G")]));
}

#[test]
fn elements_lists_owned_controls() {
    let mut dom = Dom::new();
    let (f, text, go) = simple_form(&mut dom);
    assert_eq!(elements(&dom.root, f), vec![text, go]);
    assert_eq!(default_button(&dom.root, f), Some((go, false)));
    assert_eq!(count_text_inputs(&dom.root, f), 1);
}

#[test]
fn enter_in_a_form_clicks_its_default_button() {
    let mut dom = Dom::new();
    let (f, text, go) = simple_form(&mut dom);
    assert_eq!(implicit_submission(&dom.root, node(&dom, text), &enter(), false), ImplicitSubmission::Click(go));
    assert_eq!(click_action(&dom.root, go, false), FormClick::Submit { form: f, submitter: go });
}

#[test]
fn enter_in_a_lone_field_without_a_button_submits() {
    let mut dom = Dom::new();
    let mut form = el(&mut dom, "form", &[]);
    let text = el(&mut dom, "input", &[("name", "q")]);
    let (f, t) = (form.id, text.id);
    form.append_child(text);
    dom.root.append_child(form);
    seed_all(&mut dom);
    assert_eq!(implicit_submission(&dom.root, node(&dom, t), &enter(), false), ImplicitSubmission::Submit(f));
}

#[test]
fn enter_with_two_fields_and_no_button_does_nothing() {
    let mut dom = Dom::new();
    let mut form = el(&mut dom, "form", &[]);
    let a = el(&mut dom, "input", &[("name", "a")]);
    let b = el(&mut dom, "input", &[("name", "b")]);
    let ta = a.id;
    form.append_child(a);
    form.append_child(b);
    dom.root.append_child(form);
    seed_all(&mut dom);
    assert_eq!(implicit_submission(&dom.root, node(&dom, ta), &enter(), false), ImplicitSubmission::Ignore);
}

#[test]
fn prevented_enter_does_not_submit() {
    let mut dom = Dom::new();
    let (_, text, _) = simple_form(&mut dom);
    assert_eq!(implicit_submission(&dom.root, node(&dom, text), &enter(), true), ImplicitSubmission::Ignore);
}

#[test]
fn reset_button_click_asks_for_a_reset() {
    let mut dom = Dom::new();
    let mut form = el(&mut dom, "form", &[]);
    let r = el(&mut dom, "button", &[("type", "reset")]);
    let (f, rid) = (form.id, r.id);
    form.append_child(r);
    dom.root.append_child(form);
    assert_eq!(click_action(&dom.root, rid, false), FormClick::Reset(f));
    assert_eq!(click_action(&dom.root, rid, true), FormClick::Ignore);
}

#[test]
fn request_submit_checks_its_submitter() {
    let mut dom = Dom::new();
    let (f, text, go) = simple_form(&mut dom);
    assert_eq!(check_request_submit(&dom.root, f, None), Ok(()));
    assert_eq!(check_request_submit(&dom.root, f, Some(go)), Ok(()));
    assert_eq!(check_request_submit(&dom.root, f, Some(text)), Err(RequestSubmitError::NotASubmitButton));
    let other = el(&mut dom, "form", &[]);
    let of = other.id;
    dom.root.append_child(other);
    assert_eq!(check_request_submit(&dom.root, of, Some(go)), Err(RequestSubmitError::NotOwned));
}

#[test]
fn reset_restores_text_and_checkbox_defaults() {
    let mut dom = Dom::new();
    let mut form = el(&mut dom, "form", &[]);
    let text = el(&mut dom, "input", &[("name", "a"), ("value", "orig")]);
    let cb = el(&mut dom, "input", &[("type", "checkbox"), ("name", "c"), ("checked", "")]);
    let (f, t, c) = (form.id, text.id, cb.id);
    form.append_child(text);
    form.append_child(cb);
    dom.root.append_child(form);
    seed_all(&mut dom);
    set_value(&mut dom, t, "changed");
    // A user activation captures the default, then flips.
    rdom_tui::toggle::pre_activate(&mut dom, c);
    assert_eq!(value(node(&dom, t)), "changed");
    assert!(!node(&dom, c).has_attribute("checked"));
    reset_controls(&mut dom, f);
    assert_eq!(value(node(&dom, t)), "orig");
    assert_eq!(node(&dom, t).get_attribute("value").map(|s| s.as_str()), Some("orig"));
    assert!(node(&dom, c).has_attribute("checked"));
}

/// Append `tag` with `attrs` under the node `parent` of the document.
fn named(dom: &mut Dom, parent: NodeId, tag: &str, attrs: &[(&str, &str)]) -> NodeId {
    let n = el(dom, tag, attrs);
    let id = n.id;
    node_by_id_mut(&mut dom.root, parent).expect("parent in the tree").append_child(n);
    id
}

/// Settle the document as the app does when it starts.
fn build(dom: &mut Dom) {
    seed_all(dom);
    settle_selects(dom);
}

/// A click on `target` and the default action it leads to: the
/// submissions it makes, as (form, submitter, entry list); a reset
/// button resets its form.
fn click_on(dom: &mut Dom, target: NodeId) -> Vec<(NodeId, Option<NodeId>, Vec<(String, String)>)> {
    match click_action(&dom.root, target, false) {
        FormClick::Ignore => vec![],
        FormClick::Submit { form, submitter } => {
            vec![(form, Some(submitter), collect_with_submitter(&dom.root, form, Some(submitter)))]
        }
        FormClick::Reset(form) => {
            reset_controls(dom, form);
            vec![]
        }
    }
}

/// A `<form>` under the root holding one `input` with `attrs`.
fn one_input_form(dom: &mut Dom, tag: &str, attrs: &[(&str, &str)]) -> (NodeId, NodeId) {
    let root = dom.root.id;
    let form = named(dom, root, "form", &[]);
    let c = named(dom, form, tag, attrs);
    build(dom);
    (form, c)
}

#[test]
fn click_on_input_type_submit_fires_submit_event() {
    let mut dom = Dom::new();
    let (form, btn) = one_input_form(&mut dom, "input", &[("type", "submit")]);
    let fired = click_on(&mut dom, btn);
    assert_eq!(fired.len(), 1);
    assert_eq!(fired[0].0, form);
}

#[test]
fn click_on_button_with_no_type_submits_form() {
    let mut dom = Dom::new();
    let root = dom.root.id;
    let form = named(&mut dom, root, "form", &[]);
    let btn = named(&mut dom, form, "button", &[]);
    let label = dom.create_text_node("Go");
    node_by_id_mut(&mut dom.root, btn).unwrap().append_child(label);
    build(&mut dom);
    assert!(!click_on(&mut dom, btn).is_empty());
}

#[test]
fn click_on_button_type_button_does_not_submit() {
    let mut dom = Dom::new();
    let (_, btn) = one_input_form(&mut dom, "button", &[("type", "button")]);
    assert!(click_on(&mut dom, btn).is_empty());
}

#[test]
fn submit_event_is_cancelable() {
    let mut dom = Dom::new();
    let (form, btn) = one_input_form(&mut dom, "input", &[("type", "submit")]);
    assert_eq!(click_action(&dom.root, btn, false), FormClick::Submit { form, submitter: btn });
    let (outcome, close) = finish_submit(&dom.root, form, Some(btn), true);
    assert_eq!(outcome, SubmitOutcome::Canceled);
    assert!(close.is_none());
}

#[test]
fn disabled_submit_button_does_not_fire_submit() {
    let mut dom = Dom::new();
    let (_, btn) = one_input_form(&mut dom, "input", &[("type", "submit"), ("disabled", "")]);
    assert!(click_on(&mut dom, btn).is_empty());
}

#[test]
fn enter_in_lone_text_input_submits_form() {
    let mut dom = Dom::new();
    let (form, inp) = one_input_form(&mut dom, "input", &[("type", "text")]);
    assert_eq!(implicit_submission(&dom.root, node(&dom, inp), &enter(), false), ImplicitSubmission::Submit(form));
}

#[test]
fn enter_in_form_with_multiple_text_inputs_does_not_submit() {
    let mut dom = Dom::new();
    let root = dom.root.id;
    let form = named(&mut dom, root, "form", &[]);
    let i1 = named(&mut dom, form, "input", &[("type", "text")]);
    named(&mut dom, form, "input", &[("type", "text")]);
    build(&mut dom);
    assert!(press_enter_in(&dom, i1).is_empty());
}

#[test]
fn enter_outside_form_does_not_submit_anything() {
    let mut dom = Dom::new();
    let root = dom.root.id;
    let inp = named(&mut dom, root, "input", &[("type", "text")]);
    build(&mut dom);
    assert!(press_enter_in(&dom, inp).is_empty());
}

#[test]
fn click_on_reset_button_fires_reset_event() {
    let mut dom = Dom::new();
    let (form, btn) = one_input_form(&mut dom, "input", &[("type", "reset")]);
    assert_eq!(click_action(&dom.root, btn, false), FormClick::Reset(form));
}

#[test]
fn collect_returns_text_input_value() {
    let mut dom = Dom::new();
    let (form, _) = one_input_form(&mut dom, "input", &[("type", "text"), ("name", "user"), ("value", "alice")]);
    assert_eq!(collect(&dom.root, form), pairs(&[("user", "alice")]));
}

#[test]
fn collect_skips_inputs_without_name() {
    let mut dom = Dom::new();
    let (form, _) = one_input_form(&mut dom, "input", &[("type", "text"), ("value", "secret")]);
    assert!(collect(&dom.root, form).is_empty());
}

#[test]
fn collect_skips_disabled_inputs() {
    let mut dom = Dom::new();
    let (form, _) =
        one_input_form(&mut dom, "input", &[("type", "text"), ("name", "x"), ("value", "v"), ("disabled", "")]);
    assert!(collect(&dom.root, form).is_empty());
}

#[test]
fn collect_includes_checked_checkboxes_only() {
    let mut dom = Dom::new();
    let root = dom.root.id;
    let form = named(&mut dom, root, "form", &[]);
    named(&mut dom, form, "input", &[("type", "checkbox"), ("name", "a"), ("value", "1"), ("checked", "")]);
    named(&mut dom, form, "input", &[("type", "checkbox"), ("name", "b"), ("value", "2")]);
    build(&mut dom);
    assert_eq!(collect(&dom.root, form), pairs(&[("a", "1")]));
}

#[test]
fn collect_default_checkbox_value_is_on() {
    let mut dom = Dom::new();
    let (form, _) = one_input_form(&mut dom, "input", &[("type", "checkbox"), ("name", "agree"), ("checked", "")]);
    assert_eq!(collect(&dom.root, form), pairs(&[("agree", "on")]));
}

#[test]
fn collect_includes_textarea_text_content() {
    let mut dom = Dom::new();
    let root = dom.root.id;
    let form = named(&mut dom, root, "form", &[]);
    let ta = named(&mut dom, form, "textarea", &[("name", "comments")]);
    let t = dom.create_text_node("hello\nworld");
    node_by_id_mut(&mut dom.root, ta).unwrap().append_child(t);
    build(&mut dom);
    assert_eq!(collect(&dom.root, form), pairs(&[("comments", "hello\nworld")]));
}

#[test]
fn submit_handler_can_read_form_data_via_collect() {
    let mut dom = Dom::new();
    let root = dom.root.id;
    let form = named(&mut dom, root, "form", &[]);
    named(&mut dom, form, "input", &[("type", "text"), ("name", "q"), ("value", "rust")]);
    let btn = named(&mut dom, form, "input", &[("type", "submit")]);
    build(&mut dom);
    let log = click_on(&mut dom, btn);
    assert_eq!(log.len(), 1);
    assert_eq!(collect(&dom.root, log[0].0), pairs(&[("q", "rust")]));
}

#[test]
fn submit_event_carries_submitter_on_button_click() {
    let mut dom = Dom::new();
    let (_, btn) = one_input_form(&mut dom, "input", &[("type", "submit")]);
    let log = click_on(&mut dom, btn);
    assert_eq!(log[0].1, Some(btn));
}

#[test]
fn implicit_enter_submit_has_no_submitter() {
    let mut dom = Dom::new();
    let (_, inp) = one_input_form(&mut dom, "input", &[("type", "text")]);
    let log = press_enter_in(&dom, inp);
    assert_eq!(log.len(), 1);
    assert!(log[0].0.is_none());
}

#[test]
fn reset_restores_default_value_and_default_checked() {
    let mut dom = Dom::new();
    let root = dom.root.id;
    let form = named(&mut dom, root, "form", &[]);
    let text = named(&mut dom, form, "input", &[("value", "a")]);
    let cb = named(&mut dom, form, "input", &[("type", "checkbox")]);
    let ra = named(&mut dom, form, "input", &[("type", "radio"), ("name", "g"), ("checked", "")]);
    let rb = named(&mut dom, form, "input", &[("type", "radio"), ("name", "g")]);
    let reset = named(&mut dom, form, "input", &[("type", "reset")]);
    build(&mut dom);
    set_value(&mut dom, text, "ax");
    pre_activate(&mut dom, cb);
    pre_activate(&mut dom, rb);
    assert_eq!(value(node(&dom, text)), "ax");
    assert!(node(&dom, cb).has_attribute("checked"));
    assert!(!node(&dom, ra).has_attribute("checked") && node(&dom, rb).has_attribute("checked"));
    assert_eq!(default_value(node(&dom, text)), Some("a".into()));
    assert_eq!(node(&dom, cb).ext.default_checked, Some(false));
    assert_eq!(node(&dom, ra).ext.default_checked, Some(true));
    click_on(&mut dom, reset);
    assert_eq!(value(node(&dom, text)), "a");
    assert_eq!(node(&dom, text).get_attribute("value").map(|s| s.as_str()), Some("a"));
    assert!(!node(&dom, cb).has_attribute("checked"));
    assert!(node(&dom, ra).has_attribute("checked") && !node(&dom, rb).has_attribute("checked"));
}

/// A form under the root with the controls `build_controls` adds and a
/// trailing reset button, settled as at start-up.
fn form_with_reset(dom: &mut Dom, build_controls: impl FnOnce(&mut Dom, NodeId)) -> (NodeId, NodeId) {
    let root = dom.root.id;
    let form = named(dom, root, "form", &[]);
    build_controls(dom, form);
    let reset = named(dom, form, "input", &[("type", "reset")]);
    build(dom);
    (form, reset)
}

fn option(dom: &mut Dom, select: NodeId, v: &str, selected: bool) -> NodeId {
    let o = named(dom, select, "option", &[("value", v)]);
    let t = dom.create_text_node(v);
    let on = node_by_id_mut(&mut dom.root, o).unwrap();
    on.append_child(t);
    if selected {
        on.set_attribute("selected", "");
    }
    o
}

#[test]
fn reset_restores_select_options_to_default_selected() {
    let mut dom = Dom::new();
    let mut ids = Vec::new();
    let (_, reset) = form_with_reset(&mut dom, |dom, form| {
        let single = named(dom, form, "select", &[]);
        ids.push(single);
        ids.push(option(dom, single, "a", false));
        ids.push(option(dom, single, "b", true));
        let multi = named(dom, form, "select", &[("multiple", "")]);
        ids.push(multi);
        ids.push(option(dom, multi, "x", true));
        ids.push(option(dom, multi, "y", false));
    });
    let (single, a, b, multi, x, y) = (ids[0], ids[1], ids[2], ids[3], ids[4], ids[5]);
    select_single(node_by_id_mut(&mut dom.root, single).unwrap(), 0);
    select_single(node_by_id_mut(&mut dom.root, multi).unwrap(), 1);
    assert_eq!(select_value(node(&dom, single)), "a");
    assert_eq!(select_value(node(&dom, multi)), "y");
    click_on(&mut dom, reset);
    assert!(!node(&dom, a).has_attribute("selected"));
    assert!(node(&dom, b).has_attribute("selected"));
    assert!(node(&dom, x).has_attribute("selected"));
    assert!(!node(&dom, y).has_attribute("selected"));
    assert_eq!(select_value(node(&dom, single)), "b");
}

#[test]
fn reset_restores_range_to_its_default_value() {
    let mut dom = Dom::new();
    let mut ids = Vec::new();
    let (_, reset) = form_with_reset(&mut dom, |dom, form| {
        ids.push(named(dom, form, "input", &[("type", "range"), ("value", "30")]));
        ids.push(named(dom, form, "input", &[("type", "range")]));
    });
    let (r30, rmid) = (ids[0], ids[1]);
    for (r, v) in [(r30, "70"), (rmid, "10")] {
        let n = node_by_id_mut(&mut dom.root, r).unwrap();
        note_default_value(n);
        n.set_attribute("value", v);
    }
    assert_eq!(default_value(node(&dom, r30)), Some("30".into()));
    assert_eq!(default_value(node(&dom, rmid)), Some("".into()));
    click_on(&mut dom, reset);
    assert_eq!(node(&dom, r30).get_attribute("value").map(|s| s.as_str()), Some("30"));
    assert_eq!(node(&dom, rmid).get_attribute("value"), None);
}

#[test]
fn default_setters_change_what_reset_restores() {
    let mut dom = Dom::new();
    let mut ids = Vec::new();
    let (_, reset) = form_with_reset(&mut dom, |dom, form| {
        ids.push(named(dom, form, "input", &[("value", "a")]));
        ids.push(named(dom, form, "input", &[("type", "checkbox")]));
        ids.push(named(dom, form, "textarea", &[]));
        ids.push(named(dom, form, "input", &[("type", "hidden")]));
    });
    let (text, cb, ta, hidden) = (ids[0], ids[1], ids[2], ids[3]);
    node_by_id_mut(&mut dom.root, text).unwrap().ext.default_value = Some("z".into());
    node_by_id_mut(&mut dom.root, ta).unwrap().ext.default_value = Some("body".into());
    node_by_id_mut(&mut dom.root, cb).unwrap().ext.default_checked = Some(true);
    node_by_id_mut(&mut dom.root, hidden).unwrap().set_attribute("value", "q");
    assert_eq!(value(node(&dom, text)), "a");
    assert!(!node(&dom, cb).has_attribute("checked"));
    assert_eq!(default_value(node(&dom, text)), Some("z".into()));
    assert_eq!(node(&dom, cb).ext.default_checked, Some(true));
    assert_eq!(node(&dom, hidden).get_attribute("value").map(|s| s.as_str()), Some("q"));
    click_on(&mut dom, reset);
    assert_eq!(value(node(&dom, text)), "z");
    assert_eq!(value(node(&dom, ta)), "body");
    assert!(node(&dom, cb).has_attribute("checked"));
}

#[test]
fn collect_skips_selected_options_that_are_disabled() {
    let mut dom = Dom::new();
    let (form, _) = form_with_reset(&mut dom, |dom, form| {
        let multi = named(dom, form, "select", &[("name", "m"), ("multiple", "")]);
        option(dom, multi, "kept", true);
        let own = option(dom, multi, "own-disabled", true);
        node_by_id_mut(&mut dom.root, own).unwrap().set_attribute("disabled", "");
        let group = named(dom, multi, "optgroup", &[("disabled", "")]);
        option(dom, group, "group-disabled", true);
    });
    assert_eq!(collect(&dom.root, form), pairs(&[("m", "kept")]));
}

#[test]
fn collect_single_select_with_disabled_selected_option_submits_nothing() {
    let mut dom = Dom::new();
    let (form, _) = form_with_reset(&mut dom, |dom, form| {
        let single = named(dom, form, "select", &[("name", "s")]);
        option(dom, single, "a", false);
        let b = option(dom, single, "b", true);
        node_by_id_mut(&mut dom.root, b).unwrap().set_attribute("disabled", "");
    });
    assert!(collect(&dom.root, form).is_empty());
}

#[test]
fn collect_includes_only_the_submitter_among_buttons() {
    let mut dom = Dom::new();
    let mut ids = Vec::new();
    let (form, _) = form_with_reset(&mut dom, |dom, form| {
        named(dom, form, "input", &[("name", "q"), ("value", "rust")]);
        ids.push(named(dom, form, "input", &[("type", "submit"), ("name", "a"), ("value", "A")]));
        ids.push(named(dom, form, "button", &[("name", "b"), ("value", "B")]));
        ids.push(named(dom, form, "input", &[("type", "reset"), ("name", "r"), ("value", "R")]));
        ids.push(named(dom, form, "input", &[("type", "button"), ("name", "x"), ("value", "X")]));
        ids.push(named(dom, form, "button", &[("type", "button"), ("name", "y"), ("value", "Y")]));
    });
    assert_eq!(collect(&dom.root, form), pairs(&[("q", "rust")]));
    assert_eq!(collect_with_submitter(&dom.root, form, Some(ids[0])), pairs(&[("q", "rust"), ("a", "A")]));
    assert_eq!(collect_with_submitter(&dom.root, form, Some(ids[1])), pairs(&[("q", "rust"), ("b", "B")]));
    for &not_submit in &ids[2..] {
        assert_eq!(collect_with_submitter(&dom.root, form, Some(not_submit)), pairs(&[("q", "rust")]));
    }
}

#[test]
fn submitter_without_value_contributes_empty_string_and_without_name_nothing() {
    let mut dom = Dom::new();
    let mut ids = Vec::new();
    let (form, _) = form_with_reset(&mut dom, |dom, form| {
        ids.push(named(dom, form, "button", &[("name", "go")]));
        ids.push(named(dom, form, "input", &[("type", "submit"), ("value", "unnamed")]));
    });
    assert_eq!(collect_with_submitter(&dom.root, form, Some(ids[0])), pairs(&[("go", "")]));
    assert!(collect_with_submitter(&dom.root, form, Some(ids[1])).is_empty());
}

#[test]
fn value_less_submit_input_submitter_contributes_empty_string() {
    let mut dom = Dom::new();
    let mut ids = Vec::new();
    let (form, _) = form_with_reset(&mut dom, |dom, form| {
        ids.push(named(dom, form, "input", &[("type", "submit"), ("name", "a")]));
    });
    assert_eq!(collect_with_submitter(&dom.root, form, Some(ids[0])), pairs(&[("a", "")]));
}

#[test]
fn clicked_submit_button_is_the_submitter_and_the_only_button_entry() {
    let mut dom = Dom::new();
    let root = dom.root.id;
    let form = named(&mut dom, root, "form", &[]);
    named(&mut dom, form, "input", &[("type", "submit"), ("name", "act"), ("value", "save")]);
    let second = named(&mut dom, form, "input", &[("type", "submit"), ("name", "act"), ("value", "delete")]);
    build(&mut dom);
    assert_eq!(click_on(&mut dom, second), vec![(form, Some(second), pairs(&[("act", "delete")]))]);
}

#[test]
fn enter_with_a_default_button_clicks_it_and_submits_with_it() {
    let mut dom = Dom::new();
    let root = dom.root.id;
    let form = named(&mut dom, root, "form", &[]);
    let q = named(&mut dom, form, "input", &[("name", "q"), ("value", "rust")]);
    named(&mut dom, form, "input", &[("name", "r"), ("value", "tui")]);
    named(&mut dom, form, "button", &[("type", "button"), ("name", "n"), ("value", "N")]);
    named(&mut dom, form, "input", &[("type", "reset")]);
    let default = named(&mut dom, form, "button", &[("type", "submit"), ("name", "go"), ("value", "1")]);
    named(&mut dom, form, "input", &[("type", "submit"), ("name", "later"), ("value", "2")]);
    build(&mut dom);
    assert_eq!(implicit_submission(&dom.root, node(&dom, q), &enter(), false), ImplicitSubmission::Click(default));
    assert_eq!(press_enter_in(&dom, q), vec![(Some(default), pairs(&[("q", "rust"), ("r", "tui"), ("go", "1")]))]);
}

#[test]
fn enter_with_a_disabled_default_button_does_not_submit() {
    let mut dom = Dom::new();
    let root = dom.root.id;
    let form = named(&mut dom, root, "form", &[]);
    let q = named(&mut dom, form, "input", &[("name", "q")]);
    named(&mut dom, form, "input", &[("type", "submit"), ("disabled", "")]);
    named(&mut dom, form, "input", &[("type", "submit")]);
    build(&mut dom);
    assert!(press_enter_in(&dom, q).is_empty());
}

#[test]
fn button_with_an_invalid_type_is_a_submit_button() {
    let mut dom = Dom::new();
    let mut ids = Vec::new();
    let (form, _) = form_with_reset(&mut dom, |dom, form| {
        ids.push(named(dom, form, "button", &[("type", "bogus"), ("name", "a"), ("value", "A")]));
        ids.push(named(dom, form, "button", &[("type", "reset"), ("name", "b"), ("value", "B")]));
    });
    assert_eq!(collect_with_submitter(&dom.root, form, Some(ids[0])), pairs(&[("a", "A")]));
    assert!(collect_with_submitter(&dom.root, form, Some(ids[1])).is_empty());
}

#[test]
fn click_on_button_with_invalid_type_submits() {
    let mut dom = Dom::new();
    let root = dom.root.id;
    let form = named(&mut dom, root, "form", &[]);
    let btn = named(&mut dom, form, "button", &[("type", "bogus")]);
    build(&mut dom);
    assert_eq!(click_on(&mut dom, btn), vec![(form, Some(btn), vec![])]);
}

#[test]
fn collect_skips_controls_in_a_disabled_fieldset_but_not_its_first_legend() {
    let mut dom = Dom::new();
    let (form, _) = form_with_reset(&mut dom, |dom, form| {
        named(dom, form, "input", &[("name", "a"), ("value", "A")]);
        let fs = named(dom, form, "fieldset", &[("disabled", "")]);
        let legend = named(dom, fs, "legend", &[]);
        named(dom, legend, "input", &[("name", "l"), ("value", "L")]);
        named(dom, fs, "input", &[("name", "b"), ("value", "B")]);
        named(dom, fs, "input", &[("type", "checkbox"), ("name", "c"), ("checked", "")]);
        let inner = named(dom, fs, "fieldset", &[]);
        named(dom, inner, "input", &[("name", "d"), ("value", "D")]);
    });
    assert_eq!(collect(&dom.root, form), pairs(&[("a", "A"), ("l", "L")]));
}

#[test]
fn submit_button_in_a_disabled_fieldset_does_not_submit() {
    let mut dom = Dom::new();
    let mut ids = Vec::new();
    form_with_reset(&mut dom, |dom, form| {
        ids.push(named(dom, form, "input", &[("value", "q")]));
        let fs = named(dom, form, "fieldset", &[("disabled", "")]);
        ids.push(named(dom, fs, "button", &[("name", "go")]));
    });
    assert!(click_on(&mut dom, ids[1]).is_empty());
    assert!(press_enter_in(&dom, ids[0]).is_empty());
}

#[test]
fn control_outside_the_form_with_a_form_attribute_is_submitted_and_reset_with_it() {
    let mut dom = Dom::new();
    let root = dom.root.id;
    let before = named(&mut dom, root, "input", &[("name", "before"), ("form", "f"), ("value", "1")]);
    let form = named(&mut dom, root, "form", &[("id", "f")]);
    let inside = named(&mut dom, form, "input", &[("name", "inside"), ("value", "2")]);
    let after = named(&mut dom, root, "input", &[("name", "after"), ("form", "f"), ("value", "3")]);
    named(&mut dom, root, "input", &[("name", "stray"), ("value", "4")]);
    let reset = named(&mut dom, root, "input", &[("type", "reset"), ("form", "f")]);
    build(&mut dom);
    assert_eq!(elements(&dom.root, form), vec![before, inside, after, reset]);
    assert_eq!(control_state(&dom.root, before).map(|s| s.0), Some(Some(form)));
    assert_eq!(control_state(&dom.root, reset).map(|s| s.0), Some(Some(form)));
    assert_eq!(collect(&dom.root, form), pairs(&[("before", "1"), ("inside", "2"), ("after", "3")]));
    set_value(&mut dom, before, "changed");
    set_value(&mut dom, after, "changed");
    click_on(&mut dom, reset);
    assert_eq!(collect(&dom.root, form), pairs(&[("before", "1"), ("inside", "2"), ("after", "3")]));
}

#[test]
fn control_inside_one_form_can_belong_to_another() {
    let mut dom = Dom::new();
    let root = dom.root.id;
    let a = named(&mut dom, root, "form", &[("id", "a")]);
    let b = named(&mut dom, root, "form", &[("id", "b")]);
    named(&mut dom, a, "input", &[("name", "for_a"), ("value", "A")]);
    named(&mut dom, a, "input", &[("name", "for_b"), ("form", "b"), ("value", "B")]);
    let go = named(&mut dom, a, "button", &[("form", "b"), ("name", "go")]);
    build(&mut dom);
    assert_eq!(collect(&dom.root, a), pairs(&[("for_a", "A")]));
    assert_eq!(collect(&dom.root, b), pairs(&[("for_b", "B")]));
    assert_eq!(click_on(&mut dom, go), vec![(b, Some(go), pairs(&[("for_b", "B"), ("go", "")]))]);
}

#[test]
fn unknown_form_attribute_means_no_owner_even_inside_a_form() {
    let mut dom = Dom::new();
    let root = dom.root.id;
    let f = named(&mut dom, root, "form", &[("id", "f")]);
    named(&mut dom, f, "input", &[("name", "ok"), ("value", "1")]);
    named(&mut dom, f, "input", &[("name", "lost"), ("form", "nope"), ("value", "2")]);
    let go = named(&mut dom, f, "button", &[("form", "nope")]);
    build(&mut dom);
    assert_eq!(collect(&dom.root, f), pairs(&[("ok", "1")]));
    assert!(click_on(&mut dom, go).is_empty());
}

#[test]
fn submit_event_reports_the_effective_submission_attributes() {
    let mut dom = Dom::new();
    let root = dom.root.id;
    let f = named(
        &mut dom,
        root,
        "form",
        &[("action", "/save"), ("method", "post"), ("enctype", "multipart/form-data"), ("target", "_blank")],
    );
    let plain = named(&mut dom, f, "button", &[]);
    let over = named(
        &mut dom,
        f,
        "input",
        &[
            ("type", "submit"),
            ("formaction", "/other"),
            ("formmethod", "get"),
            ("formenctype", "text/plain"),
            ("formtarget", "_self"),
            ("formnovalidate", ""),
        ],
    );
    build(&mut dom);
    let mut seen = Vec::new();
    for b in [plain, over] {
        if let FormClick::Submit { form, submitter } = click_action(&dom.root, b, false) {
            seen.push(submit_detail(node(&dom, form), Some(node(&dom, submitter))));
        }
    }
    assert_eq!(seen.len(), 2);
    let d = &seen[0];
    assert_eq!(
        (d.submitter, d.action.as_str(), d.method, d.enctype, d.target.as_str(), d.no_validate),
        (Some(plain), "/save", FormMethod::Post, FormEnctype::MultipartFormData, "_blank", false)
    );
    let d = &seen[1];
    assert_eq!(
        (d.submitter, d.action.as_str(), d.method, d.enctype, d.target.as_str(), d.no_validate),
        (Some(over), "/other", FormMethod::Get, FormEnctype::TextPlain, "_self", true)
    );
}

#[test]
fn a_text_input_contributes_its_first_text_child_and_a_textarea_all_its_text() {
    let mut dom = Dom::new();
    let mut form = el(&mut dom, "form", &[]);
    let mut a = el(&mut dom, "input", &[("name", "a")]);
    let t1 = dom.create_text_node("ab");
    let t2 = dom.create_text_node("cd");
    a.append_child(t1);
    a.append_child(t2);
    let mut area = el(&mut dom, "textarea", &[("name", "t")]);
    let t3 = dom.create_text_node("x");
    let t4 = dom.create_text_node("y");
    area.append_child(t3);
    area.append_child(t4);
    let fid = form.id;
    form.append_child(a);
    form.append_child(area);
    dom.root.append_child(form);
    assert_eq!(collect(&dom.root, fid), pairs(&[("a", "ab"), ("t", "xy")]));
}
