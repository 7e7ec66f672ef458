use rdom_tui::autofocus::{focus_first_autofocus, focus_within};
use rdom_tui::dialog::show_modal;
use rdom_tui::dom::{Dom, Node, NodeId};

fn el(dom: &mut Dom, tag: &str, attrs: &[(&str, &str)]) -> Node {
    let mut n = dom.create_element(tag);
    for (k, v) in attrs {
        n.set_attribute(k, v);
    }
    n
}

/// Append `nodes` under the root; their ids in order.
fn mount(dom: &mut Dom, nodes: Vec<Node>) -> Vec<NodeId> {
    let ids = nodes.iter().map(|n| n.id).collect();
    for n in nodes {
        dom.root.append_child(n);
    }
    ids
}

#[test]
fn app_build_focuses_first_autofocus_element() {
    let mut dom = Dom::new();
    let a = el(&mut dom, "button", &[]);
    let b = el(&mut dom, "button", &[("autofocus", "")]);
    let ids = mount(&mut dom, vec![a, b]);
    focus_first_autofocus(&mut dom);
    assert_eq!(dom.focused, Some(ids[1]));
}

#[test]
fn document_order_wins_when_multiple_autofocus() {
    let mut dom = Dom::new();
    let first = el(&mut dom, "button", &[("autofocus", "")]);
    let second = el(&mut dom, "button", &[("autofocus", "")]);
    let ids = mount(&mut dom, vec![first, second]);
    focus_first_autofocus(&mut dom);
    assert_eq!(dom.focused, Some(ids[0]));
}

#[test]
fn no_autofocus_attribute_does_not_set_focus() {
    let mut dom = Dom::new();
    let b = el(&mut dom, "button", &[]);
    mount(&mut dom, vec![b]);
    focus_first_autofocus(&mut dom);
    assert_eq!(dom.focused, None);
}

#[test]
fn non_focusable_autofocus_target_is_skipped() {
    let mut dom = Dom::new();
    let p = el(&mut dom, "p", &[("autofocus", "")]);
    let btn = el(&mut dom, "button", &[("autofocus", "")]);
    let ids = mount(&mut dom, vec![p, btn]);
    focus_first_autofocus(&mut dom);
    assert_eq!(dom.focused, Some(ids[1]));
}

#[test]
fn disabled_autofocus_element_is_skipped() {
    let mut dom = Dom::new();
    let b1 = el(&mut dom, "button", &[("autofocus", ""), ("disabled", "")]);
    let b2 = el(&mut dom, "button", &[("autofocus", "")]);
    let ids = mount(&mut dom, vec![b1, b2]);
    focus_first_autofocus(&mut dom);
    assert_eq!(dom.focused, Some(ids[1]));
}

#[test]
fn pre_existing_focus_is_not_clobbered() {
    let mut dom = Dom::new();
    let a = el(&mut dom, "button", &[]);
    let b = el(&mut dom, "button", &[("autofocus", "")]);
    let ids = mount(&mut dom, vec![a, b]);
    dom.focused = Some(ids[0]);
    focus_first_autofocus(&mut dom);
    assert_eq!(dom.focused, Some(ids[0]));
}

#[test]
fn dialog_show_modal_focuses_autofocus_descendant() {
    let mut dom = Dom::new();
    let mut dlg = el(&mut dom, "dialog", &[]);
    let btn = el(&mut dom, "button", &[("autofocus", "")]);
    let b = btn.id;
    dlg.append_child(btn);
    let ids = mount(&mut dom, vec![dlg]);
    focus_first_autofocus(&mut dom);
    show_modal(&mut dom, ids[0]);
    assert_eq!(dom.focused, Some(b));
}

#[test]
fn dialog_show_modal_without_autofocus_descendant_leaves_focus_alone() {
    let mut dom = Dom::new();
    let mut dlg = el(&mut dom, "dialog", &[]);
    let btn = el(&mut dom, "button", &[]);
    dlg.append_child(btn);
    let ids = mount(&mut dom, vec![dlg]);
    focus_first_autofocus(&mut dom);
    let other = el(&mut dom, "button", &[]);
    let o = mount(&mut dom, vec![other])[0];
    dom.focused = Some(o);
    show_modal(&mut dom, ids[0]);
    assert_eq!(dom.focused, Some(o));
}

#[test]
fn focus_within_scans_subtree_only() {
    let mut dom = Dom::new();
    let mut a = el(&mut dom, "div", &[]);
    let leaf = el(&mut dom, "p", &[]);
    a.append_child(leaf);
    let ids = mount(&mut dom, vec![a]);
    focus_first_autofocus(&mut dom);
    let anchor = el(&mut dom, "button", &[]);
    let anchor_id = mount(&mut dom, vec![anchor])[0];
    dom.focused = Some(anchor_id);
    focus_within(&mut dom, ids[0]);
    assert_eq!(dom.focused, Some(anchor_id));
}

#[test]
fn focus_within_finds_deep_descendant() {
    let mut dom = Dom::new();
    let mut outer = el(&mut dom, "div", &[]);
    let mut middle = el(&mut dom, "div", &[]);
    let inner = el(&mut dom, "button", &[("autofocus", "")]);
    let inner_id = inner.id;
    middle.append_child(inner);
    outer.append_child(middle);
    let ids = mount(&mut dom, vec![outer]);
    dom.focused = None;
    focus_within(&mut dom, ids[0]);
    assert_eq!(dom.focused, Some(inner_id));
}
