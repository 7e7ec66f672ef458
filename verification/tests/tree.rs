use rdom_tui::dom::{Dom, Node, NodeId};
use rdom_tui::events::{KeyboardEvent, Modifiers, ToggleChange};
use rdom_tui::path::node_by_id;
use rdom_tui::tree::{active, handle_key, key_applies, key_step, on_click, set_expanded, visible_items, TreeKeyEffect, TreeStep};

const ACTIVE: &str = "data-rdom-active";

fn ti(dom: &mut Dom, label: &str, attrs: &[(&str, &str)]) -> Node {
    let mut li = dom.create_element("li");
    li.set_attribute("role", "treeitem");
    for (k, v) in attrs {
        li.set_attribute(k, v);
    }
    let t = dom.create_text_node(label);
    li.append_child(t);
    li
}

fn group(dom: &mut Dom, items: Vec<Node>) -> Node {
    let mut g = dom.create_element("ul");
    g.set_attribute("role", "group");
    for i in items {
        g.append_child(i);
    }
    g
}

struct Fix {
    dom: Dom,
    tree: NodeId,
    cluster: NodeId,
    pods: NodeId,
    nodes: NodeId,
    node1: NodeId,
    node2: NodeId,
}

/// ```text
/// <ul role=tree>
///   <li treeitem aria-expanded=true> Cluster
///     <ul group>
///       <li treeitem> Pods
///       <li treeitem aria-expanded=true> Nodes
///         <ul group>
///           <li treeitem> node-1
///           <li treeitem> node-2
/// ```
/// with the focus on the tree.
fn fixture() -> Fix {
    let mut dom = Dom::new();
    let mut tree = dom.create_element("ul");
    tree.set_attribute("role", "tree");
    let mut cluster = ti(&mut dom, "Cluster", &[("aria-expanded", "true")]);
    let pods = ti(&mut dom, "Pods", &[]);
    let mut nodes = ti(&mut dom, "Nodes", &[("aria-expanded", "true")]);
    let node1 = ti(&mut dom, "node-1", &[]);
    let node2 = ti(&mut dom, "node-2", &[]);
    let ids = (tree.id, cluster.id, pods.id, nodes.id, node1.id, node2.id);
    let ng = group(&mut dom, vec![node1, node2]);
    nodes.append_child(ng);
    let cg = group(&mut dom, vec![pods, nodes]);
    cluster.append_child(cg);
    tree.append_child(cluster);
    dom.root.append_child(tree);
    dom.focused = Some(ids.0);
    Fix { dom, tree: ids.0, cluster: ids.1, pods: ids.2, nodes: ids.3, node1: ids.4, node2: ids.5 }
}

fn tree_node(f: &mut Fix) -> &mut Node {
    &mut f.dom.root.children[0]
}

/// A bare key on the focused tree, as the defaults run it.
fn press(f: &mut Fix, k: &str) -> TreeKeyEffect {
    let applies = key_applies(&f.dom.root.children[0], &KeyboardEvent::new(k, Modifiers::none()), false);
    assert!(applies);
    handle_key(tree_node(f), k)
}

fn cursor(f: &Fix) -> Option<NodeId> {
    active(&f.dom.root.children[0])
}

fn expanded(f: &Fix, id: NodeId) -> Option<String> {
    node_by_id(&f.dom.root, id).unwrap().get_attribute("aria-expanded").cloned()
}

fn set_attr(f: &mut Fix, id: NodeId, k: &str, v: &str) {
    rdom_tui::path::node_by_id_mut(&mut f.dom.root, id).unwrap().set_attribute(k, v);
}

/// The text node of the row `item` (its label).
fn label_of(f: &Fix, item: NodeId) -> NodeId {
    node_by_id(&f.dom.root, item).unwrap().children[0].id
}

#[test]
fn visible_rows_skip_collapsed_subtrees() {
    let mut f = fixture();
    assert_eq!(visible_items(&f.dom.root.children[0]), vec![f.cluster, f.pods, f.nodes, f.node1, f.node2]);
    let nodes = f.nodes;
    set_attr(&mut f, nodes, "aria-expanded", "false");
    assert_eq!(visible_items(&f.dom.root.children[0]), vec![f.cluster, f.pods, f.nodes]);
}

#[test]
fn arrow_down_seeds_then_advances_cursor() {
    let mut f = fixture();
    press(&mut f, "ArrowDown");
    assert_eq!(cursor(&f), Some(f.cluster), "first Down → first item");
    press(&mut f, "ArrowDown");
    assert_eq!(cursor(&f), Some(f.pods), "second Down → next visible");
}

#[test]
fn arrow_up_clamps_at_top() {
    let mut f = fixture();
    press(&mut f, "ArrowDown");
    press(&mut f, "ArrowUp");
    assert_eq!(cursor(&f), Some(f.cluster));
}

#[test]
fn home_and_end_jump() {
    let mut f = fixture();
    press(&mut f, "End");
    assert_eq!(cursor(&f), Some(f.node2), "End → last visible");
    press(&mut f, "Home");
    assert_eq!(cursor(&f), Some(f.cluster), "Home → first");
}

#[test]
fn down_skips_collapsed_subtree() {
    let mut f = fixture();
    let cluster = f.cluster;
    set_attr(&mut f, cluster, "aria-expanded", "false");
    press(&mut f, "ArrowDown");
    press(&mut f, "ArrowDown");
    assert_eq!(cursor(&f), Some(f.cluster));
}

#[test]
fn right_expands_collapsed_branch_and_fires_toggle() {
    let mut f = fixture();
    let cluster = f.cluster;
    set_attr(&mut f, cluster, "aria-expanded", "false");
    let mut fires = 0u32;
    press(&mut f, "ArrowDown");
    if press(&mut f, "ArrowRight").toggled == Some(ToggleChange { target: cluster, opened: true }) {
        fires += 1;
    }
    assert_eq!(expanded(&f, cluster), Some("true".to_string()));
    assert_eq!(fires, 1, "expand fires toggle");
}

#[test]
fn right_on_expanded_branch_descends_to_first_child() {
    let mut f = fixture();
    press(&mut f, "ArrowDown");
    let eff = press(&mut f, "ArrowRight");
    assert_eq!(eff.toggled, None);
    assert_eq!(cursor(&f), Some(f.pods));
}

#[test]
fn left_collapses_then_ascends_to_parent() {
    let mut f = fixture();
    press(&mut f, "End");
    press(&mut f, "ArrowUp");
    assert_eq!(cursor(&f), Some(f.node1));
    press(&mut f, "ArrowUp");
    assert_eq!(cursor(&f), Some(f.nodes));
    let eff = press(&mut f, "ArrowLeft");
    assert_eq!(eff.toggled, Some(ToggleChange { target: f.nodes, opened: false }));
    assert_eq!(expanded(&f, f.nodes), Some("false".to_string()));
    press(&mut f, "ArrowLeft");
    assert_eq!(cursor(&f), Some(f.cluster));
}

#[test]
fn right_on_unloaded_branch_fires_toggle_for_lazy_load() {
    let mut dom = Dom::new();
    let mut tree = dom.create_element("ul");
    tree.set_attribute("role", "tree");
    let lazy = ti(&mut dom, "Lazy", &[("aria-expanded", "false")]);
    let lazy_id = lazy.id;
    tree.append_child(lazy);
    dom.root.append_child(tree);
    let t = &mut dom.root.children[0];
    handle_key(t, "ArrowDown");
    let eff = handle_key(t, "ArrowRight");
    let fires = u32::from(eff.toggled == Some(ToggleChange { target: lazy_id, opened: true }));
    assert_eq!(fires, 1, "expanding an unloaded branch fires the load hook");
}

#[test]
fn enter_activates_and_fires_click() {
    let mut f = fixture();
    press(&mut f, "ArrowDown");
    press(&mut f, "ArrowDown");
    let eff = press(&mut f, "Enter");
    let fires = u32::from(eff.activated == Some(f.pods));
    assert_eq!(fires, 1, "Enter fires click on the active item");
    assert_eq!(eff.toggled, None);
}

#[test]
fn space_on_a_branch_toggles_and_activates_it() {
    let mut f = fixture();
    press(&mut f, "ArrowDown");
    let eff = press(&mut f, " ");
    assert_eq!(eff.activated, Some(f.cluster));
    assert_eq!(eff.toggled, Some(ToggleChange { target: f.cluster, opened: false }));
}

#[test]
fn only_one_row_carries_the_cursor() {
    let mut f = fixture();
    press(&mut f, "ArrowDown");
    press(&mut f, "ArrowDown");
    assert!(!node_by_id(&f.dom.root, f.cluster).unwrap().has_attribute(ACTIVE));
    assert!(node_by_id(&f.dom.root, f.pods).unwrap().has_attribute(ACTIVE));
}

#[test]
fn key_step_names_the_step() {
    let f = fixture();
    let t = &f.dom.root.children[0];
    assert_eq!(key_step(t, "Home"), TreeStep::MoveTo(f.cluster));
    assert_eq!(key_step(t, "x"), TreeStep::Stay);
    assert_eq!(key_step(t, "Enter"), TreeStep::Activate(f.cluster));
}

#[test]
fn click_on_label_sets_cursor_without_toggling() {
    let mut f = fixture();
    let pods_label = label_of(&f, f.pods);
    let t = on_click(&mut f.dom, pods_label, false, true);
    assert_eq!(t, None);
    assert_eq!(f.dom.focused, Some(f.tree));
    assert_eq!(cursor(&f), Some(f.pods));
    assert_eq!(expanded(&f, f.cluster), Some("true".to_string()));
}

#[test]
fn click_in_twisty_gutter_toggles_branch() {
    let mut f = fixture();
    let cluster = f.cluster;
    let t = on_click(&mut f.dom, cluster, false, true);
    assert_eq!(t, Some(ToggleChange { target: cluster, opened: false }));
    assert_eq!(expanded(&f, cluster), Some("false".to_string()), "gutter click collapses the branch");
}

#[test]
fn keyboard_click_on_a_branch_does_not_toggle_it() {
    let mut f = fixture();
    let cluster = f.cluster;
    assert_eq!(on_click(&mut f.dom, cluster, false, false), None);
    assert_eq!(expanded(&f, cluster), Some("true".to_string()));
    assert_eq!(cursor(&f), Some(cluster));
}

#[test]
fn prevent_default_suppresses_builtin_navigation() {
    let f = fixture();
    let tree = &f.dom.root.children[0];
    let mods = Modifiers::none();
    assert!(!key_applies(tree, &KeyboardEvent::new("ArrowDown", mods), true));
    let ctrl = Modifiers { shift: false, ctrl: true, alt: false, meta: false };
    assert!(!key_applies(tree, &KeyboardEvent::new("ArrowDown", ctrl), false));
    assert_eq!(cursor(&f), None, "no cursor moved — default prevented");
}

#[test]
fn a_prevented_click_leaves_the_tree_alone() {
    let mut f = fixture();
    let cluster = f.cluster;
    assert_eq!(on_click(&mut f.dom, cluster, true, true), None);
    assert_eq!(cursor(&f), None);
    assert_eq!(expanded(&f, cluster), Some("true".to_string()));
}

#[test]
fn set_expanded_to_the_current_state_fires_nothing() {
    let mut f = fixture();
    let nodes = f.nodes;
    assert_eq!(set_expanded(tree_node(&mut f), nodes, true), None);
    assert_eq!(set_expanded(tree_node(&mut f), nodes, false), Some(ToggleChange { target: nodes, opened: false }));
}
