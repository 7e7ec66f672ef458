use rdom_tui::dom::{Dom, NodeId};
use rdom_tui::path::node_by_id;
use rdom_tui::select::model::value;
use rdom_tui::select::queue::{enclosing_select, flush, flush_plan, observe, Mutation, Queued};

fn select_dom(labels: &[&str]) -> (Dom, NodeId, Vec<NodeId>) {
    let mut dom = Dom::new();
    let mut sel = dom.create_element("select");
    let mut opts = Vec::new();
    for label in labels {
        let mut opt = dom.create_element("option");
        opt.set_attribute("value", label);
        opts.push(opt.id);
        sel.append_child(opt);
    }
    let id = sel.id;
    dom.root.append_child(sel);
    (dom, id, opts)
}

#[test]
fn of_several_picks_only_the_latest_per_select_is_kept() {
    let q = vec![
        Queued::Picked { select: 1, option: 10 },
        Queued::OptionsChanged(1),
        Queued::Picked { select: 2, option: 20 },
        Queued::Picked { select: 1, option: 11 },
    ];
    assert_eq!(
        flush_plan(&q),
        vec![Queued::OptionsChanged(1), Queued::Picked { select: 2, option: 20 }, Queued::Picked { select: 1, option: 11 }]
    );
}

#[test]
fn consecutive_repeats_run_once() {
    let q = vec![Queued::OptionsChanged(1), Queued::OptionsChanged(1), Queued::OptionsChanged(2), Queued::OptionsChanged(1)];
    assert_eq!(flush_plan(&q), vec![Queued::OptionsChanged(1), Queued::OptionsChanged(2), Queued::OptionsChanged(1)]);
}

#[test]
fn option_insertions_queue_the_algorithm_for_their_select() {
    let (dom, s, opts) = select_dom(&["a", "b"]);
    let m = Mutation::ChildListChanged { parent: s, changed_tags: vec!["option".to_string()] };
    assert_eq!(observe(&dom.root, &m, false), Some(Queued::OptionsChanged(s)));
    assert_eq!(observe(&dom.root, &m, true), None, "the flush's own writes are not queued");
    let other = Mutation::ChildListChanged { parent: s, changed_tags: vec!["span".to_string()] };
    assert_eq!(observe(&dom.root, &other, false), None);
    assert_eq!(enclosing_select(&dom.root, opts[0]), Some(s));
}

#[test]
fn an_option_gaining_selected_queues_a_pick() {
    let (dom, s, opts) = select_dom(&["a", "b"]);
    let gained = Mutation::AttributeChanged { id: opts[1], name: "selected".to_string(), old: None, new: Some(String::new()) };
    assert_eq!(observe(&dom.root, &gained, false), Some(Queued::Picked { select: s, option: opts[1] }));
    let changed = Mutation::AttributeChanged {
        id: opts[1],
        name: "selected".to_string(),
        old: Some(String::new()),
        new: Some("x".to_string()),
    };
    assert_eq!(observe(&dom.root, &changed, false), None);
}

#[test]
fn flush_makes_the_latest_pick_exclusive() {
    let (mut dom, s, opts) = select_dom(&["a", "b", "c"]);
    dom.root.children[0].children[0].set_attribute("selected", "");
    dom.root.children[0].children[2].set_attribute("selected", "");
    flush(&mut dom, &vec![Queued::Picked { select: s, option: opts[0] }, Queued::Picked { select: s, option: opts[2] }]);
    assert_eq!(value(node_by_id(&dom.root, s).unwrap()), "c");
}

#[test]
fn flush_runs_the_algorithm_after_option_changes() {
    let (mut dom, s, _) = select_dom(&["a", "b"]);
    flush(&mut dom, &vec![Queued::OptionsChanged(s)]);
    assert_eq!(value(node_by_id(&dom.root, s).unwrap()), "a");
    flush(&mut dom, &vec![Queued::OptionsChanged(424242)]);
    assert_eq!(value(node_by_id(&dom.root, s).unwrap()), "a");
}
