use rdom_tui::animation::{clear_retired, collect_transitions, write_presentation, ActiveAnimation, AnimatedProp, AnimatedValue, AnimationRegistry, TransitionEventKind};
use rdom_tui::dom::{Dom, NodeId};
use rdom_tui::path::{node_by_id, node_by_id_mut};
use rdom_tui::render::Color;
use rdom_tui::style::{
    AnimatableProperty, ComputedStyle, Gap, Length, Padding, Size, StyleSlot, TimingFunction, TransitionProperty, ZIndex,
};

fn anim(node: u64, prop: AnimatedProp, started_at: u64, delay: u32, duration: u32) -> ActiveAnimation {
    ActiveAnimation {
        node,
        slot: StyleSlot::Host,
        property: prop,
        from: AnimatedValue::Color(Color::Rgb(0, 0, 0)),
        to: AnimatedValue::Color(Color::Rgb(255, 255, 255)),
        started_at,
        delay,
        duration,
        timing: TimingFunction::Linear,
        started_dispatched: false,
    }
}

#[test]
fn register_replaces_the_same_node_and_property() {
    let mut r = AnimationRegistry::new();
    r.register(anim(1, AnimatedProp::Fg, 0, 0, 100), 0, None);
    r.register(anim(1, AnimatedProp::Bg, 0, 0, 100), 0, None);
    assert_eq!(r.len(), 2);
    let mid = AnimatedValue::Color(Color::Rgb(9, 9, 9));
    r.register(anim(1, AnimatedProp::Fg, 50, 0, 100), 50, Some(mid));
    assert_eq!(r.len(), 2, "the Fg animation was replaced, not added");
    let found = r.find(1, StyleSlot::Host, AnimatedProp::Fg).unwrap();
    assert_eq!(found.started_at, 50);
    assert_eq!(found.from, mid, "the replacement starts from the interrupted value");
    let evs = r.take_pending_events();
    assert_eq!(evs.len(), 1);
    assert_eq!(evs[0].kind, TransitionEventKind::Cancel);
    assert_eq!(evs[0].property, AnimatedProp::Fg);
    assert_eq!(evs[0].elapsed_ms, 50);
}

#[test]
fn advance_fires_start_then_end_and_retires() {
    let mut r = AnimationRegistry::new();
    r.register(anim(1, AnimatedProp::Fg, 0, 10, 100), 0, None);
    let retired = r.advance(5);
    assert!(retired.is_empty());
    assert!(r.take_pending_events().is_empty());
    let retired = r.advance(20);
    assert!(retired.is_empty());
    let evs = r.take_pending_events();
    assert_eq!(evs.len(), 1);
    assert_eq!(evs[0].kind, TransitionEventKind::Start);
    let retired = r.advance(110);
    assert_eq!(retired.len(), 1);
    assert!(r.is_empty());
    let evs = r.take_pending_events();
    assert_eq!(evs.len(), 1);
    assert_eq!(evs[0].kind, TransitionEventKind::End);
    assert_eq!(evs[0].elapsed_ms, 100);
}

#[test]
fn start_and_end_in_one_advance_come_in_that_order() {
    let mut r = AnimationRegistry::new();
    r.register(anim(3, AnimatedProp::Width, 0, 0, 10), 0, None);
    r.advance(50);
    let kinds: Vec<TransitionEventKind> = r.take_pending_events().iter().map(|e| e.kind).collect();
    assert_eq!(kinds, vec![TransitionEventKind::Start, TransitionEventKind::End]);
}

#[test]
fn cancel_for_node_removes_only_that_node() {
    let mut r = AnimationRegistry::new();
    r.register(anim(1, AnimatedProp::Fg, 0, 0, 100), 0, None);
    r.register(anim(2, AnimatedProp::Fg, 0, 0, 100), 0, None);
    r.register(anim(1, AnimatedProp::Bg, 0, 0, 100), 0, None);
    r.cancel_for_node(1, 30);
    assert_eq!(r.len(), 1);
    assert!(r.find(1, StyleSlot::Host, AnimatedProp::Fg).is_none());
    assert!(r.find(1, StyleSlot::Host, AnimatedProp::Bg).is_none());
    assert!(r.find(2, StyleSlot::Host, AnimatedProp::Fg).is_some());
    let evs = r.take_pending_events();
    assert_eq!(evs.len(), 2);
    assert!(evs.iter().all(|e| e.kind == TransitionEventKind::Cancel && e.node == 1 && e.elapsed_ms == 30));
}

#[test]
fn css_names_of_properties() {
    assert_eq!(AnimatedProp::Fg.css_name(), "color");
    assert_eq!(AnimatedProp::Bg.css_name(), "background-color");
}

/// A computed style with foreground `fg`, with or without
/// `transition: color 100ms linear`.
fn style(fg: Color, transition: bool) -> ComputedStyle {
    ComputedStyle {
        fg,
        bg: Color::Reset,
        border_fg: Color::Reset,
        width: Size::Auto,
        height: Size::Auto,
        padding: Padding::zero(),
        gap: Gap::Cells(0),
        top: Length::Auto,
        right: Length::Auto,
        bottom: Length::Auto,
        left: Length::Auto,
        z_index: ZIndex::Auto,
        transition_property: if transition { vec![TransitionProperty::Named(AnimatableProperty::Color)] } else { vec![] },
        transition_duration: if transition { vec![100] } else { vec![] },
        transition_timing_function: if transition { vec![TimingFunction::Linear] } else { vec![] },
        transition_delay: if transition { vec![0] } else { vec![] },
    }
}

fn div_dom() -> (Dom, NodeId) {
    let mut dom = Dom::new();
    let div = dom.create_element("div");
    let id = div.id;
    dom.root.append_child(div);
    (dom, id)
}

/// A cascade giving `div` the style `s`, then the transition pass at
/// `now`, its transitions registered.
fn cascade(dom: &mut Dom, div: NodeId, s: ComputedStyle, reg: &mut AnimationRegistry, now: u64) {
    node_by_id_mut(&mut dom.root, div).unwrap().ext.computed = Some(s);
    for a in collect_transitions(&mut dom.root, now) {
        reg.register(a, now, None);
    }
}

#[test]
fn property_change_without_transition_rule_applies_instantly() {
    let (mut dom, div) = div_dom();
    let mut reg = AnimationRegistry::new();
    cascade(&mut dom, div, style(Color::Rgb(255, 0, 0), false), &mut reg, 0);
    cascade(&mut dom, div, style(Color::Rgb(0, 0, 255), false), &mut reg, 0);
    assert_eq!(reg.len(), 0);
    let computed = node_by_id(&dom.root, div).unwrap().ext.computed.clone().unwrap();
    assert_eq!(computed.fg, Color::Rgb(0, 0, 255));
}

#[test]
fn transitionend_event_queued_at_completion() {
    let (mut dom, div) = div_dom();
    let mut reg = AnimationRegistry::new();
    cascade(&mut dom, div, style(Color::Rgb(255, 0, 0), true), &mut reg, 0);
    cascade(&mut dom, div, style(Color::Rgb(0, 0, 255), true), &mut reg, 0);
    reg.advance(0);
    let initial = reg.take_pending_events();
    assert!(initial.iter().any(|e| e.kind == TransitionEventKind::Start));
    let n = node_by_id_mut(&mut dom.root, div).unwrap();
    write_presentation(&mut n.ext, StyleSlot::Host, AnimatedProp::Fg, AnimatedValue::Color(Color::Rgb(255, 0, 0)));
    assert!(node_by_id(&dom.root, div).unwrap().ext.presentation.fg.is_some());
    let retired = reg.advance(150);
    clear_retired(&mut dom.root, &retired);
    assert!(reg.is_empty());
    assert!(node_by_id(&dom.root, div).unwrap().ext.presentation.fg.is_none());
    let ending = reg.take_pending_events();
    assert!(
        ending.iter().any(|e| e.kind == TransitionEventKind::End && e.property == AnimatedProp::Fg),
        "expected transitionend; got {:?}",
        ending
    );
}

#[test]
fn re_setting_property_mid_flight_fires_cancel_and_restarts_from_current() {
    let (mut dom, div) = div_dom();
    let mut reg = AnimationRegistry::new();
    cascade(&mut dom, div, style(Color::Rgb(255, 0, 0), true), &mut reg, 0);
    cascade(&mut dom, div, style(Color::Rgb(0, 0, 255), true), &mut reg, 0);
    reg.advance(50);
    let _ = reg.take_pending_events();
    cascade(&mut dom, div, style(Color::Rgb(0, 255, 0), true), &mut reg, 50);
    let after_retarget = reg.take_pending_events();
    assert!(after_retarget.iter().any(|e| e.kind == TransitionEventKind::Cancel && e.property == AnimatedProp::Fg));
    assert_eq!(reg.len(), 1);
}

#[test]
fn a_second_diff_without_a_cascade_starts_nothing() {
    let (mut dom, div) = div_dom();
    let mut reg = AnimationRegistry::new();
    cascade(&mut dom, div, style(Color::Rgb(255, 0, 0), true), &mut reg, 0);
    node_by_id_mut(&mut dom.root, div).unwrap().ext.computed = Some(style(Color::Rgb(0, 0, 255), true));
    assert_eq!(collect_transitions(&mut dom.root, 10).len(), 1);
    assert!(collect_transitions(&mut dom.root, 20).is_empty());
}

#[test]
fn transitionstart_is_queued_once_across_advances() {
    let mut r = AnimationRegistry::new();
    r.register(anim(1, AnimatedProp::Fg, 0, 10, 100), 0, None);
    let mut starts = 0;
    for t in [0u64, 10, 20, 30, 60, 90] {
        r.advance(t);
        starts += r.take_pending_events().iter().filter(|e| e.kind == TransitionEventKind::Start).count();
    }
    assert_eq!(starts, 1);
    r.advance(200);
    let ends = r.take_pending_events().iter().filter(|e| e.kind == TransitionEventKind::End).count();
    assert_eq!(ends, 1);
    r.advance(300);
    assert!(r.take_pending_events().is_empty());
}
