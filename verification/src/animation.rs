//! Transitions: after each cascade the previous and current computed
//! styles of every element (and of its `::before` / `::after`) are
//! compared; each animatable property that changed under a
//! `transition-*` rule with some duration or delay becomes an active
//! animation. The registry keeps one animation per (node, slot,
//! property), queues `transitionstart` / `transitionend` /
//! `transitioncancel` events, and retires finished animations. Times
//! are milliseconds on the app clock. The in-between values themselves
//! (easing and interpolation) are computed by the caller.

use vstd::prelude::*;
use vstd::multiset::Multiset;
use crate::dom::{Node, NodeExt, NodeId, NodeType};
use crate::render::Color;
use crate::style::{
    AnimatableProperty, ComputedStyle, Length, Padding, Presentation, Size, StyleSlot, TimingFunction,
    TransitionProperty, ZIndex, zero_padding,
};

verus! {

/// A property an animation drives.
#[derive(Clone, Copy, Debug, PartialEq, Eq, Structural)]
pub enum AnimatedProp {
    Fg,
    Bg,
    BorderFg,
    Width,
    Height,
    Padding,
    Gap,
    Top,
    Right,
    Bottom,
    Left,
    ZIndex,
}

impl AnimatedProp {
    pub open spec fn css_name_spec(self) -> Seq<char> {
        match self {
            AnimatedProp::Fg => "color"@,
            AnimatedProp::Bg => "background-color"@,
            AnimatedProp::BorderFg => "border-color"@,
            AnimatedProp::Width => "width"@,
            AnimatedProp::Height => "height"@,
            AnimatedProp::Padding => "padding"@,
            AnimatedProp::Gap => "gap"@,
            AnimatedProp::Top => "top"@,
            AnimatedProp::Right => "right"@,
            AnimatedProp::Bottom => "bottom"@,
            AnimatedProp::Left => "left"@,
            AnimatedProp::ZIndex => "z-index"@,
        }
    }

    /// The CSS property name.
    pub fn css_name(self) -> (r: &'static str)
        ensures
            r@ == self.css_name_spec(),
    {
        match self {
            AnimatedProp::Fg => "color",
            AnimatedProp::Bg => "background-color",
            AnimatedProp::BorderFg => "border-color",
            AnimatedProp::Width => "width",
            AnimatedProp::Height => "height",
            AnimatedProp::Padding => "padding",
            AnimatedProp::Gap => "gap",
            AnimatedProp::Top => "top",
            AnimatedProp::Right => "right",
            AnimatedProp::Bottom => "bottom",
            AnimatedProp::Left => "left",
            AnimatedProp::ZIndex => "z-index",
        }
    }

    pub open spec fn from_animatable_spec(ap: AnimatableProperty) -> AnimatedProp {
        match ap {
            AnimatableProperty::Color => AnimatedProp::Fg,
            AnimatableProperty::BackgroundColor => AnimatedProp::Bg,
            AnimatableProperty::BorderColor => AnimatedProp::BorderFg,
            AnimatableProperty::Width => AnimatedProp::Width,
            AnimatableProperty::Height => AnimatedProp::Height,
            AnimatableProperty::Padding => AnimatedProp::Padding,
            AnimatableProperty::Gap => AnimatedProp::Gap,
            AnimatableProperty::Top => AnimatedProp::Top,
            AnimatableProperty::Right => AnimatedProp::Right,
            AnimatableProperty::Bottom => AnimatedProp::Bottom,
            AnimatableProperty::Left => AnimatedProp::Left,
            AnimatableProperty::ZIndex => AnimatedProp::ZIndex,
        }
    }

    /// The property a `transition-property` name stands for.
    pub fn from_animatable(ap: AnimatableProperty) -> (r: AnimatedProp)
        ensures
            r == Self::from_animatable_spec(ap),
    {
        match ap {
            AnimatableProperty::Color => AnimatedProp::Fg,
            AnimatableProperty::BackgroundColor => AnimatedProp::Bg,
            AnimatableProperty::BorderColor => AnimatedProp::BorderFg,
            AnimatableProperty::Width => AnimatedProp::Width,
            AnimatableProperty::Height => AnimatedProp::Height,
            AnimatableProperty::Padding => AnimatedProp::Padding,
            AnimatableProperty::Gap => AnimatedProp::Gap,
            AnimatableProperty::Top => AnimatedProp::Top,
            AnimatableProperty::Right => AnimatedProp::Right,
            AnimatableProperty::Bottom => AnimatedProp::Bottom,
            AnimatableProperty::Left => AnimatedProp::Left,
            AnimatableProperty::ZIndex => AnimatedProp::ZIndex,
        }
    }
}

/// The value of an animatable property.
#[derive(Clone, Copy, Debug, PartialEq, Eq, Structural)]
pub enum AnimatedValue {
    Color(Color),
    Size(Size),
    Length(Length),
    U16(u16),
    Padding(Padding),
    ZIndex(ZIndex),
}

/// Which transition event is due.
#[derive(Clone, Copy, Debug, PartialEq, Eq, Structural)]
pub enum TransitionEventKind {
    Start,
    End,
    Cancel,
}

/// The transition rule that applies to a property.
#[derive(Clone, Copy, Debug, PartialEq, Eq, Structural)]
pub struct MatchedRule {
    pub duration_ms: u32,
    pub timing: TimingFunction,
    pub delay_ms: u32,
}

/// Whether `transition-property` entry `tp` covers `prop`.
pub open spec fn covers(tp: TransitionProperty, prop: AnimatedProp) -> bool {
    match tp {
        TransitionProperty::All => true,
        TransitionProperty::Disabled | TransitionProperty::Discrete => false,
        TransitionProperty::Named(ap) => AnimatedProp::from_animatable_spec(ap) == prop,
    }
}

/// The first entry of `props` from `i` on that covers `prop`.
pub open spec fn first_cover(props: Seq<TransitionProperty>, prop: AnimatedProp, i: int) -> Option<int>
    decreases props.len() - i,
{
    if i < 0 || i >= props.len() {
        None
    } else if covers(props[i], prop) {
        Some(i)
    } else {
        first_cover(props, prop, i + 1)
    }
}

/// Entry `idx` of `list`, the list being repeated as often as needed
/// (CSS's rule for longhand lists of different lengths).
pub open spec fn cycle_spec<T>(list: Seq<T>, idx: int) -> Option<T> {
    if list.len() == 0 {
        None
    } else {
        Some(list[idx % (list.len() as int)])
    }
}

/// Entry `idx` of `list`, repeating the list as often as needed; `None`
/// for an empty list.
pub fn cycle<T>(list: &Vec<T>, idx: usize) -> (r: Option<&T>)
    ensures
        match r {
            Some(v) => list@.len() > 0 && *v == list@[(idx as int) % (list@.len() as int)],
            None => list@.len() == 0,
        },
{
    if list.len() == 0 {
        None
    } else {
        Some(&list[idx % list.len()])
    }
}

pub open spec fn lookup_rule_spec(style: ComputedStyle, prop: AnimatedProp) -> Option<MatchedRule> {
    let props = style.transition_property@;
    match first_cover(props, prop, 0) {
        None => None,
        Some(idx) => if props[idx] == TransitionProperty::Disabled {
            None
        } else {
            Some(
                MatchedRule {
                    duration_ms: match cycle_spec(style.transition_duration@, idx) {
                        Some(d) => d,
                        None => 0,
                    },
                    timing: match cycle_spec(style.transition_timing_function@, idx) {
                        Some(t) => t,
                        None => TimingFunction::Ease,
                    },
                    delay_ms: match cycle_spec(style.transition_delay@, idx) {
                        Some(d) => d,
                        None => 0,
                    },
                },
            )
        },
    }
}

/// The first `transition-property` entry `idx` that covers `prop` picks
/// the rule: its duration, timing and delay are entry `idx` of their
/// lists, each list repeated as often as needed (an empty list gives
/// 0 ms, `ease`, 0 ms). With no entry covering `prop` there is no rule.
pub proof fn law_rule_follows_the_covering_entry(style: ComputedStyle, prop: AnimatedProp, idx: int)
    requires
        0 <= idx < style.transition_property@.len(),
        covers(style.transition_property@[idx], prop),
        forall|j: int| 0 <= j < idx ==> !covers(#[trigger] style.transition_property@[j], prop),
    ensures
        lookup_rule_spec(style, prop) == Some(
            MatchedRule {
                duration_ms: if style.transition_duration@.len() == 0 {
                    0
                } else {
                    style.transition_duration@[idx % (style.transition_duration@.len() as int)]
                },
                timing: if style.transition_timing_function@.len() == 0 {
                    TimingFunction::Ease
                } else {
                    style.transition_timing_function@[idx % (style.transition_timing_function@.len() as int)]
                },
                delay_ms: if style.transition_delay@.len() == 0 {
                    0
                } else {
                    style.transition_delay@[idx % (style.transition_delay@.len() as int)]
                },
            },
        ),
{
    lemma_first_cover_at(style.transition_property@, prop, 0, idx);
}

/// No entry covering `prop`: no rule.
pub proof fn law_no_rule_without_covering_entry(style: ComputedStyle, prop: AnimatedProp)
    requires
        forall|j: int|
            0 <= j < style.transition_property@.len() ==> !covers(#[trigger] style.transition_property@[j], prop),
    ensures
        lookup_rule_spec(style, prop) is None,
{
    lemma_no_cover(style.transition_property@, prop, 0);
}

proof fn lemma_first_cover_at(props: Seq<TransitionProperty>, prop: AnimatedProp, i: int, idx: int)
    requires
        0 <= i <= idx < props.len(),
        covers(props[idx], prop),
        forall|j: int| i <= j < idx ==> !covers(#[trigger] props[j], prop),
    ensures
        first_cover(props, prop, i) == Some(idx),
    decreases idx - i,
{
    if i < idx {
        lemma_first_cover_at(props, prop, i + 1, idx);
    }
}

proof fn lemma_no_cover(props: Seq<TransitionProperty>, prop: AnimatedProp, i: int)
    requires
        0 <= i,
        forall|j: int| i <= j < props.len() ==> !covers(#[trigger] props[j], prop),
    ensures
        first_cover(props, prop, i) is None,
    decreases props.len() - i,
{
    if i < props.len() {
        lemma_no_cover(props, prop, i + 1);
    }
}

/// The transition rule for `prop` in `style`: the first
/// `transition-property` entry that covers it (`all` or its name) picks
/// the index into the duration / timing / delay lists, each cycled
/// (durations and delays default to 0, timing to `ease`). `None` when no
/// entry covers the property.
pub fn lookup_rule(style: &ComputedStyle, prop: AnimatedProp) -> (r: Option<MatchedRule>)
    ensures
        r == lookup_rule_spec(*style, prop),
{
    let props = &style.transition_property;
    if props.len() == 0 {
        return None;
    }
    let mut i: usize = 0;
    while i < props.len()
        invariant
            i <= props@.len(),
            props@ == style.transition_property@,
            first_cover(props@, prop, 0) == first_cover(props@, prop, i as int),
        decreases props@.len() - i,
    {
        let hit = match props[i] {
            TransitionProperty::All => true,
            TransitionProperty::Disabled | TransitionProperty::Discrete => false,
            TransitionProperty::Named(ap) => AnimatedProp::from_animatable(ap) == prop,
        };
        assert(hit == covers(props@[i as int], prop));
        if hit {
            assert(first_cover(props@, prop, i as int) == Some(i as int));
            if props[i] == TransitionProperty::Disabled {
                return None;
            }
            let duration_ms = match cycle(&style.transition_duration, i) {
                Some(d) => *d,
                None => 0,
            };
            let timing = match cycle(&style.transition_timing_function, i) {
                Some(t) => *t,
                None => TimingFunction::Ease,
            };
            let delay_ms = match cycle(&style.transition_delay, i) {
                Some(d) => *d,
                None => 0,
            };
            return Some(MatchedRule { duration_ms, timing, delay_ms });
        }
        assert(first_cover(props@, prop, i as int) == first_cover(props@, prop, i + 1));
        i = i + 1;
    }
    None
}

pub open spec fn read_value_spec(style: ComputedStyle, prop: AnimatedProp) -> AnimatedValue {
    match prop {
        AnimatedProp::Fg => AnimatedValue::Color(style.fg),
        AnimatedProp::Bg => AnimatedValue::Color(style.bg),
        AnimatedProp::BorderFg => AnimatedValue::Color(style.border_fg),
        AnimatedProp::Width => AnimatedValue::Size(style.width),
        AnimatedProp::Height => AnimatedValue::Size(style.height),
        AnimatedProp::Padding => AnimatedValue::Padding(style.padding),
        AnimatedProp::Gap => AnimatedValue::U16(
            match style.gap.cells_spec() {
                Some(g) => g,
                None => 0,
            },
        ),
        AnimatedProp::Top => AnimatedValue::Length(style.top),
        AnimatedProp::Right => AnimatedValue::Length(style.right),
        AnimatedProp::Bottom => AnimatedValue::Length(style.bottom),
        AnimatedProp::Left => AnimatedValue::Length(style.left),
        AnimatedProp::ZIndex => AnimatedValue::ZIndex(style.z_index),
    }
}

/// The value of `prop` in `style` (a gap that is not a cell count reads
/// as 0).
pub fn read_value(style: &ComputedStyle, prop: AnimatedProp) -> (r: AnimatedValue)
    ensures
        r == read_value_spec(*style, prop),
{
    match prop {
        AnimatedProp::Fg => AnimatedValue::Color(style.fg),
        AnimatedProp::Bg => AnimatedValue::Color(style.bg),
        AnimatedProp::BorderFg => AnimatedValue::Color(style.border_fg),
        AnimatedProp::Width => AnimatedValue::Size(style.width),
        AnimatedProp::Height => AnimatedValue::Size(style.height),
        AnimatedProp::Padding => AnimatedValue::Padding(style.padding),
        AnimatedProp::Gap => AnimatedValue::U16(
            match style.gap.as_cells() {
                Some(g) => g,
                None => 0,
            },
        ),
        AnimatedProp::Top => AnimatedValue::Length(style.top),
        AnimatedProp::Right => AnimatedValue::Length(style.right),
        AnimatedProp::Bottom => AnimatedValue::Length(style.bottom),
        AnimatedProp::Left => AnimatedValue::Length(style.left),
        AnimatedProp::ZIndex => AnimatedValue::ZIndex(style.z_index),
    }
}

/// Whether `prop` moved between `prev` and `curr`. A gap change counts
/// only between two cell counts.
pub open spec fn changed(curr: ComputedStyle, prev: ComputedStyle, prop: AnimatedProp) -> bool {
    match prop {
        AnimatedProp::Fg => curr.fg != prev.fg,
        AnimatedProp::Bg => curr.bg != prev.bg,
        AnimatedProp::BorderFg => curr.border_fg != prev.border_fg,
        AnimatedProp::Width => curr.width != prev.width,
        AnimatedProp::Height => curr.height != prev.height,
        AnimatedProp::Padding => curr.padding != prev.padding,
        AnimatedProp::Gap => curr.gap != prev.gap && curr.gap.cells_spec() is Some && prev.gap.cells_spec() is Some,
        AnimatedProp::Top => curr.top != prev.top,
        AnimatedProp::Right => curr.right != prev.right,
        AnimatedProp::Bottom => curr.bottom != prev.bottom,
        AnimatedProp::Left => curr.left != prev.left,
        AnimatedProp::ZIndex => curr.z_index != prev.z_index,
    }
}

/// Every animatable property, in the order they are checked.
pub open spec fn all_props() -> Seq<AnimatedProp> {
    seq![
        AnimatedProp::Fg,
        AnimatedProp::Bg,
        AnimatedProp::BorderFg,
        AnimatedProp::Width,
        AnimatedProp::Height,
        AnimatedProp::Padding,
        AnimatedProp::Gap,
        AnimatedProp::Top,
        AnimatedProp::Right,
        AnimatedProp::Bottom,
        AnimatedProp::Left,
        AnimatedProp::ZIndex,
    ]
}

/// The properties among `ps` that moved.
pub open spec fn changed_among(curr: ComputedStyle, prev: ComputedStyle, ps: Seq<AnimatedProp>) -> Seq<AnimatedProp>
    decreases ps.len(),
{
    if ps.len() == 0 {
        Seq::empty()
    } else {
        changed_among(curr, prev, ps.drop_last()) + if changed(curr, prev, ps.last()) {
            seq![ps.last()]
        } else {
            Seq::empty()
        }
    }
}

/// The animatable properties whose values differ between `prev` and
/// `curr`, in the order of [`all_props`].
pub fn animatable_props_for(curr: &ComputedStyle, prev: &ComputedStyle) -> (r: Vec<AnimatedProp>)
    ensures
        r@ == changed_among(*curr, *prev, all_props()),
{
    let ghost ps = all_props();
    let mut out: Vec<AnimatedProp> = Vec::new();
    let mut k: usize = 0;
    while k < 12
        invariant
            k <= 12,
            ps == all_props(),
            out@ == changed_among(*curr, *prev, ps.take(k as int)),
        decreases 12 - k,
    {
        assert(ps.take(k + 1).drop_last() =~= ps.take(k as int));
        let p = prop_at(k);
        assert(ps.take(k + 1).last() == p);
        if differs(curr, prev, p) {
            out.push(p);
        }
        k = k + 1;
    }
    assert(ps.take(12) =~= ps);
    out
}

/// Property `k` of [`all_props`].
fn prop_at(k: usize) -> (r: AnimatedProp)
    requires
        k < 12,
    ensures
        r == all_props()[k as int],
{
    if k == 0 {
        AnimatedProp::Fg
    } else if k == 1 {
        AnimatedProp::Bg
    } else if k == 2 {
        AnimatedProp::BorderFg
    } else if k == 3 {
        AnimatedProp::Width
    } else if k == 4 {
        AnimatedProp::Height
    } else if k == 5 {
        AnimatedProp::Padding
    } else if k == 6 {
        AnimatedProp::Gap
    } else if k == 7 {
        AnimatedProp::Top
    } else if k == 8 {
        AnimatedProp::Right
    } else if k == 9 {
        AnimatedProp::Bottom
    } else if k == 10 {
        AnimatedProp::Left
    } else {
        AnimatedProp::ZIndex
    }
}

/// Whether `prop` moved between `prev` and `curr`.
fn differs(curr: &ComputedStyle, prev: &ComputedStyle, prop: AnimatedProp) -> (r: bool)
    ensures
        r == changed(*curr, *prev, prop),
{
    match prop {
        AnimatedProp::Fg => curr.fg != prev.fg,
        AnimatedProp::Bg => curr.bg != prev.bg,
        AnimatedProp::BorderFg => curr.border_fg != prev.border_fg,
        AnimatedProp::Width => curr.width != prev.width,
        AnimatedProp::Height => curr.height != prev.height,
        AnimatedProp::Padding => curr.padding != prev.padding,
        AnimatedProp::Gap => curr.gap != prev.gap && curr.gap.as_cells().is_some() && prev.gap.as_cells().is_some(),
        AnimatedProp::Top => curr.top != prev.top,
        AnimatedProp::Right => curr.right != prev.right,
        AnimatedProp::Bottom => curr.bottom != prev.bottom,
        AnimatedProp::Left => curr.left != prev.left,
        AnimatedProp::ZIndex => curr.z_index != prev.z_index,
    }
}

/// An approximate RGB triple of a color for interpolation: true colors
/// as they are, palette entries mid-gray, the terminal default light
/// gray.
pub open spec fn rgb_approx(c: Color) -> (u8, u8, u8) {
    match c {
        Color::Reset => (192, 192, 192),
        Color::Indexed(_) => (128, 128, 128),
        Color::Rgb(r, g, b) => (r, g, b),
    }
}

pub fn color_to_rgb_approx(c: Color) -> (r: (u8, u8, u8))
    ensures
        r == rgb_approx(c),
{
    match c {
        Color::Reset => (192, 192, 192),
        Color::Indexed(_) => (128, 128, 128),
        Color::Rgb(r, g, b) => (r, g, b),
    }
}

/// The foreground paint uses: the transition override, else the
/// computed value, else `Reset`.
pub fn effective_fg(ext: &NodeExt) -> (r: Color)
    ensures
        r == match ext.presentation.fg {
            Some(c) => c,
            None => match ext.computed {
                Some(s) => s.fg,
                None => Color::Reset,
            },
        },
{
    match ext.presentation.fg {
        Some(c) => c,
        None => match &ext.computed {
            Some(s) => s.fg,
            None => Color::Reset,
        },
    }
}

/// The background paint uses: the transition override, else the
/// computed value, else `Reset`.
pub fn effective_bg(ext: &NodeExt) -> (r: Color)
    ensures
        r == match ext.presentation.bg {
            Some(c) => c,
            None => match ext.computed {
                Some(s) => s.bg,
                None => Color::Reset,
            },
        },
{
    match ext.presentation.bg {
        Some(c) => c,
        None => match &ext.computed {
            Some(s) => s.bg,
            None => Color::Reset,
        },
    }
}

/// The border color paint uses: the transition override, else the
/// computed value, else `Reset`.
pub fn effective_border_fg(ext: &NodeExt) -> (r: Color)
    ensures
        r == match ext.presentation.border_fg {
            Some(c) => c,
            None => match ext.computed {
                Some(s) => s.border_fg,
                None => Color::Reset,
            },
        },
{
    match ext.presentation.border_fg {
        Some(c) => c,
        None => match &ext.computed {
            Some(s) => s.border_fg,
            None => Color::Reset,
        },
    }
}

/// The padding layout uses: the transition override, else the computed
/// value, else none.
pub fn effective_padding(ext: &NodeExt) -> (r: Padding)
    ensures
        r == match ext.presentation.padding {
            Some(p) => p,
            None => match ext.computed {
                Some(s) => s.padding,
                None => zero_padding(),
            },
        },
{
    match ext.presentation.padding {
        Some(p) => p,
        None => match &ext.computed {
            Some(s) => s.padding,
            None => Padding::zero(),
        },
    }
}

/// `p` with the override for `prop` set to `value` (a value of the
/// wrong kind for the property is ignored).
pub open spec fn presentation_written(p: Presentation, prop: AnimatedProp, value: AnimatedValue) -> Presentation {
    match (prop, value) {
        (AnimatedProp::Fg, AnimatedValue::Color(c)) => Presentation { fg: Some(c), ..p },
        (AnimatedProp::Bg, AnimatedValue::Color(c)) => Presentation { bg: Some(c), ..p },
        (AnimatedProp::BorderFg, AnimatedValue::Color(c)) => Presentation { border_fg: Some(c), ..p },
        (AnimatedProp::Width, AnimatedValue::Size(s)) => Presentation { width: Some(s), ..p },
        (AnimatedProp::Height, AnimatedValue::Size(s)) => Presentation { height: Some(s), ..p },
        (AnimatedProp::Padding, AnimatedValue::Padding(x)) => Presentation { padding: Some(x), ..p },
        (AnimatedProp::Gap, AnimatedValue::U16(g)) => Presentation { gap: Some(g), ..p },
        (AnimatedProp::Top, AnimatedValue::Length(l)) => Presentation { top: Some(l), ..p },
        (AnimatedProp::Right, AnimatedValue::Length(l)) => Presentation { right: Some(l), ..p },
        (AnimatedProp::Bottom, AnimatedValue::Length(l)) => Presentation { bottom: Some(l), ..p },
        (AnimatedProp::Left, AnimatedValue::Length(l)) => Presentation { left: Some(l), ..p },
        (AnimatedProp::ZIndex, AnimatedValue::ZIndex(z)) => Presentation { z_index: Some(z), ..p },
        _ => p,
    }
}

/// `p` without the override for `prop`.
pub open spec fn presentation_cleared(p: Presentation, prop: AnimatedProp) -> Presentation {
    match prop {
        AnimatedProp::Fg => Presentation { fg: None, ..p },
        AnimatedProp::Bg => Presentation { bg: None, ..p },
        AnimatedProp::BorderFg => Presentation { border_fg: None, ..p },
        AnimatedProp::Width => Presentation { width: None, ..p },
        AnimatedProp::Height => Presentation { height: None, ..p },
        AnimatedProp::Padding => Presentation { padding: None, ..p },
        AnimatedProp::Gap => Presentation { gap: None, ..p },
        AnimatedProp::Top => Presentation { top: None, ..p },
        AnimatedProp::Right => Presentation { right: None, ..p },
        AnimatedProp::Bottom => Presentation { bottom: None, ..p },
        AnimatedProp::Left => Presentation { left: None, ..p },
        AnimatedProp::ZIndex => Presentation { z_index: None, ..p },
    }
}

fn write_to(p: &mut Presentation, prop: AnimatedProp, value: AnimatedValue)
    ensures
        *final(p) == presentation_written(*old(p), prop, value),
{
    match (prop, value) {
        (AnimatedProp::Fg, AnimatedValue::Color(c)) => p.fg = Some(c),
        (AnimatedProp::Bg, AnimatedValue::Color(c)) => p.bg = Some(c),
        (AnimatedProp::BorderFg, AnimatedValue::Color(c)) => p.border_fg = Some(c),
        (AnimatedProp::Width, AnimatedValue::Size(s)) => p.width = Some(s),
        (AnimatedProp::Height, AnimatedValue::Size(s)) => p.height = Some(s),
        (AnimatedProp::Padding, AnimatedValue::Padding(x)) => p.padding = Some(x),
        (AnimatedProp::Gap, AnimatedValue::U16(g)) => p.gap = Some(g),
        (AnimatedProp::Top, AnimatedValue::Length(l)) => p.top = Some(l),
        (AnimatedProp::Right, AnimatedValue::Length(l)) => p.right = Some(l),
        (AnimatedProp::Bottom, AnimatedValue::Length(l)) => p.bottom = Some(l),
        (AnimatedProp::Left, AnimatedValue::Length(l)) => p.left = Some(l),
        (AnimatedProp::ZIndex, AnimatedValue::ZIndex(z)) => p.z_index = Some(z),
        _ => {},
    }
}

fn clear_in(p: &mut Presentation, prop: AnimatedProp)
    ensures
        *final(p) == presentation_cleared(*old(p), prop),
{
    match prop {
        AnimatedProp::Fg => p.fg = None,
        AnimatedProp::Bg => p.bg = None,
        AnimatedProp::BorderFg => p.border_fg = None,
        AnimatedProp::Width => p.width = None,
        AnimatedProp::Height => p.height = None,
        AnimatedProp::Padding => p.padding = None,
        AnimatedProp::Gap => p.gap = None,
        AnimatedProp::Top => p.top = None,
        AnimatedProp::Right => p.right = None,
        AnimatedProp::Bottom => p.bottom = None,
        AnimatedProp::Left => p.left = None,
        AnimatedProp::ZIndex => p.z_index = None,
    }
}

/// The presentation of `slot` in `ext`.
pub open spec fn slot_presentation(ext: NodeExt, slot: StyleSlot) -> Presentation {
    match slot {
        StyleSlot::Host => ext.presentation,
        StyleSlot::Before => ext.presentation_before,
        StyleSlot::After => ext.presentation_after,
    }
}

/// `ext` with the presentation of `slot` replaced by `p`.
pub open spec fn with_slot_presentation(ext: NodeExt, slot: StyleSlot, p: Presentation) -> NodeExt {
    match slot {
        StyleSlot::Host => NodeExt { presentation: p, ..ext },
        StyleSlot::Before => NodeExt { presentation_before: p, ..ext },
        StyleSlot::After => NodeExt { presentation_after: p, ..ext },
    }
}

/// Show `value` for `prop` in `slot` of an element, overriding the
/// computed value.
pub fn write_presentation(ext: &mut NodeExt, slot: StyleSlot, prop: AnimatedProp, value: AnimatedValue)
    ensures
        *final(ext) == with_slot_presentation(
            *old(ext),
            slot,
            presentation_written(slot_presentation(*old(ext), slot), prop, value),
        ),
{
    match slot {
        StyleSlot::Host => write_to(&mut ext.presentation, prop, value),
        StyleSlot::Before => write_to(&mut ext.presentation_before, prop, value),
        StyleSlot::After => write_to(&mut ext.presentation_after, prop, value),
    }
}

/// Drop the override for `prop` in `slot`: the computed value shows
/// again.
pub fn clear_presentation(ext: &mut NodeExt, slot: StyleSlot, prop: AnimatedProp)
    ensures
        *final(ext) == with_slot_presentation(
            *old(ext),
            slot,
            presentation_cleared(slot_presentation(*old(ext), slot), prop),
        ),
{
    match slot {
        StyleSlot::Host => clear_in(&mut ext.presentation, prop),
        StyleSlot::Before => clear_in(&mut ext.presentation_before, prop),
        StyleSlot::After => clear_in(&mut ext.presentation_after, prop),
    }
}

/// `ext` with the override of every animation of `anims` on node `id`
/// dropped, in order.
pub open spec fn ext_cleared(ext: NodeExt, id: NodeId, anims: Seq<ActiveAnimation>) -> NodeExt
    decreases anims.len(),
{
    if anims.len() == 0 {
        ext
    } else {
        let e = ext_cleared(ext, id, anims.drop_last());
        let a = anims.last();
        if a.node == id {
            with_slot_presentation(e, a.slot, presentation_cleared(slot_presentation(e, a.slot), a.property))
        } else {
            e
        }
    }
}

/// `new` is the subtree `old` with the overrides of `anims` dropped from
/// the nodes they animate, and nothing else changed.
pub open spec fn overrides_cleared(old: Node, new: Node, anims: Seq<ActiveAnimation>) -> bool
    decreases old,
{
    &&& new.id == old.id
    &&& new.node_type == old.node_type
    &&& new.tag@ == old.tag@
    &&& new.text@ == old.text@
    &&& new.attrs == old.attrs
    &&& new.ext == ext_cleared(old.ext, old.id, anims)
    &&& new.children@.len() == old.children@.len()
    &&& forall|j: int| 0 <= j < old.children@.len() ==> overrides_cleared(#[trigger] old.children@[j], new.children@[j], anims)
}

/// Drop the overrides of the animations `retired` (as `advance` returns
/// them) under `n`: the computed values show again once a transition
/// has ended.
pub fn clear_retired(n: &mut Node, retired: &Vec<ActiveAnimation>)
    ensures
        overrides_cleared(*old(n), *final(n), retired@),
    decreases *old(n),
{
    let mut k: usize = 0;
    while k < retired.len()
        invariant
            k <= retired@.len(),
            n.id == old(n).id,
            n.node_type == old(n).node_type,
            n.tag@ == old(n).tag@,
            n.text@ == old(n).text@,
            n.attrs == old(n).attrs,
            n.children == old(n).children,
            n.ext == ext_cleared(old(n).ext, old(n).id, retired@.take(k as int)),
        decreases retired@.len() - k,
    {
        assert(retired@.take(k + 1).drop_last() =~= retired@.take(k as int));
        let a = retired[k];
        if a.node == n.id {
            clear_presentation(&mut n.ext, a.slot, a.property);
        }
        k = k + 1;
    }
    assert(retired@.take(k as int) =~= retired@);
    let mut i: usize = 0;
    while i < n.children.len()
        invariant
            i <= n.children@.len(),
            n.children@.len() == old(n).children@.len(),
            n.id == old(n).id,
            n.node_type == old(n).node_type,
            n.tag@ == old(n).tag@,
            n.text@ == old(n).text@,
            n.attrs == old(n).attrs,
            n.ext == ext_cleared(old(n).ext, old(n).id, retired@),
            forall|j: int| i <= j < n.children@.len() ==> #[trigger] n.children@[j] == old(n).children@[j],
            forall|j: int| 0 <= j < i ==> overrides_cleared(#[trigger] old(n).children@[j], n.children@[j], retired@),
        decreases n.children@.len() - i,
    {
        assert(decreases_to!(*old(n) => old(n).children@[i as int]));
        clear_retired(&mut n.children[i], retired);
        i = i + 1;
    }
}

/// An in-flight transition of one property of one element or
/// pseudo-element.
#[derive(Clone, Copy, Debug, PartialEq, Eq, Structural)]
pub struct ActiveAnimation {
    pub node: NodeId,
    pub slot: StyleSlot,
    pub property: AnimatedProp,
    pub from: AnimatedValue,
    pub to: AnimatedValue,
    /// When the animation was registered; it shows from `started_at +
    /// delay` on.
    pub started_at: u64,
    pub delay: u32,
    pub duration: u32,
    pub timing: TimingFunction,
    /// Whether `transitionstart` was queued.
    pub started_dispatched: bool,
}

/// The transition `prop` gets in `slot` of `node` when its style goes
/// from `prev` to `curr`: none for a pseudo-element property other
/// than a color, without a covering rule, with a rule of no duration
/// and no delay, or when the value did not change.
pub open spec fn transition_of(
    prev: ComputedStyle,
    curr: ComputedStyle,
    node: NodeId,
    slot: StyleSlot,
    now: u64,
    prop: AnimatedProp,
) -> Option<ActiveAnimation> {
    if slot != StyleSlot::Host && !(prop == AnimatedProp::Fg || prop == AnimatedProp::Bg || prop
        == AnimatedProp::BorderFg) {
        None
    } else {
        match lookup_rule_spec(curr, prop) {
            None => None,
            Some(rule) => if rule.duration_ms == 0 && rule.delay_ms == 0 {
                None
            } else if read_value_spec(prev, prop) == read_value_spec(curr, prop) {
                None
            } else {
                Some(
                    ActiveAnimation {
                        node,
                        slot,
                        property: prop,
                        from: read_value_spec(prev, prop),
                        to: read_value_spec(curr, prop),
                        started_at: now,
                        delay: rule.delay_ms,
                        duration: rule.duration_ms,
                        timing: rule.timing,
                        started_dispatched: false,
                    },
                )
            },
        }
    }
}

/// The transitions the properties `props` get, in order.
pub open spec fn transitions_spec(
    prev: ComputedStyle,
    curr: ComputedStyle,
    node: NodeId,
    slot: StyleSlot,
    now: u64,
    props: Seq<AnimatedProp>,
) -> Seq<ActiveAnimation>
    decreases props.len(),
{
    if props.len() == 0 {
        Seq::empty()
    } else {
        transitions_spec(prev, curr, node, slot, now, props.drop_last()) + match transition_of(
            prev,
            curr,
            node,
            slot,
            now,
            props.last(),
        ) {
            Some(a) => seq![a],
            None => Seq::empty(),
        }
    }
}

/// The transitions a style change from `prev` to `curr` starts in `slot`
/// of `node`.
pub open spec fn style_transitions(
    prev: ComputedStyle,
    curr: ComputedStyle,
    node: NodeId,
    slot: StyleSlot,
    now: u64,
) -> Seq<ActiveAnimation> {
    transitions_spec(prev, curr, node, slot, now, changed_among(curr, prev, all_props()))
}

/// The transitions a style change from `prev` to `curr` starts in `slot`
/// of `node`, in property order.
pub fn transitions_for(prev: &ComputedStyle, curr: &ComputedStyle, node: NodeId, slot: StyleSlot, now: u64) -> (r: Vec<
    ActiveAnimation,
>)
    ensures
        r@ == style_transitions(*prev, *curr, node, slot, now),
{
    let props = animatable_props_for(curr, prev);
    let mut out: Vec<ActiveAnimation> = Vec::new();
    let mut k: usize = 0;
    while k < props.len()
        invariant
            k <= props@.len(),
            out@ == transitions_spec(*prev, *curr, node, slot, now, props@.take(k as int)),
        decreases props@.len() - k,
    {
        assert(props@.take(k + 1).drop_last() =~= props@.take(k as int));
        let prop = props[k];
        let colorish = prop == AnimatedProp::Fg || prop == AnimatedProp::Bg || prop == AnimatedProp::BorderFg;
        if slot == StyleSlot::Host || colorish {
            match lookup_rule(curr, prop) {
                Some(rule) => {
                    if !(rule.duration_ms == 0 && rule.delay_ms == 0) {
                        let from = read_value(prev, prop);
                        let to = read_value(curr, prop);
                        if from != to {
                            out.push(
                                ActiveAnimation {
                                    node,
                                    slot,
                                    property: prop,
                                    from,
                                    to,
                                    started_at: now,
                                    delay: rule.delay_ms,
                                    duration: rule.duration_ms,
                                    timing: rule.timing,
                                    started_dispatched: false,
                                },
                            );
                        }
                    }
                },
                None => {},
            }
        }
        k = k + 1;
    }
    assert(props@.take(k as int) =~= props@);
    out
}

/// A copy of a `Vec` of plain values.
fn copy_vec<T: Copy>(v: &Vec<T>) -> (r: Vec<T>)
    ensures
        r@ == v@,
{
    let mut out: Vec<T> = Vec::new();
    let mut i: usize = 0;
    while i < v.len()
        invariant
            i <= v@.len(),
            out@ == v@.take(i as int),
        decreases v@.len() - i,
    {
        out.push(v[i]);
        i = i + 1;
    }
    assert(v@.take(i as int) =~= v@);
    out
}

/// Two computed styles with the same values.
pub open spec fn same_style(a: ComputedStyle, b: ComputedStyle) -> bool {
    &&& a.fg == b.fg
    &&& a.bg == b.bg
    &&& a.border_fg == b.border_fg
    &&& a.width == b.width
    &&& a.height == b.height
    &&& a.padding == b.padding
    &&& a.gap == b.gap
    &&& a.top == b.top
    &&& a.right == b.right
    &&& a.bottom == b.bottom
    &&& a.left == b.left
    &&& a.z_index == b.z_index
    &&& a.transition_property@ == b.transition_property@
    &&& a.transition_duration@ == b.transition_duration@
    &&& a.transition_timing_function@ == b.transition_timing_function@
    &&& a.transition_delay@ == b.transition_delay@
}

pub open spec fn same_style_opt(a: Option<ComputedStyle>, b: Option<ComputedStyle>) -> bool {
    match (a, b) {
        (Some(x), Some(y)) => same_style(x, y),
        (None, None) => true,
        _ => false,
    }
}

fn copy_style(s: &ComputedStyle) -> (r: ComputedStyle)
    ensures
        same_style(r, *s),
{
    ComputedStyle {
        fg: s.fg,
        bg: s.bg,
        border_fg: s.border_fg,
        width: s.width,
        height: s.height,
        padding: s.padding,
        gap: s.gap,
        top: s.top,
        right: s.right,
        bottom: s.bottom,
        left: s.left,
        z_index: s.z_index,
        transition_property: copy_vec(&s.transition_property),
        transition_duration: copy_vec(&s.transition_duration),
        transition_timing_function: copy_vec(&s.transition_timing_function),
        transition_delay: copy_vec(&s.transition_delay),
    }
}

fn copy_style_opt(s: &Option<ComputedStyle>) -> (r: Option<ComputedStyle>)
    ensures
        same_style_opt(r, *s),
{
    match s {
        Some(x) => Some(copy_style(x)),
        None => None,
    }
}

/// `new` is `old` with the current styles recorded as the previous ones
/// for the next pass (the element's own only when it has one).
pub open spec fn snapshot_committed(old: NodeExt, new: NodeExt) -> bool {
    &&& new.default_selected == old.default_selected
    &&& new.default_checked == old.default_checked
    &&& new.default_value == old.default_value
    &&& new.author_width == old.author_width
    &&& new.table_used_width == old.table_used_width
    &&& new.has_paint == old.has_paint
    &&& new.typeahead == old.typeahead
    &&& new.presentation == old.presentation
    &&& new.presentation_before == old.presentation_before
    &&& new.presentation_after == old.presentation_after
    &&& new.computed == old.computed
    &&& new.computed_before == old.computed_before
    &&& new.computed_after == old.computed_after
    &&& if old.computed is Some {
        same_style_opt(new.computed_prev, old.computed)
    } else {
        new.computed_prev == old.computed_prev
    }
    &&& same_style_opt(new.computed_before_prev, old.computed_before)
    &&& same_style_opt(new.computed_after_prev, old.computed_after)
}

fn commit_snapshot(ext: &mut NodeExt)
    ensures
        snapshot_committed(*old(ext), *final(ext)),
{
    if ext.computed.is_some() {
        ext.computed_prev = copy_style_opt(&ext.computed);
    }
    ext.computed_before_prev = copy_style_opt(&ext.computed_before);
    ext.computed_after_prev = copy_style_opt(&ext.computed_after);
}

/// The transitions of slot `slot` given its previous and current style.
pub open spec fn slot_transitions(
    prev: Option<ComputedStyle>,
    curr: Option<ComputedStyle>,
    node: NodeId,
    slot: StyleSlot,
    now: u64,
) -> Seq<ActiveAnimation> {
    match (prev, curr) {
        (Some(p), Some(c)) => style_transitions(p, c, node, slot, now),
        _ => Seq::empty(),
    }
}

/// The transitions a cascade starts on node `n` itself: its own, then its
/// `::before`'s, then its `::after`'s.
pub open spec fn node_transitions(n: Node, now: u64) -> Seq<ActiveAnimation> {
    if n.node_type != NodeType::Element {
        Seq::empty()
    } else {
        slot_transitions(n.ext.computed_prev, n.ext.computed, n.id, StyleSlot::Host, now) + slot_transitions(
            n.ext.computed_before_prev,
            n.ext.computed_before,
            n.id,
            StyleSlot::Before,
            now,
        ) + slot_transitions(n.ext.computed_after_prev, n.ext.computed_after, n.id, StyleSlot::After, now)
    }
}

/// The transitions a cascade starts in the subtree of `n`, in document
/// order.
pub open spec fn diff_tree(n: Node, now: u64) -> Seq<ActiveAnimation>
    decreases n, 1int,
{
    node_transitions(n, now) + child_diffs(n, now).flatten()
}

/// The transitions of each child subtree of `n`.
pub open spec fn child_diffs(n: Node, now: u64) -> Seq<Seq<ActiveAnimation>>
    decreases n, 0int,
{
    Seq::new(
        n.children@.len(),
        |j: int|
            if 0 <= j < n.children@.len() {
                diff_tree(n.children@[j], now)
            } else {
                Seq::empty()
            },
    )
}

/// Every element of the subtree of `n` that has a previous style has a
/// current one.
pub open spec fn snapshots_ok(n: Node) -> bool
    decreases n,
{
    &&& n.node_type == NodeType::Element && n.ext.computed_prev is Some ==> n.ext.computed is Some
    &&& forall|j: int| 0 <= j < n.children@.len() ==> snapshots_ok(#[trigger] n.children@[j])
}

/// `new` is the subtree `old` with every element's snapshot committed.
pub open spec fn tree_committed(old: Node, new: Node) -> bool
    decreases old,
{
    &&& new.id == old.id
    &&& new.node_type == old.node_type
    &&& new.tag@ == old.tag@
    &&& new.text@ == old.text@
    &&& new.attrs == old.attrs
    &&& if old.node_type == NodeType::Element {
        snapshot_committed(old.ext, new.ext)
    } else {
        new.ext == old.ext
    }
    &&& new.children@.len() == old.children@.len()
    &&& forall|j: int| 0 <= j < old.children@.len() ==> tree_committed(old.children@[j], #[trigger] new.children@[j])
}

/// Matching styles start nothing.
proof fn lemma_same_style_no_change(prev: ComputedStyle, curr: ComputedStyle, ps: Seq<AnimatedProp>)
    requires
        same_style(prev, curr),
    ensures
        changed_among(curr, prev, ps) == Seq::<AnimatedProp>::empty(),
    decreases ps.len(),
{
    if ps.len() > 0 {
        lemma_same_style_no_change(prev, curr, ps.drop_last());
        assert(!changed(curr, prev, ps.last()));
        assert(changed_among(curr, prev, ps) =~= Seq::<AnimatedProp>::empty());
    }
}

proof fn lemma_flatten_empties(s: Seq<Seq<ActiveAnimation>>)
    requires
        forall|j: int| 0 <= j < s.len() ==> #[trigger] s[j] == Seq::<ActiveAnimation>::empty(),
    ensures
        s.flatten() == Seq::<ActiveAnimation>::empty(),
    decreases s.len(),
{
    if s.len() > 0 {
        lemma_flatten_empties(s.drop_first());
        assert(s.first() == s[0]);
        assert(s.flatten() =~= Seq::<ActiveAnimation>::empty());
    }
}

/// Diffing is idempotent: once a pass has recorded every element's
/// styles as its previous ones, a second pass with no cascade in between
/// starts no transition.
pub proof fn law_diff_idempotent(old: Node, new: Node, now: u64)
    requires
        tree_committed(old, new),
    ensures
        diff_tree(new, now) == Seq::<ActiveAnimation>::empty(),
    decreases old,
{
    if new.node_type == NodeType::Element {
        let e1 = new.ext;
        match (e1.computed_prev, e1.computed) {
            (Some(p), Some(c)) => {
                assert(same_style(p, c));
                lemma_same_style_no_change(p, c, all_props());
            },
            _ => {},
        }
        match (e1.computed_before_prev, e1.computed_before) {
            (Some(p), Some(c)) => {
                lemma_same_style_no_change(p, c, all_props());
            },
            _ => {},
        }
        match (e1.computed_after_prev, e1.computed_after) {
            (Some(p), Some(c)) => {
                lemma_same_style_no_change(p, c, all_props());
            },
            _ => {},
        }
        assert(node_transitions(new, now) =~= Seq::<ActiveAnimation>::empty());
    }
    let kids = child_diffs(new, now);
    assert forall|j: int| 0 <= j < kids.len() implies #[trigger] kids[j] == Seq::<ActiveAnimation>::empty() by {
        law_diff_idempotent(old.children@[j], new.children@[j], now);
    }
    lemma_flatten_empties(kids);
    assert(diff_tree(new, now) =~= Seq::<ActiveAnimation>::empty());
}

/// Append `v` to `out`.
fn append_all(out: &mut Vec<ActiveAnimation>, v: Vec<ActiveAnimation>)
    ensures
        final(out)@ == old(out)@ + v@,
{
    let mut v = v;
    out.append(&mut v);
}

/// Collect, in document order, the transitions the last cascade starts
/// in the subtree of `n`, and record every element's styles as the
/// previous ones for the next pass.
fn diff_subtree(n: &mut Node, now: u64, out: &mut Vec<ActiveAnimation>)
    requires
        snapshots_ok(*old(n)),
    ensures
        final(out)@ == old(out)@ + diff_tree(*old(n), now),
        tree_committed(*old(n), *final(n)),
    decreases *old(n),
{
    let ghost start = out@;
    if n.node_type == NodeType::Element {
        match (&n.ext.computed_prev, &n.ext.computed) {
            (Some(p), Some(c)) => {
                let v = transitions_for(p, c, n.id, StyleSlot::Host, now);
                append_all(out, v);
            },
            _ => {},
        }
        match (&n.ext.computed_before_prev, &n.ext.computed_before) {
            (Some(p), Some(c)) => {
                let v = transitions_for(p, c, n.id, StyleSlot::Before, now);
                append_all(out, v);
            },
            _ => {},
        }
        match (&n.ext.computed_after_prev, &n.ext.computed_after) {
            (Some(p), Some(c)) => {
                let v = transitions_for(p, c, n.id, StyleSlot::After, now);
                append_all(out, v);
            },
            _ => {},
        }
        commit_snapshot(&mut n.ext);
    }
    assert(out@ =~= start + node_transitions(*old(n), now));
    let ghost kids = child_diffs(*old(n), now);
    let mut i: usize = 0;
    assert(kids.take(0).flatten() =~= Seq::<ActiveAnimation>::empty());
    while i < n.children.len()
        invariant
            i <= n.children@.len(),
            n.children@.len() == old(n).children@.len(),
            n.id == old(n).id,
            n.node_type == old(n).node_type,
            n.tag@ == old(n).tag@,
            n.text@ == old(n).text@,
            n.attrs == old(n).attrs,
            if old(n).node_type == NodeType::Element {
                snapshot_committed(old(n).ext, n.ext)
            } else {
                n.ext == old(n).ext
            },
            snapshots_ok(*old(n)),
            kids == child_diffs(*old(n), now),
            out@ == start + node_transitions(*old(n), now) + kids.take(i as int).flatten(),
            forall|j: int| i <= j < n.children@.len() ==> #[trigger] n.children@[j] == old(n).children@[j],
            forall|j: int| 0 <= j < i ==> tree_committed(old(n).children@[j], #[trigger] n.children@[j]),
        decreases n.children@.len() - i,
    {
        assert(decreases_to!(*old(n) => old(n).children@[i as int]));
        assert(snapshots_ok(old(n).children@[i as int]));
        diff_subtree(&mut n.children[i], now, out);
        proof {
            assert(kids[i as int] == diff_tree(old(n).children@[i as int], now));
            assert(kids.take(i + 1) =~= kids.take(i as int).push(kids[i as int]));
            kids.take(i as int).lemma_flatten_push(kids[i as int]);
            assert(out@ =~= start + node_transitions(*old(n), now) + kids.take(i + 1).flatten());
        }
        i = i + 1;
    }
    assert(kids.take(i as int) =~= kids);
    assert(diff_tree(*old(n), now) == node_transitions(*old(n), now) + kids.flatten());
    assert(out@ =~= start + diff_tree(*old(n), now));
}

/// Collect, in document order, the transitions the last cascade starts
/// anywhere in the tree under `root`, and record every element's styles
/// as the previous ones for the next pass. The caller registers them.
pub fn collect_transitions(root: &mut Node, now: u64) -> (r: Vec<ActiveAnimation>)
    requires
        snapshots_ok(*old(root)),
    ensures
        r@ == diff_tree(*old(root), now),
        tree_committed(*old(root), *final(root)),
{
    let mut out: Vec<ActiveAnimation> = Vec::new();
    diff_subtree(root, now, &mut out);
    assert(Seq::<ActiveAnimation>::empty() + diff_tree(*old(root), now) =~= diff_tree(*old(root), now));
    out
}

/// A transition event due for dispatch.
#[derive(Clone, Copy, Debug, PartialEq, Eq, Structural)]
pub struct PendingEvent {
    pub node: NodeId,
    pub slot: StyleSlot,
    pub kind: TransitionEventKind,
    pub property: AnimatedProp,
    /// The event's `elapsedTime`, in milliseconds.
    pub elapsed_ms: u64,
}

/// Whether `a` animates `prop` in `slot` of `node`.
pub open spec fn key_matches(a: ActiveAnimation, node: NodeId, slot: StyleSlot, prop: AnimatedProp) -> bool {
    a.node == node && a.slot == slot && a.property == prop
}

/// The first animation of `s` from `i` on for (node, slot, prop).
pub open spec fn first_match(s: Seq<ActiveAnimation>, node: NodeId, slot: StyleSlot, prop: AnimatedProp, i: int) -> Option<
    int,
>
    decreases s.len() - i,
{
    if i < 0 || i >= s.len() {
        None
    } else if key_matches(s[i], node, slot, prop) {
        Some(i)
    } else {
        first_match(s, node, slot, prop, i + 1)
    }
}

/// Time since `a` was registered (0 before that).
pub open spec fn elapsed(a: ActiveAnimation, now: u64) -> u64 {
    if now >= a.started_at {
        (now - a.started_at) as u64
    } else {
        0
    }
}

/// `a` is over: its delay and duration have both elapsed.
pub open spec fn is_done(a: ActiveAnimation, now: u64) -> bool {
    elapsed(a, now) >= a.delay + a.duration
}

/// `a`'s delay has just elapsed and `transitionstart` is not yet queued.
pub open spec fn starts_now(a: ActiveAnimation, now: u64) -> bool {
    !a.started_dispatched && elapsed(a, now) >= a.delay
}

/// `a` after its `transitionstart`, if that is due, was queued.
pub open spec fn marked(a: ActiveAnimation, now: u64) -> ActiveAnimation {
    if starts_now(a, now) {
        ActiveAnimation { started_dispatched: true, ..a }
    } else {
        a
    }
}

/// The `transitioncancel` of `a` at `now`.
pub open spec fn cancel_event(a: ActiveAnimation, now: u64) -> PendingEvent {
    PendingEvent { node: a.node, slot: a.slot, kind: TransitionEventKind::Cancel, property: a.property, elapsed_ms: elapsed(a, now) }
}

/// The events one advance queues for `a`: `transitionstart` when its
/// delay has elapsed, then `transitionend` when it is over.
pub open spec fn advance_events(a: ActiveAnimation, now: u64) -> Seq<PendingEvent> {
    (if starts_now(a, now) {
        seq![
            PendingEvent {
                node: a.node,
                slot: a.slot,
                kind: TransitionEventKind::Start,
                property: a.property,
                elapsed_ms: 0,
            },
        ]
    } else {
        Seq::empty()
    }) + (if is_done(a, now) {
        seq![
            PendingEvent {
                node: a.node,
                slot: a.slot,
                kind: TransitionEventKind::End,
                property: a.property,
                elapsed_ms: a.duration as u64,
            },
        ]
    } else {
        Seq::empty()
    })
}

/// The animations of `s` still running after an advance, marked.
pub open spec fn still_running(s: Seq<ActiveAnimation>, now: u64) -> Seq<ActiveAnimation>
    decreases s.len(),
{
    if s.len() == 0 {
        Seq::empty()
    } else {
        still_running(s.drop_last(), now) + if is_done(s.last(), now) {
            Seq::empty()
        } else {
            seq![marked(s.last(), now)]
        }
    }
}

/// The animations of `s` an advance retires, marked.
pub open spec fn finished(s: Seq<ActiveAnimation>, now: u64) -> Seq<ActiveAnimation>
    decreases s.len(),
{
    if s.len() == 0 {
        Seq::empty()
    } else {
        finished(s.drop_last(), now) + if is_done(s.last(), now) {
            seq![marked(s.last(), now)]
        } else {
            Seq::empty()
        }
    }
}

/// The events an advance queues for `s`, in order.
pub open spec fn events_of(s: Seq<ActiveAnimation>, now: u64) -> Seq<PendingEvent>
    decreases s.len(),
{
    if s.len() == 0 {
        Seq::empty()
    } else {
        events_of(s.drop_last(), now) + advance_events(s.last(), now)
    }
}

/// The order in which an advance at `now` visits the animations of
/// `s` from index `i` on: an animation that is over is taken out by
/// moving the last one into its place (which is visited next); one
/// still running stays, marked, and the sweep moves on.
pub open spec fn advance_order(s: Seq<ActiveAnimation>, i: int, now: u64) -> Seq<ActiveAnimation>
    decreases s.len() - i,
{
    if i < 0 || i >= s.len() {
        Seq::empty()
    } else if is_done(s[i], now) {
        seq![s[i]] + advance_order(s.update(i, s.last()).drop_last(), i, now)
    } else {
        seq![s[i]] + advance_order(s.update(i, marked(s[i], now)), i + 1, now)
    }
}

/// The order in which a cancel for `node` visits the animations of `s`
/// from index `i` on: one on `node` is taken out by moving the last one
/// into its place (which is visited next); another stays.
pub open spec fn cancel_order(s: Seq<ActiveAnimation>, i: int, node: NodeId) -> Seq<ActiveAnimation>
    decreases s.len() - i,
{
    if i < 0 || i >= s.len() {
        Seq::empty()
    } else if s[i].node == node {
        seq![s[i]] + cancel_order(s.update(i, s.last()).drop_last(), i, node)
    } else {
        seq![s[i]] + cancel_order(s, i + 1, node)
    }
}

/// The animations of `s` not on `node`.
pub open spec fn not_on(s: Seq<ActiveAnimation>, node: NodeId) -> Seq<ActiveAnimation>
    decreases s.len(),
{
    if s.len() == 0 {
        Seq::empty()
    } else {
        not_on(s.drop_last(), node) + if s.last().node == node {
            Seq::empty()
        } else {
            seq![s.last()]
        }
    }
}

/// The cancel events of the animations of `s` on `node`.
pub open spec fn cancels_on(s: Seq<ActiveAnimation>, node: NodeId, now: u64) -> Seq<PendingEvent>
    decreases s.len(),
{
    if s.len() == 0 {
        Seq::empty()
    } else {
        cancels_on(s.drop_last(), node, now) + if s.last().node == node {
            seq![cancel_event(s.last(), now)]
        } else {
            Seq::empty()
        }
    }
}

/// Removing entry `i` by moving the last one into its place removes
/// `s[i]` from the multiset.
proof fn lemma_swap_remove_multiset<A>(s: Seq<A>, i: int)
    requires
        0 <= i < s.len(),
    ensures
        s.update(i, s.last()).drop_last().to_multiset() =~= s.to_multiset().remove(s[i]),
{
    broadcast use vstd::multiset::group_multiset_axioms;
    broadcast use vstd::seq_lib::group_to_multiset_ensures;

    let u = s.update(i, s.last());
    assert(u.drop_last() =~= u.remove(u.len() - 1));
    assert(u[u.len() - 1] == s.last());
}

/// The multiset of `s[i..]` is `s[i]` plus that of `s[i + 1..]`.
proof fn lemma_skip_multiset<A>(s: Seq<A>, i: int)
    requires
        0 <= i < s.len(),
    ensures
        s.skip(i).to_multiset() =~= s.skip(i + 1).to_multiset().insert(s[i]),
{
    broadcast use vstd::multiset::group_multiset_axioms;
    broadcast use vstd::seq_lib::group_to_multiset_ensures;

    assert(s.skip(i) =~= s.skip(i + 1).insert(0, s[i]));
}

/// The in-flight animations after registering `anim`: one in flight
/// for its (node, slot, property) is taken out (the last one moving
/// into its place) and `anim` joins at the end, starting from
/// `restart_from` when given.
pub open spec fn registered(s: Seq<ActiveAnimation>, anim: ActiveAnimation, restart_from: Option<AnimatedValue>) -> Seq<
    ActiveAnimation,
> {
    match first_match(s, anim.node, anim.slot, anim.property, 0) {
        Some(pos) => s.update(pos, s.last()).drop_last().push(
            ActiveAnimation {
                from: match restart_from {
                    Some(v) => v,
                    None => anim.from,
                },
                ..anim
            },
        ),
        None => s.push(anim),
    }
}

/// No two animations of `s` are for the same (node, slot, property).
pub open spec fn keys_unique(s: Seq<ActiveAnimation>) -> bool {
    forall|i: int, j: int|
        0 <= i < j < s.len() ==> !key_matches(#[trigger] s[i], s[j].node, s[j].slot, #[trigger] s[j].property)
}

proof fn lemma_first_match(s: Seq<ActiveAnimation>, node: NodeId, slot: StyleSlot, prop: AnimatedProp, i: int)
    requires
        0 <= i,
    ensures
        match first_match(s, node, slot, prop, i) {
            Some(k) => i <= k < s.len() && key_matches(s[k], node, slot, prop) && forall|j: int|
                i <= j < k ==> !key_matches(#[trigger] s[j], node, slot, prop),
            None => forall|j: int| i <= j < s.len() ==> !key_matches(#[trigger] s[j], node, slot, prop),
        },
    decreases s.len() - i,
{
    if i < s.len() {
        lemma_first_match(s, node, slot, prop, i + 1);
    }
}

/// Each transition queues `transitionstart` and `transitionend` at most
/// once: after an advance at `now`, every animation still running has
/// its start marked as queued once its delay has elapsed (so no later
/// advance queues it again), and none is over (the one that queued its
/// end was retired with it).
pub proof fn law_events_queued_once(s: Seq<ActiveAnimation>, now: u64)
    ensures
        forall|k: int|
            0 <= k < still_running(s, now).len() ==> {
                let x = #[trigger] still_running(s, now)[k];
                &&& !is_done(x, now)
                &&& elapsed(x, now) >= x.delay ==> x.started_dispatched
            },
    decreases s.len(),
{
    if s.len() > 0 {
        law_events_queued_once(s.drop_last(), now);
        let prev = still_running(s.drop_last(), now);
        assert forall|k: int|
            0 <= k < still_running(s, now).len() implies {
                let x = #[trigger] still_running(s, now)[k];
                &&& !is_done(x, now)
                &&& elapsed(x, now) >= x.delay ==> x.started_dispatched
            } by {
            if k < prev.len() {
                assert(still_running(s, now)[k] == prev[k]);
            } else {
                assert(still_running(s, now)[k] == marked(s.last(), now));
            }
        }
    }
}

/// A transition's start, once queued, is never queued again: the
/// animation as an advance leaves it queues no `transitionstart` at any
/// later advance.
pub proof fn law_start_not_requeued(a: ActiveAnimation, t1: u64, t2: u64)
    requires
        starts_now(a, t1),
    ensures
        !starts_now(marked(a, t1), t2),
{
}

/// Registering replaces: it never leaves two animations for one
/// (node, slot, property), and afterwards exactly the new one is in
/// flight for its own.
pub proof fn law_register_replaces(s: Seq<ActiveAnimation>, anim: ActiveAnimation, restart_from: Option<AnimatedValue>)
    requires
        keys_unique(s),
    ensures
        keys_unique(registered(s, anim, restart_from)),
        ({
            let r = registered(s, anim, restart_from);
            &&& key_matches(r.last(), anim.node, anim.slot, anim.property)
            &&& forall|j: int| 0 <= j < r.len() - 1 ==> !key_matches(#[trigger] r[j], anim.node, anim.slot, anim.property)
        }),
{
    lemma_first_match(s, anim.node, anim.slot, anim.property, 0);
    let r = registered(s, anim, restart_from);
    match first_match(s, anim.node, anim.slot, anim.property, 0) {
        Some(pos) => {
            let t = s.update(pos, s.last()).drop_last();
            assert forall|j: int| 0 <= j < t.len() implies !key_matches(#[trigger] t[j], anim.node, anim.slot, anim.property) by {
                if j == pos {
                    assert(t[j] == s[s.len() - 1]);
                    if s.len() - 1 != pos {
                        assert(!key_matches(s[pos], s[s.len() - 1].node, s[s.len() - 1].slot, s[s.len() - 1].property));
                    }
                } else {
                    assert(t[j] == s[j]);
                    if j < pos {
                    } else {
                        assert(!key_matches(s[pos], s[j].node, s[j].slot, s[j].property));
                    }
                }
            }
            assert forall|i: int, j: int|
                0 <= i < j < r.len() implies !key_matches(#[trigger] r[i], r[j].node, r[j].slot, #[trigger] r[j].property) by {
                if j == r.len() - 1 {
                    assert(r[i] == t[i]);
                } else {
                    assert(r[i] == t[i] && r[j] == t[j]);
                    let si = if i == pos { s.len() - 1 } else { i };
                    let sj = if j == pos { s.len() - 1 } else { j };
                    assert(t[i] == s[si] && t[j] == s[sj]);
                    if si < sj {
                        assert(!key_matches(s[si], s[sj].node, s[sj].slot, s[sj].property));
                    } else {
                        assert(!key_matches(s[sj], s[si].node, s[si].slot, s[si].property));
                    }
                }
            }
        },
        None => {
            assert forall|i: int, j: int|
                0 <= i < j < r.len() implies !key_matches(#[trigger] r[i], r[j].node, r[j].slot, #[trigger] r[j].property) by {
                if j == r.len() - 1 {
                    assert(r[i] == s[i]);
                } else {
                    assert(r[i] == s[i] && r[j] == s[j]);
                }
            }
        },
    }
}

/// Cancelling `node` leaves no animation on it.
pub proof fn law_cancel_clears_node(s: Seq<ActiveAnimation>, node: NodeId)
    ensures
        forall|i: int| 0 <= i < not_on(s, node).len() ==> (#[trigger] not_on(s, node)[i]).node != node,
    decreases s.len(),
{
    if s.len() > 0 {
        law_cancel_clears_node(s.drop_last(), node);
        let a = not_on(s.drop_last(), node);
        assert forall|i: int| 0 <= i < not_on(s, node).len() implies (#[trigger] not_on(s, node)[i]).node != node by {
            if i < a.len() {
                assert(not_on(s, node)[i] == a[i]);
            }
        }
    }
}

/// Animations with distinct keys are distinct.
proof fn lemma_keys_unique_no_duplicates(s: Seq<ActiveAnimation>)
    requires
        keys_unique(s),
    ensures
        s.no_duplicates(),
{
    assert forall|i: int, j: int| 0 <= i < s.len() && 0 <= j < s.len() && i != j implies s[i] != s[j] by {
        if i < j {
            assert(!key_matches(s[i], s[j].node, s[j].slot, s[j].property));
        } else {
            assert(!key_matches(s[j], s[i].node, s[i].slot, s[i].property));
        }
    }
}

/// Reordering keeps the keys distinct.
proof fn lemma_keys_unique_permuted(s: Seq<ActiveAnimation>, t: Seq<ActiveAnimation>)
    requires
        keys_unique(s),
        t.to_multiset() == s.to_multiset(),
    ensures
        keys_unique(t),
{
    broadcast use vstd::multiset::group_multiset_axioms;
    broadcast use vstd::seq_lib::group_to_multiset_ensures;

    lemma_keys_unique_no_duplicates(s);
    s.lemma_multiset_has_no_duplicates();
    t.lemma_multiset_has_no_duplicates_conv();
    assert forall|i: int, j: int|
        0 <= i < j < t.len() implies !key_matches(#[trigger] t[i], t[j].node, t[j].slot, #[trigger] t[j].property) by {
        if key_matches(t[i], t[j].node, t[j].slot, t[j].property) {
            assert(t.contains(t[i]) && t.contains(t[j]));
            assert(t.to_multiset().count(t[i]) > 0 && t.to_multiset().count(t[j]) > 0);
            assert(s.contains(t[i]) && s.contains(t[j]));
            let a = choose|k: int| 0 <= k < s.len() && s[k] == t[i];
            let b = choose|k: int| 0 <= k < s.len() && s[k] == t[j];
            if a < b {
                assert(!key_matches(s[a], s[b].node, s[b].slot, s[b].property));
            } else if b < a {
                assert(!key_matches(s[b], s[a].node, s[a].slot, s[a].property));
            }
        }
    }
}

/// The animations still running after an advance carry keys of the
/// animations advanced, distinct when those were.
proof fn lemma_still_running_keys(s: Seq<ActiveAnimation>, now: u64)
    requires
        keys_unique(s),
    ensures
        keys_unique(still_running(s, now)),
        forall|j: int|
            0 <= j < still_running(s, now).len() ==> exists|k: int|
                0 <= k < s.len() && key_matches(#[trigger] still_running(s, now)[j], s[k].node, s[k].slot, s[k].property),
    decreases s.len(),
{
    if s.len() > 0 {
        let d = s.drop_last();
        assert forall|i: int, j: int|
            0 <= i < j < d.len() implies !key_matches(#[trigger] d[i], d[j].node, d[j].slot, #[trigger] d[j].property) by {
            assert(d[i] == s[i] && d[j] == s[j]);
        }
        lemma_still_running_keys(d, now);
        let r0 = still_running(d, now);
        let r = still_running(s, now);
        assert forall|j: int| 0 <= j < r0.len() implies exists|k: int|
            0 <= k < s.len() && key_matches(#[trigger] r[j], s[k].node, s[k].slot, s[k].property) by {
            assert(r[j] == r0[j]);
            let k = choose|k: int| 0 <= k < d.len() && key_matches(r0[j], d[k].node, d[k].slot, d[k].property);
            assert(s[k] == d[k]);
        }
        if !is_done(s.last(), now) {
            let m = marked(s.last(), now);
            assert(r[r0.len() as int] == m);
            assert(key_matches(m, s[s.len() - 1].node, s[s.len() - 1].slot, s[s.len() - 1].property));
            assert forall|i: int, j: int|
                0 <= i < j < r.len() implies !key_matches(#[trigger] r[i], r[j].node, r[j].slot, #[trigger] r[j].property) by {
                if j == r0.len() {
                    assert(r[i] == r0[i]);
                    let k = choose|k: int| 0 <= k < d.len() && key_matches(r0[i], d[k].node, d[k].slot, d[k].property);
                    assert(!key_matches(s[k], s[s.len() - 1].node, s[s.len() - 1].slot, s[s.len() - 1].property));
                } else {
                    assert(r[i] == r0[i] && r[j] == r0[j]);
                }
            }
        } else {
            assert(r =~= r0);
        }
    }
}

/// The animations a cancel keeps carry keys of the animations it saw,
/// distinct when those were.
proof fn lemma_not_on_keys(s: Seq<ActiveAnimation>, node: NodeId)
    requires
        keys_unique(s),
    ensures
        keys_unique(not_on(s, node)),
        forall|j: int|
            0 <= j < not_on(s, node).len() ==> exists|k: int|
                0 <= k < s.len() && key_matches(#[trigger] not_on(s, node)[j], s[k].node, s[k].slot, s[k].property),
    decreases s.len(),
{
    if s.len() > 0 {
        let d = s.drop_last();
        assert forall|i: int, j: int|
            0 <= i < j < d.len() implies !key_matches(#[trigger] d[i], d[j].node, d[j].slot, #[trigger] d[j].property) by {
            assert(d[i] == s[i] && d[j] == s[j]);
        }
        lemma_not_on_keys(d, node);
        let r0 = not_on(d, node);
        let r = not_on(s, node);
        assert forall|j: int| 0 <= j < r0.len() implies exists|k: int|
            0 <= k < s.len() && key_matches(#[trigger] r[j], s[k].node, s[k].slot, s[k].property) by {
            assert(r[j] == r0[j]);
            let k = choose|k: int| 0 <= k < d.len() && key_matches(r0[j], d[k].node, d[k].slot, d[k].property);
            assert(s[k] == d[k]);
        }
        if s.last().node != node {
            assert(r[r0.len() as int] == s.last());
            assert forall|i: int, j: int|
                0 <= i < j < r.len() implies !key_matches(#[trigger] r[i], r[j].node, r[j].slot, #[trigger] r[j].property) by {
                if j == r0.len() {
                    assert(r[i] == r0[i]);
                    let k = choose|k: int| 0 <= k < d.len() && key_matches(r0[i], d[k].node, d[k].slot, d[k].property);
                    assert(!key_matches(s[k], s[s.len() - 1].node, s[s.len() - 1].slot, s[s.len() - 1].property));
                } else {
                    assert(r[i] == r0[i] && r[j] == r0[j]);
                }
            }
        } else {
            assert(r =~= r0);
        }
    }
}

/// All in-flight transitions and the events due for dispatch.
pub struct AnimationRegistry {
    active: Vec<ActiveAnimation>,
    pending_events: Vec<PendingEvent>,
}

impl AnimationRegistry {
    /// The in-flight animations.
    pub closed spec fn active_spec(&self) -> Seq<ActiveAnimation> {
        self.active@
    }

    /// The events due for dispatch, in order.
    pub closed spec fn pending_spec(&self) -> Seq<PendingEvent> {
        self.pending_events@
    }

    /// No animation and no event.
    pub fn new() -> (r: AnimationRegistry)
        ensures
            r.active_spec().len() == 0,
            r.pending_spec().len() == 0,
            keys_unique(r.active_spec()),
    {
        AnimationRegistry { active: Vec::new(), pending_events: Vec::new() }
    }

    pub fn is_empty(&self) -> (r: bool)
        ensures
            r == (self.active_spec().len() == 0),
    {
        self.active.len() == 0
    }

    /// The number of in-flight animations.
    pub fn len(&self) -> (r: usize)
        ensures
            r == self.active_spec().len(),
    {
        self.active.len()
    }

    /// The in-flight animations, in registry order.
    pub fn active(&self) -> (r: Vec<ActiveAnimation>)
        ensures
            r@ == self.active_spec(),
    {
        self.active.clone()
    }

    /// Hand out the due events and forget them.
    pub fn take_pending_events(&mut self) -> (r: Vec<PendingEvent>)
        ensures
            r@ == old(self).pending_spec(),
            final(self).pending_spec().len() == 0,
            final(self).active_spec() == old(self).active_spec(),
    {
        let mut out: Vec<PendingEvent> = Vec::new();
        std::mem::swap(&mut out, &mut self.pending_events);
        out
    }

    /// The in-flight animation of `prop` in `slot` of `node`, if any.
    pub fn find(&self, node: NodeId, slot: StyleSlot, prop: AnimatedProp) -> (r: Option<ActiveAnimation>)
        ensures
            r == match first_match(self.active_spec(), node, slot, prop, 0) {
                Some(i) => Some(self.active_spec()[i]),
                None => None,
            },
    {
        let mut i: usize = 0;
        while i < self.active.len()
            invariant
                i <= self.active@.len(),
                first_match(self.active@, node, slot, prop, 0) == first_match(self.active@, node, slot, prop, i as int),
            decreases self.active@.len() - i,
        {
            let a = self.active[i];
            if a.node == node && a.slot == slot && a.property == prop {
                return Some(a);
            }
            i = i + 1;
        }
        None
    }

    /// Start `anim`. An animation already running for the same node,
    /// slot and property is dropped with a `transitioncancel`, and
    /// `anim` then starts from `restart_from` (the dropped animation's
    /// value at `now`, which the caller computes) when one is given.
    pub fn register(&mut self, anim: ActiveAnimation, now: u64, restart_from: Option<AnimatedValue>)
        ensures
            final(self).active_spec() == registered(old(self).active_spec(), anim, restart_from),
            final(self).pending_spec() == match first_match(old(self).active_spec(), anim.node, anim.slot, anim.property, 0) {
                Some(pos) => old(self).pending_spec().push(cancel_event(old(self).active_spec()[pos], now)),
                None => old(self).pending_spec(),
            },
            keys_unique(old(self).active_spec()) ==> keys_unique(final(self).active_spec()),
    {
        proof {
            if keys_unique(self.active@) {
                law_register_replaces(self.active@, anim, restart_from);
            }
        }
        let mut fresh = anim;
        let mut i: usize = 0;
        while i < self.active.len()
            invariant
                i <= self.active@.len(),
                self.active@ == old(self).active@,
                self.pending_events@ == old(self).pending_events@,
                fresh == anim,
                first_match(self.active@, anim.node, anim.slot, anim.property, 0) == first_match(
                    self.active@,
                    anim.node,
                    anim.slot,
                    anim.property,
                    i as int,
                ),
            decreases self.active@.len() - i,
        {
            let a = self.active[i];
            if a.node == anim.node && a.slot == anim.slot && a.property == anim.property {
                assert(first_match(self.active@, anim.node, anim.slot, anim.property, i as int) == Some(i as int));
                let old_anim = self.active.swap_remove(i);
                let el = if now >= old_anim.started_at {
                    now - old_anim.started_at
                } else {
                    0
                };
                self.pending_events.push(
                    PendingEvent {
                        node: old_anim.node,
                        slot: old_anim.slot,
                        kind: TransitionEventKind::Cancel,
                        property: old_anim.property,
                        elapsed_ms: el,
                    },
                );
                match restart_from {
                    Some(v) => {
                        fresh.from = v;
                    },
                    None => {},
                }
                self.active.push(fresh);
                return ;
            }
            i = i + 1;
        }
        self.active.push(fresh);
    }

    /// Advance to `now`: queue `transitionstart` for each animation whose
    /// delay has elapsed (once), and retire each finished one with a
    /// `transitionend`. Returns the retired animations; the caller
    /// clears their overrides and writes the current values of the
    /// others. The animations are visited in an order that is a
    /// permutation of the registry's.
    pub fn advance(&mut self, now: u64) -> (retired: Vec<ActiveAnimation>)
        ensures
            ({
                let processed = advance_order(old(self).active_spec(), 0, now);
                &&& processed.to_multiset() == old(self).active_spec().to_multiset()
                &&& final(self).active_spec() == still_running(processed, now)
                &&& retired@ == finished(processed, now)
                &&& final(self).pending_spec() == old(self).pending_spec() + events_of(processed, now)
            }),
            keys_unique(old(self).active_spec()) ==> keys_unique(final(self).active_spec()),
    {
        let ghost orig = self.active@;
        let ghost start = self.pending_events@;
        let ghost mut processed: Seq<ActiveAnimation> = Seq::empty();
        let mut retired: Vec<ActiveAnimation> = Vec::new();
        let mut i: usize = 0;
        assert(self.active@.skip(0) =~= orig);
        proof {
            broadcast use vstd::multiset::group_multiset_axioms;

            processed.to_multiset_ensures();
            assert(processed.to_multiset() =~= Multiset::empty());
            assert(processed.to_multiset().add(orig.to_multiset()) =~= orig.to_multiset());
            assert(self.active@.take(0) =~= Seq::<ActiveAnimation>::empty());
        }
        while i < self.active.len()
            invariant
                i <= self.active@.len(),
                processed.to_multiset().add(self.active@.skip(i as int).to_multiset()) =~= orig.to_multiset(),
                processed + advance_order(self.active@, i as int, now) == advance_order(orig, 0, now),
                self.active@.take(i as int) == still_running(processed, now),
                retired@ == finished(processed, now),
                self.pending_events@ == start + events_of(processed, now),
            decreases self.active@.len() - i,
        {
            proof {
                lemma_skip_multiset(self.active@, i as int);
            }
            let a = self.active[i];
            let ghost before = self.active@;
            let ghost p2 = processed.push(a);
            assert(p2.drop_last() =~= processed);
            let el = if now >= a.started_at {
                now - a.started_at
            } else {
                0
            };
            let mut m = a;
            if !a.started_dispatched && el >= a.delay as u64 {
                m.started_dispatched = true;
                self.pending_events.push(
                    PendingEvent {
                        node: a.node,
                        slot: a.slot,
                        kind: TransitionEventKind::Start,
                        property: a.property,
                        elapsed_ms: 0,
                    },
                );
            }
            assert(m == marked(a, now));
            if el >= a.delay as u64 + a.duration as u64 {
                let _ = self.active.swap_remove(i);
                self.pending_events.push(
                    PendingEvent {
                        node: a.node,
                        slot: a.slot,
                        kind: TransitionEventKind::End,
                        property: a.property,
                        elapsed_ms: a.duration as u64,
                    },
                );
                retired.push(m);
                proof {
                    broadcast use vstd::multiset::group_multiset_axioms;

                    let t = before.skip(i as int);
                    assert(self.active@.skip(i as int) =~= t.update(0, t.last()).drop_last());
                    lemma_swap_remove_multiset(t, 0);
                    assert(t[0] == a);
                    assert(self.active@.take(i as int) =~= before.take(i as int));
                    vstd::seq_lib::to_multiset_build(processed, a);
                    assert(t.to_multiset().count(a) > 0);
                    assert(processed.to_multiset().insert(a).add(t.to_multiset().remove(a)) =~= processed.to_multiset().add(
                        t.to_multiset(),
                    ));
                    assert(self.pending_events@ =~= start + events_of(p2, now));
                    processed = p2;
                }
            } else {
                self.active.set(i, m);
                proof {
                    broadcast use vstd::multiset::group_multiset_axioms;

                    assert(self.active@.take(i + 1) =~= before.take(i as int).push(m));
                    assert(self.active@.skip(i + 1) =~= before.skip(i + 1));
                    vstd::seq_lib::to_multiset_build(processed, a);
                    assert(self.pending_events@ =~= start + events_of(p2, now));
                    processed = p2;
                }
                i = i + 1;
            }
        }
        proof {
            broadcast use vstd::multiset::group_multiset_axioms;

            let rest = self.active@.skip(i as int);
            assert(rest =~= Seq::<ActiveAnimation>::empty());
            rest.to_multiset_ensures();
            assert(rest.to_multiset() =~= Multiset::empty());
            assert(self.active@.take(i as int) =~= self.active@);
            assert(processed.to_multiset() =~= orig.to_multiset());
            if keys_unique(orig) {
                lemma_keys_unique_permuted(orig, processed);
                lemma_still_running_keys(processed, now);
            }
        }
        retired
    }

    /// Drop every in-flight animation on `node` (it left the tree or is
    /// no longer displayed), each with a `transitioncancel`.
    pub fn cancel_for_node(&mut self, node: NodeId, now: u64)
        ensures
            ({
                let processed = cancel_order(old(self).active_spec(), 0, node);
                &&& processed.to_multiset() == old(self).active_spec().to_multiset()
                &&& final(self).active_spec() == not_on(processed, node)
                &&& final(self).pending_spec() == old(self).pending_spec() + cancels_on(processed, node, now)
            }),
            forall|i: int| 0 <= i < final(self).active_spec().len() ==> (#[trigger] final(self).active_spec()[i]).node != node,
            keys_unique(old(self).active_spec()) ==> keys_unique(final(self).active_spec()),
    {
        let ghost orig = self.active@;
        let ghost start = self.pending_events@;
        let ghost mut processed: Seq<ActiveAnimation> = Seq::empty();
        let mut i: usize = 0;
        assert(self.active@.skip(0) =~= orig);
        proof {
            broadcast use vstd::multiset::group_multiset_axioms;

            processed.to_multiset_ensures();
            assert(processed.to_multiset() =~= Multiset::empty());
            assert(processed.to_multiset().add(orig.to_multiset()) =~= orig.to_multiset());
            assert(self.active@.take(0) =~= Seq::<ActiveAnimation>::empty());
        }
        while i < self.active.len()
            invariant
                i <= self.active@.len(),
                processed.to_multiset().add(self.active@.skip(i as int).to_multiset()) =~= orig.to_multiset(),
                processed + cancel_order(self.active@, i as int, node) == cancel_order(orig, 0, node),
                self.active@.take(i as int) == not_on(processed, node),
                self.pending_events@ == start + cancels_on(processed, node, now),
            decreases self.active@.len() - i,
        {
            proof {
                broadcast use vstd::multiset::group_multiset_axioms;

                lemma_skip_multiset(self.active@, i as int);
            }
            let a = self.active[i];
            let ghost before = self.active@;
            let ghost p2 = processed.push(a);
            assert(p2.drop_last() =~= processed);
            if a.node == node {
                let _ = self.active.swap_remove(i);
                let el = if now >= a.started_at {
                    now - a.started_at
                } else {
                    0
                };
                self.pending_events.push(
                    PendingEvent {
                        node: a.node,
                        slot: a.slot,
                        kind: TransitionEventKind::Cancel,
                        property: a.property,
                        elapsed_ms: el,
                    },
                );
                proof {
                    broadcast use vstd::multiset::group_multiset_axioms;

                    let t = before.skip(i as int);
                    assert(self.active@.skip(i as int) =~= t.update(0, t.last()).drop_last());
                    lemma_swap_remove_multiset(t, 0);
                    assert(t[0] == a);
                    assert(self.active@.take(i as int) =~= before.take(i as int));
                    vstd::seq_lib::to_multiset_build(processed, a);
                    assert(t.to_multiset().count(a) > 0);
                    assert(processed.to_multiset().insert(a).add(t.to_multiset().remove(a)) =~= processed.to_multiset().add(
                        t.to_multiset(),
                    ));
                    processed = p2;
                }
            } else {
                proof {
                    broadcast use vstd::multiset::group_multiset_axioms;

                    assert(self.active@.take(i + 1) =~= self.active@.take(i as int).push(a));
                    vstd::seq_lib::to_multiset_build(processed, a);
                    processed = p2;
                }
                i = i + 1;
            }
        }
        proof {
            broadcast use vstd::multiset::group_multiset_axioms;

            let rest = self.active@.skip(i as int);
            assert(rest =~= Seq::<ActiveAnimation>::empty());
            rest.to_multiset_ensures();
            assert(rest.to_multiset() =~= Multiset::empty());
            assert(self.active@.take(i as int) =~= self.active@);
            assert(processed.to_multiset() =~= orig.to_multiset());
            law_cancel_clears_node(processed, node);
            if keys_unique(orig) {
                lemma_keys_unique_permuted(orig, processed);
                lemma_not_on_keys(processed, node);
            }
        }
    }
}

} // verus!
