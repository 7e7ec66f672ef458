//! Computed style values the runtime reads: sizes, lengths, padding,
//! stacking order, the transition longhands, and the per-slot
//! presentation overrides an in-flight transition writes.

use vstd::prelude::*;
use crate::render::Color;

verus! {

/// A box size.
#[derive(Clone, Copy, Debug, PartialEq, Eq, Structural)]
pub enum Size {
    /// A fixed number of cells.
    Fixed(u16),
    /// Sized by content.
    Auto,
    /// A flex share of the free space.
    Flex(u16),
    /// A percentage of the containing block.
    Percent(u16),
}

/// An offset (`top` / `right` / `bottom` / `left`).
#[derive(Clone, Copy, Debug, PartialEq, Eq, Structural)]
pub enum Length {
    Cells(i32),
    Percent(i16),
    Auto,
}

/// Stacking order.
#[derive(Clone, Copy, Debug, PartialEq, Eq, Structural)]
pub enum ZIndex {
    Auto,
    Value(i16),
}

/// One side of the padding.
#[derive(Clone, Copy, Debug, PartialEq, Eq, Structural)]
pub enum PaddingValue {
    Cells(u16),
    /// A percentage of the containing block's width, known only at layout.
    Percent(u16),
}

/// Padding on the four sides.
#[derive(Clone, Copy, Debug, PartialEq, Eq, Structural)]
pub struct Padding {
    pub top: PaddingValue,
    pub right: PaddingValue,
    pub bottom: PaddingValue,
    pub left: PaddingValue,
}

impl Padding {
    /// No padding.
    pub fn zero() -> (r: Padding)
        ensures
            r == zero_padding(),
    {
        Padding {
            top: PaddingValue::Cells(0),
            right: PaddingValue::Cells(0),
            bottom: PaddingValue::Cells(0),
            left: PaddingValue::Cells(0),
        }
    }
}

pub open spec fn zero_padding() -> Padding {
    Padding {
        top: PaddingValue::Cells(0),
        right: PaddingValue::Cells(0),
        bottom: PaddingValue::Cells(0),
        left: PaddingValue::Cells(0),
    }
}

/// The gap between flex items.
#[derive(Clone, Copy, Debug, PartialEq, Eq, Structural)]
pub enum Gap {
    Cells(u16),
    /// A percentage, known only at layout.
    Percent(u16),
}

impl Gap {
    pub open spec fn cells_spec(self) -> Option<u16> {
        match self {
            Gap::Cells(n) => Some(n),
            Gap::Percent(_) => None,
        }
    }

    /// The gap in cells, when it is known before layout.
    pub fn as_cells(&self) -> (r: Option<u16>)
        ensures
            r == self.cells_spec(),
    {
        match self {
            Gap::Cells(n) => Some(*n),
            Gap::Percent(_) => None,
        }
    }
}

/// A property a transition can animate, as named in `transition-property`.
#[derive(Clone, Copy, Debug, PartialEq, Eq, Structural)]
pub enum AnimatableProperty {
    Color,
    BackgroundColor,
    BorderColor,
    Width,
    Height,
    Padding,
    Gap,
    Top,
    Right,
    Bottom,
    Left,
    ZIndex,
}

/// One entry of `transition-property`.
#[derive(Clone, Copy, Debug, PartialEq, Eq, Structural)]
pub enum TransitionProperty {
    All,
    /// `none`: no property transitions.
    Disabled,
    /// A property that only switches, never animates.
    Discrete,
    Named(AnimatableProperty),
}

/// An easing keyword of `transition-timing-function`.
#[derive(Clone, Copy, Debug, PartialEq, Eq, Structural)]
pub enum TimingFunction {
    Ease,
    Linear,
    EaseIn,
    EaseOut,
    EaseInOut,
    StepStart,
    StepEnd,
}

/// The cascade's result for one element (or pseudo-element): the values
/// the runtime reads.
#[derive(Clone, Debug)]
pub struct ComputedStyle {
    pub fg: Color,
    pub bg: Color,
    pub border_fg: Color,
    pub width: Size,
    pub height: Size,
    pub padding: Padding,
    pub gap: Gap,
    pub top: Length,
    pub right: Length,
    pub bottom: Length,
    pub left: Length,
    pub z_index: ZIndex,
    pub transition_property: Vec<TransitionProperty>,
    /// Milliseconds.
    pub transition_duration: Vec<u32>,
    pub transition_timing_function: Vec<TimingFunction>,
    /// Milliseconds.
    pub transition_delay: Vec<u32>,
}

/// The values an in-flight transition currently shows, overriding the
/// computed ones property by property.
#[derive(Clone, Copy, Debug, PartialEq, Eq, Structural)]
pub struct Presentation {
    pub fg: Option<Color>,
    pub bg: Option<Color>,
    pub border_fg: Option<Color>,
    pub width: Option<Size>,
    pub height: Option<Size>,
    pub padding: Option<Padding>,
    pub gap: Option<u16>,
    pub top: Option<Length>,
    pub right: Option<Length>,
    pub bottom: Option<Length>,
    pub left: Option<Length>,
    pub z_index: Option<ZIndex>,
}

pub open spec fn no_presentation() -> Presentation {
    Presentation {
        fg: None,
        bg: None,
        border_fg: None,
        width: None,
        height: None,
        padding: None,
        gap: None,
        top: None,
        right: None,
        bottom: None,
        left: None,
        z_index: None,
    }
}

impl Presentation {
    /// No override.
    pub fn none() -> (r: Presentation)
        ensures
            r == no_presentation(),
    {
        Presentation {
            fg: None,
            bg: None,
            border_fg: None,
            width: None,
            height: None,
            padding: None,
            gap: None,
            top: None,
            right: None,
            bottom: None,
            left: None,
            z_index: None,
        }
    }
}

/// The element itself or one of its pseudo-elements.
#[derive(Clone, Copy, Debug, PartialEq, Eq, Structural)]
pub enum StyleSlot {
    Host,
    Before,
    After,
}

} // verus!
