//! `<progress>` and `<meter>` bars: a track of `width` cells, filled
//! from the left, and the zone color of a meter. The fill ratio and the
//! zones come from decimal attributes the caller parses and measures.

use vstd::prelude::*;
use crate::dom::Node;
use crate::render::Color;
use crate::style::ComputedStyle;
use crate::text::push_char;

verus! {

/// The glyph of the filled part of a bar.
pub const FILL: char = '\u{2588}';

/// The glyph of the empty part of a bar.
pub const EMPTY: char = '\u{2591}';

/// Whether `n` is a `<progress>` or a `<meter>`.
pub fn is_gauge(n: &Node) -> (r: bool)
    ensures
        r == (n.is_element("progress"@) || n.is_element("meter"@)),
{
    n.has_tag("progress") || n.has_tag("meter")
}

/// `n` copies of `c`.
pub open spec fn repeat(c: char, n: nat) -> Seq<char>
    decreases n,
{
    if n == 0 {
        Seq::empty()
    } else {
        repeat(c, (n - 1) as nat).push(c)
    }
}

pub(crate) fn push_n(s: &mut String, c: char, n: usize)
    ensures
        final(s)@ == old(s)@ + repeat(c, n as nat),
{
    let mut i: usize = 0;
    assert(old(s)@ + repeat(c, 0) =~= old(s)@);
    while i < n
        invariant
            i <= n,
            s@ == old(s)@ + repeat(c, i as nat),
        decreases n - i,
    {
        push_char(s, c);
        assert(old(s)@ + repeat(c, (i + 1) as nat) =~= (old(s)@ + repeat(c, i as nat)).push(c));
        i = i + 1;
    }
}

/// A bar of `width` cells with its first `filled` cells (at most all of
/// them) filled.
pub fn fill_bar(width: u16, filled: usize) -> (r: String)
    ensures
        r@ == repeat(FILL, if filled < width { filled as nat } else { width as nat }) + repeat(
            EMPTY,
            if filled < width { (width - filled) as nat } else { 0 },
        ),
{
    let total = width as usize;
    let f = if filled < total {
        filled
    } else {
        total
    };
    let mut s = String::new();
    push_n(&mut s, FILL, f);
    push_n(&mut s, EMPTY, total - f);
    assert(Seq::<char>::empty() + repeat(FILL, f as nat) =~= repeat(FILL, f as nat));
    s
}

/// An indeterminate `<progress>`: the whole track empty.
pub fn indeterminate_bar(width: u16) -> (r: String)
    ensures
        r@ == repeat(EMPTY, width as nat),
{
    let mut s = String::new();
    push_n(&mut s, EMPTY, width as usize);
    assert(Seq::<char>::empty() + repeat(EMPTY, width as nat) =~= repeat(EMPTY, width as nat));
    s
}

/// Where a meter reading falls against its `low` / `high` thresholds.
#[derive(Clone, Copy, Debug, PartialEq, Eq, Structural)]
pub enum Zone {
    Low,
    Mid,
    High,
}

pub open spec fn zone_rank(z: Zone) -> int {
    match z {
        Zone::Low => 0,
        Zone::Mid => 1,
        Zone::High => 2,
    }
}

/// A meter's color override: none when the value is in the optimum's
/// zone (the cascaded color shows), yellow one zone away, red two
/// zones away.
pub fn meter_zone_color(value_zone: Zone, optimum_zone: Zone) -> (r: Option<Color>)
    ensures
        r == if value_zone == optimum_zone {
            None
        } else if zone_rank(value_zone) - zone_rank(optimum_zone) == 1 || zone_rank(optimum_zone) - zone_rank(
            value_zone,
        ) == 1 {
            Some(Color::Rgb(255, 255, 0))
        } else {
            Some(Color::Rgb(255, 0, 0))
        },
{
    let v: i8 = match value_zone {
        Zone::Low => 0,
        Zone::Mid => 1,
        Zone::High => 2,
    };
    let o: i8 = match optimum_zone {
        Zone::Low => 0,
        Zone::Mid => 1,
        Zone::High => 2,
    };
    if v == o {
        None
    } else if v - o == 1 || o - v == 1 {
        Some(Color::Rgb(255, 255, 0))
    } else {
        Some(Color::Rgb(255, 0, 0))
    }
}

/// `base` with its foreground replaced by `color`, when given.
pub fn override_fg(base: ComputedStyle, color: Option<Color>) -> (r: ComputedStyle)
    ensures
        r == match color {
            Some(c) => ComputedStyle { fg: c, ..base },
            None => base,
        },
{
    let mut out = base;
    match color {
        Some(c) => {
            out.fg = c;
        },
        None => {},
    }
    out
}

} // verus!
