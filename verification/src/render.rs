//! Terminal cells: colors, styles, rectangles, and the cell buffer a
//! frame is painted into.

use vstd::prelude::*;
use crate::text::{char_display_width, char_width, chars_of};

verus! {

/// A terminal color.
#[derive(Clone, Copy, Debug, PartialEq, Eq, Structural)]
pub enum Color {
    /// The terminal's default.
    Reset,
    /// An entry of the terminal's palette.
    Indexed(u8),
    /// A true color.
    Rgb(u8, u8, u8),
}

/// Foreground and background of a cell.
#[derive(Clone, Copy, Debug, PartialEq, Eq, Structural)]
pub struct Style {
    pub fg: Color,
    pub bg: Color,
}

impl Style {
    /// The default style: both colors `Reset`.
    pub fn new() -> (r: Style)
        ensures
            r.fg == Color::Reset,
            r.bg == Color::Reset,
    {
        Style { fg: Color::Reset, bg: Color::Reset }
    }

    /// This style with foreground `c`.
    pub fn fg(self, c: Color) -> (r: Style)
        ensures
            r.fg == c,
            r.bg == self.bg,
    {
        Style { fg: c, bg: self.bg }
    }

    /// This style with background `c`.
    pub fn bg(self, c: Color) -> (r: Style)
        ensures
            r.fg == self.fg,
            r.bg == c,
    {
        Style { fg: self.fg, bg: c }
    }
}

/// An axis-aligned rectangle of cells.
#[derive(Clone, Copy, Debug, PartialEq, Eq, Structural)]
pub struct Rect {
    pub x: u16,
    pub y: u16,
    pub width: u16,
    pub height: u16,
}

pub open spec fn sat_add16(a: u16, b: u16) -> u16 {
    if a + b > u16::MAX {
        u16::MAX
    } else {
        (a + b) as u16
    }
}

impl Rect {
    pub fn new(x: u16, y: u16, width: u16, height: u16) -> (r: Rect)
        ensures
            r == (Rect { x, y, width, height }),
    {
        Rect { x, y, width, height }
    }

    pub open spec fn right_spec(self) -> u16 {
        sat_add16(self.x, self.width)
    }

    pub open spec fn bottom_spec(self) -> u16 {
        sat_add16(self.y, self.height)
    }

    /// One past the last column (saturating).
    pub fn right(&self) -> (r: u16)
        ensures
            r == self.right_spec(),
    {
        self.x.saturating_add(self.width)
    }

    /// One past the last row (saturating).
    pub fn bottom(&self) -> (r: u16)
        ensures
            r == self.bottom_spec(),
    {
        self.y.saturating_add(self.height)
    }

    /// Whether the cell `(x, y)` lies inside.
    pub open spec fn contains(self, x: int, y: int) -> bool {
        &&& self.x <= x < self.right_spec()
        &&& self.y <= y < self.bottom_spec()
    }
}

/// One terminal cell. A cell covered by the right half of a wide glyph
/// is a spacer.
#[derive(Clone, Copy, Debug, PartialEq, Eq, Structural)]
pub struct Cell {
    pub symbol: char,
    pub style: Style,
    pub spacer: bool,
}

pub open spec fn blank_cell() -> Cell {
    Cell { symbol: ' ', style: Style { fg: Color::Reset, bg: Color::Reset }, spacer: false }
}

impl Cell {
    pub fn symbol(&self) -> (r: char)
        ensures
            r == self.symbol,
    {
        self.symbol
    }

    pub fn is_spacer(&self) -> (r: bool)
        ensures
            r == self.spacer,
    {
        self.spacer
    }
}

/// What a string written from column offset 0 with a budget of `lim`
/// columns puts at column offset `k`: the glyph starting there, a
/// spacer inside a wide glyph, or nothing. Characters of no width are
/// skipped; writing stops before the first glyph that does not fit.
pub open spec fn text_piece(cs: Seq<char>, i: int, off: int, lim: int, k: int) -> Option<(char, bool)>
    decreases cs.len() - i,
{
    if i < 0 || i >= cs.len() {
        None
    } else {
        let w: int = match char_width(cs[i]) {
            Some(w) => w as int,
            None => 0,
        };
        if w == 0 {
            text_piece(cs, i + 1, off, lim, k)
        } else if off + w > lim {
            None
        } else if k == off {
            Some((cs[i], false))
        } else if off < k < off + w {
            Some((' ', true))
        } else {
            text_piece(cs, i + 1, off + w, lim, k)
        }
    }
}

/// The cell a text write leaves: the glyph or spacer `piece` in
/// `style`, or the cell as it was.
pub open spec fn written(old: Cell, piece: Option<(char, bool)>, style: Style) -> Cell {
    match piece {
        Some((c, sp)) => Cell { symbol: c, style, spacer: sp },
        None => old,
    }
}

proof fn lemma_index(w: int, h: int, dx: int, dy: int)
    requires
        0 <= dx < w,
        0 <= dy < h,
    ensures
        0 <= dy * w + dx < w * h,
{
    assert(dy * w <= (h - 1) * w) by (nonlinear_arith)
        requires
            0 <= dy <= h - 1,
            0 < w,
    ;
    assert((h - 1) * w + w == h * w) by (nonlinear_arith);
    assert(0 <= dy * w) by (nonlinear_arith)
        requires
            0 <= dy,
            0 < w,
    ;
}

proof fn lemma_index_inj(w: int, dx1: int, dy1: int, dx2: int, dy2: int)
    requires
        0 <= dx1 < w,
        0 <= dx2 < w,
        0 <= dy1,
        0 <= dy2,
        dy1 * w + dx1 == dy2 * w + dx2,
    ensures
        dx1 == dx2,
        dy1 == dy2,
{
    if dy1 < dy2 {
        assert(dy1 * w + w <= dy2 * w) by (nonlinear_arith)
            requires
                dy1 < dy2,
                0 < w,
        ;
    } else if dy2 < dy1 {
        assert(dy2 * w + w <= dy1 * w) by (nonlinear_arith)
            requires
                dy2 < dy1,
                0 < w,
        ;
    }
}

/// A rectangle of cells.
pub struct Buffer {
    area: Rect,
    cells: Vec<Cell>,
}

impl Buffer {
    /// One cell per position of the area.
    pub closed spec fn wf(self) -> bool {
        self.cells@.len() == self.area.width * self.area.height
    }

    /// The rectangle the buffer covers.
    pub closed spec fn area_spec(self) -> Rect {
        self.area
    }

    /// The cell at `(x, y)`, for a cell inside the area.
    pub closed spec fn cell_spec(self, x: int, y: int) -> Cell {
        self.cells@[(y - self.area.y) * self.area.width + (x - self.area.x)]
    }

    /// The index of cell `(x, y)`.
    fn index(&self, x: u16, y: u16) -> (r: usize)
        requires
            self.wf(),
            self.area.contains(x as int, y as int),
        ensures
            r < self.cells@.len(),
            r == (y - self.area.y) * self.area.width + (x - self.area.x),
    {
        proof {
            lemma_index(self.area.width as int, self.area.height as int, x - self.area.x, y - self.area.y);
        }
        let dy = (y - self.area.y) as usize;
        let dx = (x - self.area.x) as usize;
        let w = self.area.width as usize;
        let h = self.area.height as usize;
        assert(w * h <= 65535 * 65535) by (nonlinear_arith)
            requires
                w <= 65535,
                h <= 65535,
        ;
        assert(dy * w + dx < w * h);
        assert(0 <= dy * w) by (nonlinear_arith)
            requires
                0 <= dy,
                0 <= w,
        ;
        dy * w + dx
    }

    /// A buffer of blank cells covering `area`.
    pub fn empty(area: Rect) -> (r: Buffer)
        ensures
            r.wf(),
            r.area_spec() == area,
            forall|x: int, y: int| area.contains(x, y) ==> r.cell_spec(x, y) == blank_cell(),
    {
        let w = area.width as usize;
        let h = area.height as usize;
        assert(w * h <= 65535 * 65535) by (nonlinear_arith)
            requires
                w <= 65535,
                h <= 65535,
        ;
        let n = w * h;
        let mut cells: Vec<Cell> = Vec::new();
        let mut i: usize = 0;
        while i < n
            invariant
                i <= n,
                cells@.len() == i,
                forall|k: int| 0 <= k < i ==> #[trigger] cells@[k] == blank_cell(),
            decreases n - i,
        {
            cells.push(Cell { symbol: ' ', style: Style::new(), spacer: false });
            i = i + 1;
        }
        let r = Buffer { area, cells };
        proof {
            assert forall|x: int, y: int| area.contains(x, y) implies r.cell_spec(x, y) == blank_cell() by {
                lemma_index(w as int, h as int, x - area.x, y - area.y);
            }
        }
        r
    }

    /// The rectangle the buffer covers.
    pub fn area(&self) -> (r: Rect)
        ensures
            r == self.area_spec(),
    {
        self.area
    }

    /// The cell at `(x, y)`, or `None` outside the area.
    pub fn cell(&self, x: u16, y: u16) -> (r: Option<&Cell>)
        requires
            self.wf(),
        ensures
            match r {
                Some(c) => self.area_spec().contains(x as int, y as int) && *c == self.cell_spec(
                    x as int,
                    y as int,
                ),
                None => !self.area_spec().contains(x as int, y as int),
            },
    {
        if x >= self.area.x && x < self.area.right() && y >= self.area.y && y < self.area.bottom() {
            let i = self.index(x, y);
            Some(&self.cells[i])
        } else {
            None
        }
    }

    /// Replace the cell at `(x, y)`, which is inside the area.
    fn put(&mut self, x: u16, y: u16, c: Cell)
        requires
            old(self).wf(),
            old(self).area_spec().contains(x as int, y as int),
        ensures
            final(self).wf(),
            final(self).area_spec() == old(self).area_spec(),
            forall|px: int, py: int|
                old(self).area_spec().contains(px, py) ==> #[trigger] final(self).cell_spec(px, py) == if px
                    == x && py == y {
                    c
                } else {
                    old(self).cell_spec(px, py)
                },
    {
        let i = self.index(x, y);
        self.cells.set(i, c);
        proof {
            let a = self.area;
            assert forall|px: int, py: int| a.contains(px, py) implies #[trigger] self.cell_spec(px, py) == if px
                == x && py == y {
                c
            } else {
                old(self).cell_spec(px, py)
            } by {
                lemma_index(a.width as int, a.height as int, px - a.x, py - a.y);
                if px != x || py != y {
                    if (py - a.y) * a.width + (px - a.x) == (y - a.y) * a.width + (x - a.x) {
                        lemma_index_inj(a.width as int, px - a.x, py - a.y, x - a.x, y - a.y);
                    }
                }
            }
        }
    }

    /// Set the cell at `(x, y)` to glyph `ch` in `style`; nothing happens
    /// outside the area.
    pub fn set_char(&mut self, x: u16, y: u16, ch: char, style: Style)
        requires
            old(self).wf(),
        ensures
            final(self).wf(),
            final(self).area_spec() == old(self).area_spec(),
            forall|px: int, py: int|
                old(self).area_spec().contains(px, py) ==> #[trigger] final(self).cell_spec(px, py) == if px
                    == x && py == y {
                    Cell { symbol: ch, style, spacer: false }
                } else {
                    old(self).cell_spec(px, py)
                },
    {
        if x >= self.area.x && x < self.area.right() && y >= self.area.y && y < self.area.bottom() {
            self.put(x, y, Cell { symbol: ch, style, spacer: false });
        }
    }

    /// Write `s` from `(x, y)` rightwards in `style`, using at most `max`
    /// columns and stopping at the area's right edge: each glyph takes
    /// its display width, the columns after the first being spacers.
    pub fn set_stringn(&mut self, x: u16, y: u16, s: &str, max: usize, style: Style)
        requires
            old(self).wf(),
        ensures
            final(self).wf(),
            final(self).area_spec() == old(self).area_spec(),
            forall|px: int, py: int|
                old(self).area_spec().contains(px, py) ==> #[trigger] final(self).cell_spec(px, py) == if py
                    == y && px >= x && old(self).area_spec().contains(x as int, y as int) {
                    written(
                        old(self).cell_spec(px, py),
                        text_piece(s@, 0, 0, string_limit(old(self).area_spec(), x, max) as int, px - x),
                        style,
                    )
                } else {
                    old(self).cell_spec(px, py)
                },
    {
        if !(x >= self.area.x && x < self.area.right() && y >= self.area.y && y < self.area.bottom()) {
            return ;
        }
        let ghost a = self.area;
        let room = (self.area.right() - x) as usize;
        let lim = if max < room {
            max
        } else {
            room
        };
        assert(lim == string_limit(a, x, max));
        let cs = chars_of(s);
        let mut i: usize = 0;
        let mut off: usize = 0;
        while i < cs.len()
            invariant_except_break
                i <= cs@.len(),
                cs@ == s@,
                off <= lim,
                lim == string_limit(a, x, max),
                x + lim <= a.right_spec(),
                a.contains(x as int, y as int),
                self.area_spec() == a,
                self.wf(),
                forall|k: int| k >= off ==> text_piece(cs@, 0, 0, lim as int, k) == text_piece(cs@, i as int, off as int, lim as int, k),
                forall|px: int, py: int|
                    a.contains(px, py) ==> #[trigger] self.cell_spec(px, py) == if py == y && x <= px < x + off {
                        written(old(self).cell_spec(px, py), text_piece(cs@, 0, 0, lim as int, px - x), style)
                    } else {
                        old(self).cell_spec(px, py)
                    },
            ensures
                self.area_spec() == a,
                self.wf(),
                forall|px: int, py: int|
                    a.contains(px, py) ==> #[trigger] self.cell_spec(px, py) == if py == y && px >= x {
                        written(old(self).cell_spec(px, py), text_piece(cs@, 0, 0, lim as int, px - x), style)
                    } else {
                        old(self).cell_spec(px, py)
                    },
            decreases cs@.len() - i,
        {
            let c = cs[i];
            let w = match char_display_width(c) {
                Some(w) => w,
                None => 0,
            };
            if w == 0 {
                proof {
                    assert forall|k: int| k >= off implies text_piece(cs@, 0, 0, lim as int, k) == text_piece(
                        cs@,
                        i + 1,
                        off as int,
                        lim as int,
                        k,
                    ) by {
                        assert(text_piece(cs@, i as int, off as int, lim as int, k) == text_piece(
                            cs@,
                            i + 1,
                            off as int,
                            lim as int,
                            k,
                        ));
                    }
                }
                i = i + 1;
            } else if w > lim - off {
                proof {
                    assert forall|px: int, py: int| a.contains(px, py) implies #[trigger] self.cell_spec(px, py) == if py
                        == y && px >= x {
                        written(old(self).cell_spec(px, py), text_piece(cs@, 0, 0, lim as int, px - x), style)
                    } else {
                        old(self).cell_spec(px, py)
                    } by {
                        if py == y && px >= x + off {
                            assert(text_piece(cs@, i as int, off as int, lim as int, px - x) == None::<(char, bool)>);
                        }
                    }
                }
                break;
            } else {
                let ghost before = *self;
                let cx = x + off as u16;
                self.put(cx, y, Cell { symbol: c, style, spacer: false });
                let mut j: usize = 1;
                while j < w
                    invariant
                        1 <= j <= w,
                        off + w <= lim,
                        x + lim <= a.right_spec(),
                        cx == x + off,
                        a.contains(x as int, y as int),
                        self.area_spec() == a,
                        self.wf(),
                        forall|px: int, py: int|
                            a.contains(px, py) ==> #[trigger] self.cell_spec(px, py) == if py == y && px == cx {
                                Cell { symbol: c, style, spacer: false }
                            } else if py == y && cx < px < cx + j {
                                Cell { symbol: ' ', style, spacer: true }
                            } else {
                                before.cell_spec(px, py)
                            },
                    decreases w - j,
                {
                    self.put(cx + j as u16, y, Cell { symbol: ' ', style, spacer: true });
                    j = j + 1;
                }
                proof {
                    assert forall|k: int| off <= k < off + w implies text_piece(cs@, i as int, off as int, lim as int, k)
                        == if k == off {
                        Some((c, false))
                    } else {
                        Some((' ', true))
                    } by {}
                    assert forall|k: int| k >= off + w implies text_piece(cs@, 0, 0, lim as int, k) == text_piece(
                        cs@,
                        i + 1,
                        (off + w) as int,
                        lim as int,
                        k,
                    ) by {
                        assert(text_piece(cs@, i as int, off as int, lim as int, k) == text_piece(
                            cs@,
                            i + 1,
                            (off + w) as int,
                            lim as int,
                            k,
                        ));
                    }
                    assert forall|px: int, py: int| a.contains(px, py) implies #[trigger] self.cell_spec(px, py) == if py
                        == y && x <= px < x + off + w {
                        written(old(self).cell_spec(px, py), text_piece(cs@, 0, 0, lim as int, px - x), style)
                    } else {
                        old(self).cell_spec(px, py)
                    } by {
                        if py == y && x + off <= px < x + off + w {
                            assert(text_piece(cs@, 0, 0, lim as int, px - x) == text_piece(
                                cs@,
                                i as int,
                                off as int,
                                lim as int,
                                px - x,
                            ));
                        }
                    }
                }
                off = off + w;
                i = i + 1;
            }
        }
    }
}

/// The columns a string written from column `x` may use: at most `max`,
/// and no further than the area's right edge.
pub open spec fn string_limit(area: Rect, x: u16, max: usize) -> usize {
    let room = (area.right_spec() - x) as usize;
    if max < room {
        max
    } else {
        room
    }
}

} // verus!
