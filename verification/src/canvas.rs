//! `<canvas>`: a raw cell-buffer surface. A canvas with a registered
//! paint callback is drawn by the callback through a [`RenderContext`]
//! bounded to the canvas; without one its children paint as fallback
//! content.

use vstd::prelude::*;
use crate::dom::{collect_text, deep_text, Dom, Node, NodeExt, NodeId, NodeType};
use crate::path::{node_by_id, node_by_id_mut, node_of, updated_at_id};
use crate::render::{string_limit, text_piece, written, Buffer, Cell, Rect, Style};
use crate::text::char_width;

verus! {

/// Width the UA stylesheet gives a `<canvas>`.
pub const CANVAS_DEFAULT_WIDTH: u16 = 40;

/// Height the UA stylesheet gives a `<canvas>`.
pub const CANVAS_DEFAULT_HEIGHT: u16 = 10;

/// The size the UA stylesheet gives `n`, when it gives one.
pub fn ua_size(n: &Node) -> (r: Option<(u16, u16)>)
    ensures
        r == if n.is_element("canvas"@) {
            Some((CANVAS_DEFAULT_WIDTH, CANVAS_DEFAULT_HEIGHT))
        } else {
            None
        },
{
    if n.has_tag("canvas") {
        Some((CANVAS_DEFAULT_WIDTH, CANVAS_DEFAULT_HEIGHT))
    } else {
        None
    }
}

/// `n` with its paint-callback flag set to `b` (elements only).
pub open spec fn with_paint(n: Node, b: bool) -> Node {
    if n.node_type == NodeType::Element {
        Node { ext: NodeExt { has_paint: b, ..n.ext }, ..n }
    } else {
        n
    }
}

fn mark_paint(n: &mut Node, b: bool)
    ensures
        *final(n) == with_paint(*old(n), b),
{
    if n.node_type == NodeType::Element {
        n.ext.has_paint = b;
    }
}

/// Record that a paint callback is registered on the element `canvas`
/// (replacing any previous one).
pub fn set_paint(dom: &mut Dom, canvas: NodeId)
    ensures
        updated_at_id(old(dom).root, final(dom).root, canvas, |n: Node| with_paint(n, true)),
        final(dom).focused == old(dom).focused,
        final(dom).next_id == old(dom).next_id,
{
    match node_by_id_mut(&mut dom.root, canvas) {
        Some(n) => mark_paint(n, true),
        None => {},
    }
}

/// Record that the element `canvas` has no paint callback any more; it
/// paints its fallback children again.
pub fn clear_paint(dom: &mut Dom, canvas: NodeId)
    ensures
        updated_at_id(old(dom).root, final(dom).root, canvas, |n: Node| with_paint(n, false)),
        final(dom).focused == old(dom).focused,
        final(dom).next_id == old(dom).next_id,
{
    match node_by_id_mut(&mut dom.root, canvas) {
        Some(n) => mark_paint(n, false),
        None => {},
    }
}

/// Whether the node `canvas` has a registered paint callback.
pub fn has_paint(dom: &Dom, canvas: NodeId) -> (r: bool)
    ensures
        r == match node_of(dom.root, canvas) {
            Some(n) => n.ext.has_paint,
            None => false,
        },
{
    match node_by_id(&dom.root, canvas) {
        Some(n) => n.ext.has_paint,
        None => false,
    }
}

/// A handle to the cell buffer for painting one canvas. Coordinates
/// given to it are canvas-local; writes outside the canvas or outside
/// the paint clip are dropped.
pub struct RenderContext<'a> {
    buffer: &'a mut Buffer,
    /// Canvas's content-rect top-left in buffer coordinates.
    origin_x: i32,
    origin_y: i32,
    /// Canvas's full content size in cells.
    width: u16,
    height: u16,
    /// Paint clip in buffer coordinates.
    clip: Rect,
}

/// An origin `o` with an extent of `extent` cells stays well inside
/// the `i32` range.
pub open spec fn origin_ok(o: int, extent: u16) -> bool {
    i32::MIN + 65536 <= o && o + extent <= i32::MAX
}

pub open spec fn min_int(a: int, b: int) -> int {
    if a <= b {
        a
    } else {
        b
    }
}

/// No piece of text lands at or past its column limit.
proof fn lemma_text_piece_past_limit(cs: Seq<char>, i: int, off: int, lim: int, k: int)
    requires
        k >= lim,
    ensures
        text_piece(cs, i, off, lim, k) is None,
    decreases cs.len() - i,
{
    if 0 <= i < cs.len() {
        lemma_text_piece_past_limit(cs, i + 1, off, lim, k);
        let w: int = match char_width(cs[i]) {
            Some(w) => w as int,
            None => 0,
        };
        if w != 0 && off + w <= lim {
            lemma_text_piece_past_limit(cs, i + 1, off + w, lim, k);
        }
    }
}

impl<'a> RenderContext<'a> {
    pub closed spec fn buf(&self) -> Buffer {
        *self.buffer
    }

    pub closed spec fn ox(&self) -> int {
        self.origin_x as int
    }

    pub closed spec fn oy(&self) -> int {
        self.origin_y as int
    }

    pub closed spec fn w(&self) -> u16 {
        self.width
    }

    pub closed spec fn h(&self) -> u16 {
        self.height
    }

    pub closed spec fn clip_rect(&self) -> Rect {
        self.clip
    }

    /// The buffer is well formed and the canvas stays inside the
    /// coordinate range.
    pub open spec fn inv(&self) -> bool {
        &&& self.buf().wf()
        &&& origin_ok(self.ox(), self.w())
        &&& origin_ok(self.oy(), self.h())
    }

    /// Whether canvas-local `(x, y)` is the buffer cell `(bx, by)` and is
    /// drawn: inside the canvas and inside the clip.
    pub open spec fn draws(&self, x: int, y: int, bx: int, by: int) -> bool {
        &&& 0 <= x < self.w()
        &&& 0 <= y < self.h()
        &&& bx == self.ox() + x
        &&& by == self.oy() + y
        &&& self.clip_rect().contains(bx, by)
    }

    /// Same canvas geometry and buffer area.
    pub open spec fn same_frame(&self, other: &RenderContext) -> bool {
        &&& other.ox() == self.ox()
        &&& other.oy() == self.oy()
        &&& other.w() == self.w()
        &&& other.h() == self.h()
        &&& other.clip_rect() == self.clip_rect()
        &&& other.buf().area_spec() == self.buf().area_spec()
        &&& other.inv()
    }

    /// A context for the canvas whose content rect starts at
    /// `(origin_x, origin_y)` in `buffer` and is `width` x `height`
    /// cells, painting inside `clip`.
    pub fn new(buffer: &'a mut Buffer, origin_x: i32, origin_y: i32, width: u16, height: u16, clip: Rect) -> (r: Self)
        requires
            old(buffer).wf(),
            origin_ok(origin_x as int, width),
            origin_ok(origin_y as int, height),
        ensures
            r.buf() == *old(buffer),
            r.ox() == origin_x,
            r.oy() == origin_y,
            r.w() == width,
            r.h() == height,
            r.clip_rect() == clip,
            r.inv(),
    {
        RenderContext { buffer, origin_x, origin_y, width, height, clip }
    }

    /// Canvas width in cells.
    pub fn width(&self) -> (r: u16)
        ensures
            r == self.w(),
    {
        self.width
    }

    /// Canvas height in cells.
    pub fn height(&self) -> (r: u16)
        ensures
            r == self.h(),
    {
        self.height
    }

    /// Whether buffer cell `(x, y)` is inside the paint clip.
    fn in_clip(&self, x: i32, y: i32) -> (r: bool)
        ensures
            r == self.clip_rect().contains(x as int, y as int),
    {
        x >= self.clip.x as i32 && x < self.clip.right() as i32 && y >= self.clip.y as i32 && y
            < self.clip.bottom() as i32
    }

    /// Set the cell at canvas-local `(x, y)` to `ch` in `style`; nothing
    /// happens past the canvas edge or outside the clip.
    pub fn set(&mut self, x: u16, y: u16, ch: char, style: Style)
        requires
            old(self).inv(),
        ensures
            old(self).same_frame(final(self)),
            forall|bx: int, by: int|
                old(self).buf().area_spec().contains(bx, by) ==> #[trigger] final(self).buf().cell_spec(bx, by)
                    == if old(self).draws(x as int, y as int, bx, by) {
                    Cell { symbol: ch, style, spacer: false }
                } else {
                    old(self).buf().cell_spec(bx, by)
                },
    {
        if x >= self.width || y >= self.height {
            return ;
        }
        let ax = self.origin_x + x as i32;
        let ay = self.origin_y + y as i32;
        if !self.in_clip(ax, ay) {
            return ;
        }
        self.buffer.set_char(ax as u16, ay as u16, ch, style);
    }

    /// The number of columns `text` at canvas-local `(x, y)` may use:
    /// up to the canvas's right edge and the clip's right edge.
    pub open spec fn text_budget(&self, x: u16) -> int {
        min_int(self.w() - x, self.clip_rect().right_spec() - (self.ox() + x))
    }

    /// Whether `text` at canvas-local `(x, y)` writes at all: it starts
    /// inside the canvas, inside the clip band and at or right of the
    /// clip's left edge, with room left.
    pub open spec fn text_starts(&self, x: u16, y: u16) -> bool {
        &&& y < self.h()
        &&& x < self.w()
        &&& self.clip_rect().y <= self.oy() + y < self.clip_rect().bottom_spec()
        &&& self.ox() + x >= self.clip_rect().x
        &&& self.text_budget(x) > 0
    }

    /// Write `s` from canvas-local `(x, y)` in `style`, wide glyphs taking
    /// two cells; the text is cut at the canvas's and the clip's right
    /// edge.
    pub fn text(&mut self, x: u16, y: u16, s: &str, style: Style)
        requires
            old(self).inv(),
        ensures
            old(self).same_frame(final(self)),
            forall|bx: int, by: int|
                old(self).buf().area_spec().contains(bx, by) ==> #[trigger] final(self).buf().cell_spec(bx, by)
                    == if old(self).text_starts(x, y) && by == old(self).oy() + y && bx >= old(self).ox() + x
                    && old(self).buf().area_spec().contains(old(self).ox() + x, old(self).oy() + y) {
                    written(
                        old(self).buf().cell_spec(bx, by),
                        text_piece(
                            s@,
                            0,
                            0,
                            string_limit(
                                old(self).buf().area_spec(),
                                (old(self).ox() + x) as u16,
                                old(self).text_budget(x) as usize,
                            ) as int,
                            bx - (old(self).ox() + x),
                        ),
                        style,
                    )
                } else {
                    old(self).buf().cell_spec(bx, by)
                },
    {
        if y >= self.height || x >= self.width {
            return ;
        }
        let ax = self.origin_x + x as i32;
        let ay = self.origin_y + y as i32;
        if ay < self.clip.y as i32 || ay >= self.clip.bottom() as i32 {
            return ;
        }
        if ax < self.clip.x as i32 {
            return ;
        }
        let canvas_budget = self.width - x;
        let clip_right = self.clip.right() as i32;
        if clip_right <= ax {
            return ;
        }
        let clip_budget = (clip_right - ax) as u16;
        let max = if canvas_budget < clip_budget {
            canvas_budget
        } else {
            clip_budget
        };
        self.buffer.set_stringn(ax as u16, ay as u16, s, max as usize, style);
    }

    /// `text` clips: it changes no cell outside the part of its row that
    /// lies between its start and the canvas's right edge, inside the
    /// paint clip.
    pub proof fn law_text_clipped(old: Self, new: Self, x: u16, y: u16, s: &str, style: Style, bx: int, by: int)
        requires
            old.inv(),
            forall|bx: int, by: int|
                old.buf().area_spec().contains(bx, by) ==> #[trigger] new.buf().cell_spec(bx, by) == if old.text_starts(
                    x,
                    y,
                ) && by == old.oy() + y && bx >= old.ox() + x && old.buf().area_spec().contains(
                    old.ox() + x,
                    old.oy() + y,
                ) {
                    written(
                        old.buf().cell_spec(bx, by),
                        text_piece(
                            s@,
                            0,
                            0,
                            string_limit(old.buf().area_spec(), (old.ox() + x) as u16, old.text_budget(x) as usize) as int,
                            bx - (old.ox() + x),
                        ),
                        style,
                    )
                } else {
                    old.buf().cell_spec(bx, by)
                },
            old.buf().area_spec().contains(bx, by),
            !(by == old.oy() + y && old.ox() + x <= bx < old.ox() + old.w() && old.clip_rect().contains(bx, by)),
        ensures
            new.buf().cell_spec(bx, by) == old.buf().cell_spec(bx, by),
    {
        if old.text_starts(x, y) && by == old.oy() + y && bx >= old.ox() + x && old.buf().area_spec().contains(
            old.ox() + x,
            old.oy() + y,
        ) {
            let budget = old.text_budget(x);
            let lim = string_limit(old.buf().area_spec(), (old.ox() + x) as u16, budget as usize) as int;
            assert(lim <= budget);
            assert(bx - (old.ox() + x) >= budget);
            lemma_text_piece_past_limit(s@, 0, 0, lim, bx - (old.ox() + x));
        }
    }

    /// Whether canvas-local `(x, y)` is inside the rectangle
    /// `(rx, ry, w, h)` cut to the canvas.
    pub open spec fn in_rect(&self, rx: u16, ry: u16, w: u16, h: u16, x: int, y: int) -> bool {
        &&& rx <= x < min_int(rx + w, self.w() as int)
        &&& ry <= y < min_int(ry + h, self.h() as int)
    }

    /// Fill the rectangle `(x, y, w, h)` (canvas-local, cut to the canvas)
    /// with blanks in `style`.
    pub fn rect(&mut self, x: u16, y: u16, w: u16, h: u16, style: Style)
        requires
            old(self).inv(),
        ensures
            old(self).same_frame(final(self)),
            forall|bx: int, by: int|
                old(self).buf().area_spec().contains(bx, by) ==> #[trigger] final(self).buf().cell_spec(bx, by)
                    == if old(self).in_rect(x, y, w, h, bx - old(self).ox(), by - old(self).oy())
                    && old(self).clip_rect().contains(bx, by) {
                    Cell { symbol: ' ', style, spacer: false }
                } else {
                    old(self).buf().cell_spec(bx, by)
                },
    {
        let x_end = {
            let e = x.saturating_add(w);
            if e < self.width {
                e
            } else {
                self.width
            }
        };
        let y_end = {
            let e = y.saturating_add(h);
            if e < self.height {
                e
            } else {
                self.height
            }
        };
        let ghost start = *self;
        assert(x_end == min_int(x + w, start.w() as int));
        assert(y_end == min_int(y + h, start.h() as int));
        let mut yy: u16 = y;
        while yy < y_end
            invariant
                start.inv(),
                start.same_frame(self),
                y <= yy,
                yy <= y_end || yy == y,
                y_end == min_int(y + h, start.h() as int),
                x_end == min_int(x + w, start.w() as int),
                forall|bx: int, by: int|
                    start.buf().area_spec().contains(bx, by) ==> #[trigger] self.buf().cell_spec(bx, by) == if x
                        <= bx - start.ox() < x_end && y <= by - start.oy() < yy && start.clip_rect().contains(bx, by) {
                        Cell { symbol: ' ', style, spacer: false }
                    } else {
                        start.buf().cell_spec(bx, by)
                    },
            decreases y_end - yy,
        {
            let mut xx: u16 = x;
            while xx < x_end
                invariant
                    start.inv(),
                    start.same_frame(self),
                    y <= yy < y_end,
                    x <= xx,
                    xx <= x_end || xx == x,
                    y_end == min_int(y + h, start.h() as int),
                    x_end == min_int(x + w, start.w() as int),
                    forall|bx: int, by: int|
                        start.buf().area_spec().contains(bx, by) ==> #[trigger] self.buf().cell_spec(bx, by) == if x
                            <= bx - start.ox() < x_end && y <= by - start.oy() && (by - start.oy() < yy || (by
                            - start.oy() == yy && bx - start.ox() < xx)) && start.clip_rect().contains(bx, by) {
                            Cell { symbol: ' ', style, spacer: false }
                        } else {
                            start.buf().cell_spec(bx, by)
                        },
                decreases x_end - xx,
            {
                self.set(xx, yy, ' ', style);
                xx = xx + 1;
            }
            yy = yy + 1;
        }
    }

    /// Fill the whole canvas with blanks in `style`.
    pub fn fill(&mut self, style: Style)
        requires
            old(self).inv(),
        ensures
            old(self).same_frame(final(self)),
            forall|bx: int, by: int|
                old(self).buf().area_spec().contains(bx, by) ==> #[trigger] final(self).buf().cell_spec(bx, by)
                    == if old(self).in_rect(0, 0, old(self).w(), old(self).h(), bx - old(self).ox(), by - old(self).oy())
                    && old(self).clip_rect().contains(bx, by) {
                    Cell { symbol: ' ', style, spacer: false }
                } else {
                    old(self).buf().cell_spec(bx, by)
                },
    {
        let w = self.width;
        let h = self.height;
        self.rect(0, 0, w, h, style);
    }

    /// Clear the whole canvas to blanks in the default style.
    pub fn clear(&mut self)
        requires
            old(self).inv(),
        ensures
            old(self).same_frame(final(self)),
            forall|bx: int, by: int|
                old(self).buf().area_spec().contains(bx, by) ==> #[trigger] final(self).buf().cell_spec(bx, by)
                    == if old(self).in_rect(0, 0, old(self).w(), old(self).h(), bx - old(self).ox(), by - old(self).oy())
                    && old(self).clip_rect().contains(bx, by) {
                    crate::render::blank_cell()
                } else {
                    old(self).buf().cell_spec(bx, by)
                },
    {
        self.fill(Style::new());
    }

    /// The sub-rectangle `(x, y, w, h)` of this canvas as a context of its
    /// own, with local coordinates; it is cut to this canvas, and keeps
    /// the paint clip.
    pub fn sub<'b>(&'b mut self, x: u16, y: u16, w: u16, h: u16) -> (r: RenderContext<'b>)
        requires
            old(self).inv(),
            old(self).ox() + x <= i32::MAX,
            old(self).oy() + y <= i32::MAX,
        ensures
            r.buf() == old(self).buf(),
            r.ox() == old(self).ox() + x,
            r.oy() == old(self).oy() + y,
            r.w() == min_int(if old(self).w() >= x { old(self).w() - x } else { 0 }, w as int),
            r.h() == min_int(if old(self).h() >= y { old(self).h() - y } else { 0 }, h as int),
            r.clip_rect() == old(self).clip_rect(),
            r.inv(),
    {
        let sw = self.width.saturating_sub(x);
        let clamped_w = if sw < w {
            sw
        } else {
            w
        };
        let sh = self.height.saturating_sub(y);
        let clamped_h = if sh < h {
            sh
        } else {
            h
        };
        let ox = self.origin_x + x as i32;
        let oy = self.origin_y + y as i32;
        let clip = self.clip;
        RenderContext::new(&mut *self.buffer, ox, oy, clamped_w, clamped_h, clip)
    }
}

/// Paint a canvas without a paint callback: its children's text as
/// fallback content, from the canvas's top-left cell. Returns whether
/// the fallback was painted; a canvas with a callback is left to it.
pub fn paint_fallback(canvas: &Node, ctx: &mut RenderContext)
    -> (painted: bool)
    requires
        old(ctx).inv(),
    ensures
        painted == !canvas.ext.has_paint,
        old(ctx).same_frame(final(ctx)),
        !painted ==> final(ctx).buf() == old(ctx).buf(),
        painted ==> forall|bx: int, by: int|
            old(ctx).buf().area_spec().contains(bx, by) ==> #[trigger] final(ctx).buf().cell_spec(bx, by)
                == if old(ctx).text_starts(0, 0) && by == old(ctx).oy() && bx >= old(ctx).ox()
                && old(ctx).buf().area_spec().contains(old(ctx).ox(), old(ctx).oy()) {
                written(
                    old(ctx).buf().cell_spec(bx, by),
                    text_piece(
                        deep_text(canvas.children@),
                        0,
                        0,
                        string_limit(
                            old(ctx).buf().area_spec(),
                            old(ctx).ox() as u16,
                            old(ctx).text_budget(0) as usize,
                        ) as int,
                        bx - old(ctx).ox(),
                    ),
                    Style { fg: crate::render::Color::Reset, bg: crate::render::Color::Reset },
                )
            } else {
                old(ctx).buf().cell_spec(bx, by)
            },
{
    if canvas.ext.has_paint {
        return false;
    }
    let mut s = String::new();
    collect_text(&canvas.children, &mut s);
    assert(Seq::<char>::empty() + deep_text(canvas.children@) =~= deep_text(canvas.children@));
    ctx.text(0, 0, s.as_str(), Style::new());
    true
}

} // verus!
