//! `<input type="range">`: every range input paints as a track with a
//! thumb through a canvas paint callback, and the arrow, page and
//! home / end keys move its value. The value arithmetic is decimal and
//! done by the caller; this module decides which move a key asks for
//! and draws the track.

use vstd::prelude::*;
use crate::canvas::{with_paint, RenderContext};
use crate::dom::{Dom, Node, NodeId, NodeType};
use crate::events::KeyboardEvent;
use crate::path::{at, node_by_id_mut, path_ok, updated_at_id};
use crate::render::{Cell, Color, Style};

verus! {

/// The glyph of the track.
pub const TRACK_GLYPH: char = '\u{2500}';

/// The glyph of the thumb.
pub const THUMB_GLYPH: char = '\u{25CF}';

pub open spec fn is_range_spec(n: Node) -> bool {
    n.is_element("input"@) && n.attr("type"@) == Some("range"@)
}

/// Whether `n` is an `<input type="range">`.
pub fn is_range(n: &Node) -> (r: bool)
    ensures
        r == is_range_spec(*n),
{
    n.has_tag("input") && n.attribute_is("type", "range")
}

/// A keyboard move of a range's value.
#[derive(Clone, Copy, Debug, PartialEq, Eq, Structural)]
pub enum RangeMove {
    /// Up by this many steps.
    Increase(u32),
    /// Down by this many steps.
    Decrease(u32),
    ToMin,
    ToMax,
}

/// The move a `keydown` asks of the focused node: none unless it is an
/// enabled range input, the event was not cancelled and no Ctrl / Alt /
/// Meta is held; then Right / Up step up, Left / Down step down,
/// PageUp / PageDown move ten steps, Home / End go to the bounds.
pub fn range_key(focused: &Node, key: &KeyboardEvent, default_prevented: bool) -> (r: Option<RangeMove>)
    ensures
        r == if default_prevented || !is_range_spec(*focused) || focused.has_attr("disabled"@) || key.modifiers.ctrl
            || key.modifiers.meta || key.modifiers.alt {
            None
        } else if key.key@ == "ArrowRight"@ || key.key@ == "ArrowUp"@ {
            Some(RangeMove::Increase(1))
        } else if key.key@ == "ArrowLeft"@ || key.key@ == "ArrowDown"@ {
            Some(RangeMove::Decrease(1))
        } else if key.key@ == "PageUp"@ {
            Some(RangeMove::Increase(10))
        } else if key.key@ == "PageDown"@ {
            Some(RangeMove::Decrease(10))
        } else if key.key@ == "Home"@ {
            Some(RangeMove::ToMin)
        } else if key.key@ == "End"@ {
            Some(RangeMove::ToMax)
        } else {
            None
        },
{
    if default_prevented || !is_range(focused) || focused.has_attribute("disabled") {
        return None;
    }
    if key.modifiers.ctrl || key.modifiers.meta || key.modifiers.alt {
        return None;
    }
    if key.is("ArrowRight") || key.is("ArrowUp") {
        Some(RangeMove::Increase(1))
    } else if key.is("ArrowLeft") || key.is("ArrowDown") {
        Some(RangeMove::Decrease(1))
    } else if key.is("PageUp") {
        Some(RangeMove::Increase(10))
    } else if key.is("PageDown") {
        Some(RangeMove::Decrease(10))
    } else if key.is("Home") {
        Some(RangeMove::ToMin)
    } else if key.is("End") {
        Some(RangeMove::ToMax)
    } else {
        None
    }
}

/// Register the track painting on the node `input` when it is a range
/// input; anything else is left alone.
pub fn attach(dom: &mut Dom, input: NodeId)
    ensures
        updated_at_id(
            old(dom).root,
            final(dom).root,
            input,
            |n: Node|
                if is_range_spec(n) {
                    with_paint(n, true)
                } else {
                    n
                },
        ),
        final(dom).focused == old(dom).focused,
        final(dom).next_id == old(dom).next_id,
{
    match node_by_id_mut(&mut dom.root, input) {
        Some(n) => {
            if is_range(n) {
                n.ext.has_paint = true;
            }
        },
        None => {},
    }
}

/// `new` is the subtree `old` with the track painting registered on
/// every range input and nothing else changed.
pub open spec fn ranges_attached(old: Node, new: Node) -> bool
    decreases old,
{
    &&& new.id == old.id
    &&& new.node_type == old.node_type
    &&& new.tag@ == old.tag@
    &&& new.text@ == old.text@
    &&& new.attrs == old.attrs
    &&& new.ext == if is_range_spec(old) {
        with_paint(old, true).ext
    } else {
        old.ext
    }
    &&& new.children@.len() == old.children@.len()
    &&& forall|j: int| 0 <= j < old.children@.len() ==> ranges_attached(old.children@[j], #[trigger] new.children@[j])
}

fn attach_subtree(n: &mut Node)
    ensures
        ranges_attached(*old(n), *final(n)),
    decreases *old(n),
{
    if is_range(n) {
        n.ext.has_paint = true;
    }
    let mut i: usize = 0;
    while i < n.children.len()
        invariant
            i <= n.children@.len(),
            n.children@.len() == old(n).children@.len(),
            n.id == old(n).id,
            n.node_type == old(n).node_type,
            n.tag@ == old(n).tag@,
            n.text@ == old(n).text@,
            n.attrs == old(n).attrs,
            n.ext == if is_range_spec(*old(n)) {
                with_paint(*old(n), true).ext
            } else {
                old(n).ext
            },
            forall|j: int| i <= j < n.children@.len() ==> #[trigger] n.children@[j] == old(n).children@[j],
            forall|j: int| 0 <= j < i ==> ranges_attached(old(n).children@[j], #[trigger] n.children@[j]),
        decreases n.children@.len() - i,
    {
        assert(decreases_to!(*old(n) => old(n).children@[i as int]));
        attach_subtree(&mut n.children[i]);
        i = i + 1;
    }
}

/// After the attaching pass every range input of the tree, wherever it
/// stands, has its track painting registered; every other node keeps
/// its paint registration as it was.
pub proof fn law_every_range_painted(old: Node, new: Node, q: Seq<usize>)
    requires
        ranges_attached(old, new),
        path_ok(new, q),
    ensures
        path_ok(old, q),
        is_range_spec(at(new, q)) == is_range_spec(at(old, q)),
        is_range_spec(at(new, q)) ==> at(new, q).ext.has_paint,
        !is_range_spec(at(new, q)) ==> at(new, q).ext == at(old, q).ext,
    decreases q.len(),
{
    if q.len() > 0 {
        let i = q[0] as int;
        assert(ranges_attached(old.children@[i], new.children@[i]));
        law_every_range_painted(old.children@[i], new.children@[i], q.drop_first());
        assert(at(new, q) == at(new.children@[i], q.drop_first()));
        assert(at(old, q) == at(old.children@[i], q.drop_first()));
    }
}

/// Register the track painting on every range input of the document.
pub fn attach_all(dom: &mut Dom)
    ensures
        ranges_attached(old(dom).root, final(dom).root),
        final(dom).focused == old(dom).focused,
        final(dom).next_id == old(dom).next_id,
{
    attach_subtree(&mut dom.root);
}

/// The style a range paints in: its computed foreground on the default
/// background.
pub fn track_style(fg: Color) -> (r: Style)
    ensures
        r == (Style { fg, bg: Color::Reset }),
{
    if fg == Color::Reset {
        Style::new()
    } else {
        Style::new().fg(fg)
    }
}

/// Paint a range's first row: the track across the whole width, then
/// the thumb at column `thumb_x` (at most the last column). Nothing is
/// painted on an empty canvas.
pub fn paint_track(ctx: &mut RenderContext, thumb_x: u16, style: Style)
    requires
        old(ctx).inv(),
    ensures
        old(ctx).same_frame(final(ctx)),
        forall|bx: int, by: int|
            old(ctx).buf().area_spec().contains(bx, by) ==> #[trigger] final(ctx).buf().cell_spec(bx, by) == if old(
                ctx,
            ).w() == 0 || old(ctx).h() == 0 || by != old(ctx).oy() || !(0 <= bx - old(ctx).ox() < old(ctx).w())
                || !old(ctx).clip_rect().contains(bx, by) {
                old(ctx).buf().cell_spec(bx, by)
            } else if bx - old(ctx).ox() == (if thumb_x < old(ctx).w() {
                thumb_x as int
            } else {
                old(ctx).w() - 1
            }) {
                Cell { symbol: THUMB_GLYPH, style, spacer: false }
            } else {
                Cell { symbol: TRACK_GLYPH, style, spacer: false }
            },
{
    let w = ctx.width();
    if w == 0 || ctx.height() == 0 {
        return ;
    }
    let ghost start = *ctx;
    let mut x: u16 = 0;
    while x < w
        invariant
            start.inv(),
            start.same_frame(ctx),
            w == start.w(),
            start.h() > 0,
            x <= w,
            forall|bx: int, by: int|
                start.buf().area_spec().contains(bx, by) ==> #[trigger] ctx.buf().cell_spec(bx, by) == if by
                    == start.oy() && 0 <= bx - start.ox() < x && start.clip_rect().contains(bx, by) {
                    Cell { symbol: TRACK_GLYPH, style, spacer: false }
                } else {
                    start.buf().cell_spec(bx, by)
                },
        decreases w - x,
    {
        ctx.set(x, 0, TRACK_GLYPH, style);
        x = x + 1;
    }
    let tx = if thumb_x < w {
        thumb_x
    } else {
        w - 1
    };
    ctx.set(tx, 0, THUMB_GLYPH, style);
}

} // verus!
