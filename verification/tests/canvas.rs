use rdom_tui::canvas::{has_paint, clear_paint, paint_fallback, set_paint, ua_size, RenderContext, CANVAS_DEFAULT_HEIGHT, CANVAS_DEFAULT_WIDTH};
use rdom_tui::dom::{Dom, NodeId};
use rdom_tui::path::node_by_id;
use rdom_tui::render::{Buffer, Color, Rect, Style};

fn row(buf: &Buffer, y: u16) -> String {
    let area = buf.area();
    let mut s = String::new();
    for x in area.x..area.right() {
        if let Some(c) = buf.cell(x, y) {
            if c.is_spacer() {
                continue;
            }
            s.push(c.symbol());
        }
    }
    s
}

fn canvas_dom() -> (Dom, NodeId) {
    let mut dom = Dom::new();
    let cv = dom.create_element("canvas");
    let id = cv.id;
    dom.root.append_child(cv);
    (dom, id)
}

#[test]
fn no_callback_falls_through_to_normal_paint() {
    let mut dom = Dom::new();
    let mut cv = dom.create_element("canvas");
    let t = dom.create_text_node("fallback");
    cv.append_child(t);
    let id = cv.id;
    dom.root.append_child(cv);
    let viewport = Rect::new(0, 0, 20, 1);
    let mut buf = Buffer::empty(viewport);
    {
        let node = node_by_id(&dom.root, id).unwrap();
        let mut ctx = RenderContext::new(&mut buf, 0, 0, 20, 1, viewport);
        assert!(paint_fallback(node, &mut ctx));
    }
    assert!(row(&buf, 0).contains("fallback"));
}

#[test]
fn canvas_ua_rule_is_baked_in() {
    let (dom, id) = canvas_dom();
    let node = node_by_id(&dom.root, id).unwrap();
    let (w, h) = ua_size(node).unwrap();
    assert_eq!(w, 40);
    assert_eq!(h, 10);
    assert_eq!((CANVAS_DEFAULT_WIDTH, CANVAS_DEFAULT_HEIGHT), (40, 10));
}

#[test]
fn set_paint_stores_callback_on_canvas_element() {
    let (mut dom, cv) = canvas_dom();
    assert!(!has_paint(&dom, cv));
    set_paint(&mut dom, cv);
    assert!(has_paint(&dom, cv));
}

#[test]
fn clear_paint_removes_callback() {
    let (mut dom, cv) = canvas_dom();
    set_paint(&mut dom, cv);
    clear_paint(&mut dom, cv);
    assert!(!has_paint(&dom, cv));
}

#[test]
fn paint_callback_overrides_fallback_children() {
    let mut dom = Dom::new();
    let mut cv = dom.create_element("canvas");
    let t = dom.create_text_node("fallback");
    cv.append_child(t);
    let id = cv.id;
    dom.root.append_child(cv);
    set_paint(&mut dom, id);
    let viewport = Rect::new(0, 0, 20, 1);
    let mut buf = Buffer::empty(viewport);
    {
        let node = node_by_id(&dom.root, id).unwrap();
        let mut ctx = RenderContext::new(&mut buf, 0, 0, 20, 1, viewport);
        assert!(!paint_fallback(node, &mut ctx));
    }
    assert!(!row(&buf, 0).contains("fallback"));
}

#[test]
fn non_canvas_has_no_ua_size() {
    let mut dom = Dom::new();
    let div = dom.create_element("div");
    assert_eq!(ua_size(&div), None);
}

#[test]
fn render_context_set_and_text_land_at_the_origin() {
    let viewport = Rect::new(0, 0, 10, 3);
    let mut buf = Buffer::empty(viewport);
    {
        let mut ctx = RenderContext::new(&mut buf, 2, 1, 5, 2, viewport);
        assert_eq!(ctx.width(), 5);
        assert_eq!(ctx.height(), 2);
        ctx.set(0, 0, 'X', Style::new());
        ctx.text(1, 1, "hello world", Style::new());
    }
    assert_eq!(buf.cell(2, 1).unwrap().symbol(), 'X');
    // Text is cut at the canvas edge: columns 3..7 of row 2.
    assert_eq!(row(&buf, 2), "   hell   ");
}

#[test]
fn out_of_bounds_writes_are_silent() {
    let viewport = Rect::new(0, 0, 10, 3);
    let mut buf = Buffer::empty(viewport);
    {
        let mut ctx = RenderContext::new(&mut buf, 0, 0, 5, 2, viewport);
        ctx.set(100, 100, 'X', Style::new());
        ctx.text(50, 0, "oversized", Style::new());
        ctx.rect(0, 10, 999, 999, Style::new().bg(Color::Rgb(255, 255, 0)));
    }
    assert_eq!(row(&buf, 0), "          ");
    assert_eq!(row(&buf, 2), "          ");
}

#[test]
fn fill_covers_the_canvas_and_clear_resets_it() {
    let viewport = Rect::new(0, 0, 4, 2);
    let mut buf = Buffer::empty(viewport);
    let yellow = Style::new().bg(Color::Rgb(255, 255, 0));
    {
        let mut ctx = RenderContext::new(&mut buf, 1, 0, 2, 1, viewport);
        ctx.fill(yellow);
    }
    assert_eq!(buf.cell(1, 0).unwrap().style, yellow);
    assert_eq!(buf.cell(2, 0).unwrap().style, yellow);
    assert_eq!(buf.cell(0, 0).unwrap().style, Style::new());
    assert_eq!(buf.cell(3, 0).unwrap().style, Style::new());
    {
        let mut ctx = RenderContext::new(&mut buf, 1, 0, 2, 1, viewport);
        ctx.clear();
    }
    assert_eq!(buf.cell(1, 0).unwrap().style, Style::new());
}

#[test]
fn sub_context_is_offset_and_clipped() {
    let viewport = Rect::new(0, 0, 10, 2);
    let mut buf = Buffer::empty(viewport);
    {
        let mut ctx = RenderContext::new(&mut buf, 0, 0, 10, 2, viewport);
        let mut inner = ctx.sub(3, 0, 2, 1);
        inner.text(0, 0, "abcdef", Style::new());
    }
    assert_eq!(row(&buf, 0), "   ab     ");
}

/// A `w`x`h` canvas at the origin of a buffer over `viewport`, painted
/// by `paint` as the paint pass runs a canvas's callback.
fn painted(w: u16, h: u16, viewport: Rect, paint: impl FnOnce(&mut RenderContext)) -> Buffer {
    let mut buf = Buffer::empty(viewport);
    let clip = Rect::new(0, 0, w.min(viewport.width), h.min(viewport.height));
    let mut ctx = RenderContext::new(&mut buf, 0, 0, w, h, clip);
    paint(&mut ctx);
    buf
}

#[test]
fn paint_callback_can_fill_canvas_with_bg_style() {
    let buf = painted(5, 2, Rect::new(0, 0, 10, 3), |ctx| ctx.fill(Style::new().bg(Color::Rgb(255, 0, 0))));
    assert_eq!(buf.cell(0, 0).unwrap().style.bg, Color::Rgb(255, 0, 0));
}

#[test]
fn paint_callback_writes_text_at_canvas_local_coords() {
    let buf = painted(20, 2, Rect::new(0, 0, 20, 2), |ctx| ctx.text(2, 0, "hello", Style::new()));
    assert_eq!(row(&buf, 0).trim_end(), "  hello");
}

#[test]
fn render_context_reports_canvas_dimensions() {
    let mut sizes = (0u16, 0u16);
    painted(7, 3, Rect::new(0, 0, 20, 5), |ctx| sizes = (ctx.width(), ctx.height()));
    assert_eq!(sizes, (7, 3));
}

#[test]
fn rect_fills_only_within_canvas_bounds() {
    let yellow = Color::Rgb(255, 255, 0);
    let buf = painted(4, 2, Rect::new(0, 0, 10, 4), |ctx| ctx.rect(0, 0, 10, 10, Style::new().bg(yellow)));
    for y in 0..2 {
        for x in 0..4 {
            assert_eq!(buf.cell(x, y).unwrap().style.bg, yellow);
        }
    }
    assert_eq!(buf.cell(5, 0).unwrap().style.bg, Color::Reset);
    assert_eq!(buf.cell(0, 3).unwrap().style.bg, Color::Reset);
}

#[test]
fn set_writes_single_cell_character() {
    let buf = painted(5, 1, Rect::new(0, 0, 5, 1), |ctx| ctx.set(2, 0, '★', Style::new().fg(Color::Rgb(255, 255, 0))));
    assert_eq!(buf.cell(2, 0).unwrap().symbol(), '\u{2605}');
}

#[test]
fn sub_context_exposes_slice_at_local_origin() {
    let buf = painted(10, 4, Rect::new(0, 0, 10, 4), |ctx| {
        let mut sub = ctx.sub(3, 1, 5, 2);
        assert_eq!(sub.width(), 5);
        assert_eq!(sub.height(), 2);
        sub.set(0, 0, 'X', Style::new());
    });
    assert_eq!(buf.cell(3, 1).unwrap().symbol(), 'X');
}

#[test]
fn sub_context_clamps_oversized_rect_to_parent_bounds() {
    painted(5, 2, Rect::new(0, 0, 10, 3), |ctx| {
        let sub = ctx.sub(0, 0, 100, 100);
        assert_eq!(sub.width(), 5);
        assert_eq!(sub.height(), 2);
    });
}

#[test]
fn text_stops_at_the_canvas_edge_and_the_clip() {
    let viewport = Rect::new(0, 0, 10, 2);
    let mut buf = Buffer::empty(viewport);
    {
        let mut ctx = RenderContext::new(&mut buf, 2, 0, 4, 2, viewport);
        ctx.text(1, 0, "wxyz", Style::new());
    }
    assert_eq!(row(&buf, 0), "   wxy    ");
    let mut buf = Buffer::empty(viewport);
    {
        let mut ctx = RenderContext::new(&mut buf, 0, 0, 10, 2, Rect::new(0, 0, 5, 1));
        ctx.text(3, 0, "abc", Style::new());
        ctx.text(0, 1, "abc", Style::new());
    }
    assert_eq!(row(&buf, 0), "   ab     ");
    assert_eq!(row(&buf, 1), "          ");
}
