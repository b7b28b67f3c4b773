//! What holds of the canvas around the grid: margin, background, rounded corners and the
//! window bar.
use vstd::prelude::*;

use crate::recording;
use crate::recording::RawFrame;
use crate::render_gif::canvas;
use crate::render_gif::palette;
use crate::render_gif::palette::TRANSPARENT_COLOR_INDEX;
use crate::render_gif::pixels;
use crate::render_gif::raster;
use crate::render_gif::raster::RasterSetup;
use crate::render_gif::stamp::GlyphBlit;
use crate::render_gif::stream;
use crate::render_gif::view;
use crate::render_svg::layout;
use crate::viewport::CanvasLayout;

verus! {

/// Whether a pixel lies within a frame.
pub open spec fn within_frame(x: int, y: int, l: CanvasLayout) -> bool {
    l.frame_x <= x < l.frame_x + l.frame_w && l.frame_y <= y < l.frame_y + l.frame_h
}

/// Whether a pixel is cut off by one of the rounded corners of a frame: it lies in the
/// square of the corner, and farther from its centre than the radius.
pub open spec fn cut_off(x: int, y: int, l: CanvasLayout, radius: int) -> bool {
    let (left, right) = (l.frame_x + radius, l.frame_x + l.frame_w - 1 - radius);
    let (top, bottom) = (l.frame_y + radius, l.frame_y + l.frame_h - 1 - radius);
    let far = |cx: int, cy: int|
        pixels::square(x - cx) + pixels::square(y - cy) > pixels::square(radius);
    ||| x < left && y < top && far(left, top)
    ||| x > right && y < top && x >= left && far(right, top)
    ||| x < left && y > bottom && y >= top && far(left, bottom)
    ||| x > right && y > bottom && x >= left && y >= top && far(right, bottom)
}

/// The radius of the corners of a frame: as asked for, but at most half of each side.
pub open spec fn is_radius(r: u32, asked: u32, l: CanvasLayout) -> bool {
    &&& r <= asked && 2 * r <= l.frame_w && 2 * r <= l.frame_h
    &&& r == asked || 2 * r + 1 >= l.frame_w || 2 * r + 1 >= l.frame_h
}

/// The corners of a frame are rounded: what lies within them is what no corner cuts off,
/// and their radius is the one that is asked for, as far as there is room.
pub proof fn lemma_corners(x: int, y: int, l: CanvasLayout, asked: u32)
    requires
        within_frame(x, y, l),
    ensures
        is_radius(canvas::corner_radius(l, asked), asked, l),
        ({
            let r = canvas::corner_radius(l, asked) as int;
            canvas::inside_rounded(x, y, l, r) == !cut_off(x, y, l, r)
        }),
{
    let r = canvas::corner_radius(l, asked) as int;
    let left = l.frame_x + r;
    let right = l.frame_x + l.frame_w - 1 - r;
    let top = l.frame_y + r;
    let bottom = l.frame_y + l.frame_h - 1 - r;
    assert(pixels::square(left - x) == pixels::square(x - left)) by (nonlinear_arith);
    assert(pixels::square(top - y) == pixels::square(y - top)) by (nonlinear_arith);
}

/// The first picture starts with the margin all over the canvas, and the background of
/// the terminal in the frame.
pub proof fn lemma_first_ground(setup: RasterSetup, f: RawFrame, buf: Seq<u8>, x: int, y: int)
    requires
        canvas::nested(setup.layout),
        buf.len() == setup.layout.canvas_w * setup.layout.canvas_h,
        0 <= x < setup.layout.canvas_w,
        0 <= y < setup.layout.canvas_h,
    ensures
        ({
            let idx = raster::prepared(setup, f, None, buf)[canvas::at(
                x,
                y,
                setup.layout.canvas_w as int,
            )];
            &&& within_frame(x, y, setup.layout) ==> pixels::stands_for(
                idx,
                f.default_bg,
                setup.colors@,
            )
            &&& !within_frame(x, y, setup.layout) ==> pixels::stands_for(
                idx,
                setup.cfg.frame_style.margin_fill,
                setup.colors@,
            )
        }),
{
    let l = setup.layout;
    let (w, h) = (l.canvas_w as int, l.canvas_h as int);
    let len = buf.len() as int;
    pixels::lemma_stands_for(f.default_bg, setup.colors@);
    pixels::lemma_stands_for(setup.cfg.frame_style.margin_fill, setup.colors@);
    canvas::lemma_on_canvas(x, y, w, h);
    lemma_row_end(0, y, w, w, h);
    view::lemma_in_rows(len, w, 0, 0, w, h, x, y);
    lemma_row_end(l.frame_x as int, y, l.frame_w as int, w, h);
    view::lemma_in_rows(
        len,
        w,
        l.frame_x as int,
        l.frame_y as int,
        l.frame_w as int,
        l.frame_y + l.frame_h,
        x,
        y,
    );
}

/// A stretch of a row lies on the canvas whole.
proof fn lemma_row_end(x: int, y: int, width: int, w: int, h: int)
    requires
        0 <= x,
        0 <= width,
        x + width <= w,
        0 <= y < h,
    ensures
        canvas::at(x, y, w) + width <= w * h,
{
    assert(y * w + x + width <= w * h) by (nonlinear_arith)
        requires
            0 <= x,
            0 <= width,
            x + width <= w,
            0 <= y < h,
    ;
}

/// Whether a pixel lies around the mouse of a frame.
pub open spec fn around_mouse(setup: RasterSetup, f: RawFrame, x: int, y: int) -> bool {
    f.mouse_cursor matches Some(m) && -48 <= x - setup.mouse_x(m) <= 48 && -48 <= y
        - setup.mouse_y(m) <= 48
}

/// Whether the mouse of a frame, if it has one, is not off the canvas to the left or above.
pub open spec fn mouse_inside(setup: RasterSetup, f: RawFrame) -> bool {
    f.mouse_cursor matches Some(m) ==> 0 <= setup.mouse_x(m) && 0 <= setup.mouse_y(m)
}

/// Where the mouse is or was, the canvas of a later picture starts with what lies under
/// it: the margin outside of the frame and of its corners, the background within it. It
/// is left open in the grid, and where the mouse neither is nor was.
pub proof fn lemma_later_ground(
    setup: RasterSetup,
    f: RawFrame,
    prev: RawFrame,
    x: int,
    y: int,
)
    requires
        canvas::nested(setup.layout),
        mouse_inside(setup, f),
        mouse_inside(setup, prev),
        0 <= x < setup.layout.canvas_w,
        0 <= y < setup.layout.canvas_h,
    ensures
        ({
            let l = setup.layout;
            let r = canvas::corner_radius(l, setup.cfg.frame_style.border_radius_px) as int;
            let idx = raster::prepared(setup, f, Some(&prev), stream::blank(setup))[canvas::at(
                x,
                y,
                l.canvas_w as int,
            )];
            let touched = around_mouse(setup, f, x, y) || around_mouse(setup, prev, x, y);
            let framed = within_frame(x, y, l) && !cut_off(x, y, l, r);
            let in_grid = l.content_x <= x < l.content_x + f.cols * setup.cell_w() && l.content_y
                <= y < l.content_y + f.rows * setup.cell_h();
            &&& !touched ==> idx == TRANSPARENT_COLOR_INDEX
            &&& touched && !framed ==> pixels::stands_for(
                idx,
                setup.cfg.frame_style.margin_fill,
                setup.colors@,
            )
            &&& touched && framed && !in_grid ==> pixels::stands_for(
                idx,
                f.default_bg,
                setup.colors@,
            )
            &&& framed && in_grid ==> idx == TRANSPARENT_COLOR_INDEX
        }),
{
    let l = setup.layout;
    let w = l.canvas_w as int;
    let buf = stream::blank(setup);
    assert(0 <= l.canvas_w * l.canvas_h) by (nonlinear_arith);
    canvas::lemma_on_canvas(x, y, w, l.canvas_h as int);
    canvas::lemma_at(x, y, w);
    pixels::lemma_stands_for(f.default_bg, setup.colors@);
    pixels::lemma_stands_for(setup.cfg.frame_style.margin_fill, setup.colors@);
    if within_frame(x, y, l) {
        lemma_corners(x, y, l, setup.cfg.frame_style.border_radius_px);
    }
    let one = raster::restored(setup, f, buf, f.mouse_cursor);
    assert(one.len() == buf.len());
}

/// The window bar is drawn anew whenever it may not look as it did: its title changed, or
/// the mouse is, or was, near enough to lie over it.
pub proof fn lemma_bar_redrawn(setup: RasterSetup, f: RawFrame, prev: RawFrame)
    ensures
        raster::bar_changed(setup, f, None),
        setup.title is None && recording::opt_text(f.title) != recording::opt_text(prev.title)
            ==> raster::bar_changed(setup, f, Some(&prev)),
        f.mouse_cursor matches Some(m) ==> (setup.mouse_y(m) < setup.layout.frame_y
            + setup.layout.bar_h + 48 ==> raster::bar_changed(setup, f, Some(&prev))),
        prev.mouse_cursor matches Some(m) ==> (setup.mouse_y(m) < setup.layout.frame_y
            + setup.layout.bar_h + 48 ==> raster::bar_changed(setup, f, Some(&prev))),
{
}

/// Whether a pixel lies on dot `k` of the window bar.
pub open spec fn on_dot(setup: RasterSetup, k: int, x: int, y: int) -> bool {
    let c = layout::bar_circles(setup.layout, setup.cfg.frame_style.window_bar)[k];
    pixels::square(x - c.cx) + pixels::square(y - c.cy) <= pixels::square(c.r as int)
}

proof fn lemma_disc(w: int, cx: int, cy: int, r: int, x: int, y: int)
    requires
        0 <= x < w,
        0 <= y,
        0 <= r,
        r <= cx,
        cx + r < w,
    ensures
        canvas::in_disc(w, cx, cy, r, canvas::at(x, y, w)) == (pixels::square(x - cx)
            + pixels::square(y - cy) <= pixels::square(r)),
{
    let i = canvas::at(x, y, w);
    if canvas::in_disc(w, cx, cy, r, i) {
        let (a, b) = choose|a: int, b: int|
            0 <= a && 0 <= b && cx - r <= a <= cx + r && cy - r <= b <= cy + r && (a - cx) * (a
                - cx) + (b - cy) * (b - cy) <= r * r && #[trigger] canvas::at(a, b, w) == i;
        assert(b == y && a == x) by (nonlinear_arith)
            requires
                b * w + a == y * w + x,
                0 <= a < w,
                0 <= x < w,
        ;
    }
    if pixels::square(x - cx) + pixels::square(y - cy) <= pixels::square(r) {
        let (dx, dy) = (x - cx, y - cy);
        assert(-r <= dx <= r && -r <= dy <= r) by (nonlinear_arith)
            requires
                dx * dx + dy * dy <= r * r,
                0 <= r,
        ;
        assert(canvas::at(x, y, w) == i);
    }
}

/// Whether the dots of the window bar lie on the canvas.
pub open spec fn dots_on_canvas(setup: RasterSetup) -> bool {
    let dots = layout::bar_circles(setup.layout, setup.cfg.frame_style.window_bar);
    forall|k: int|
        0 <= k < 3 ==> (#[trigger] dots[k]).r <= dots[k].cx && dots[k].cx + dots[k].r
            < setup.layout.canvas_w
}

proof fn lemma_dotted(setup: RasterSetup, buf: Seq<u8>, n: int, x: int, y: int)
    requires
        0 <= n <= 3,
        setup.cfg.frame_style.window_bar.spec_enabled(),
        dots_on_canvas(setup),
        0 <= x < setup.layout.canvas_w,
        0 <= y,
        canvas::at(x, y, setup.layout.canvas_w as int) < buf.len(),
    ensures
        ({
            let i = canvas::at(x, y, setup.layout.canvas_w as int);
            let dots = layout::bar_circles(setup.layout, setup.cfg.frame_style.window_bar);
            let v = raster::dotted(setup, buf, n);
            &&& v.len() == buf.len()
            &&& (forall|k: int| 0 <= k < n ==> !#[trigger] on_dot(setup, k, x, y)) ==> v[i]
                == buf[i]
            &&& forall|k: int|
                0 <= k < n && #[trigger] on_dot(setup, k, x, y) && (forall|j: int|
                    k < j < n ==> !#[trigger] on_dot(setup, j, x, y)) ==> v[i]
                    == palette::closest(dots[k].fill->0, setup.colors@)
        }),
    decreases n,
{
    if n > 0 {
        lemma_dotted(setup, buf, n - 1, x, y);
        let dots = layout::bar_circles(setup.layout, setup.cfg.frame_style.window_bar);
        let c = dots[n - 1];
        canvas::lemma_at(x, y, setup.layout.canvas_w as int);
        lemma_disc(
            setup.layout.canvas_w as int,
            c.cx as int,
            c.cy as int,
            c.r as int,
            x,
            y,
        );
        let i = canvas::at(x, y, setup.layout.canvas_w as int);
        let v = raster::dotted(setup, buf, n);
        let before = raster::dotted(setup, buf, n - 1);
        assert(on_dot(setup, n - 1, x, y) ==> v[i] == palette::closest(
            c.fill->0,
            setup.colors@,
        ));
        assert(!on_dot(setup, n - 1, x, y) ==> v[i] == before[i]);
        assert forall|k: int|
            0 <= k < n && #[trigger] on_dot(setup, k, x, y) && (forall|j: int|
                k < j < n ==> !#[trigger] on_dot(setup, j, x, y)) implies v[i] == palette::closest(
            dots[k].fill->0,
            setup.colors@,
        ) by {
            if k < n - 1 {
                assert(!on_dot(setup, n - 1, x, y));
                assert forall|j: int| k < j < n - 1 implies !#[trigger] on_dot(setup, j, x, y) by {}
            }
        }
    }
}

/// The window bar has the background of the terminal, the colours of its dots on them,
/// and the grey of the title where a letter of the title covers it wholly.
pub proof fn lemma_bar_pixel(
    setup: RasterSetup,
    f: RawFrame,
    title: Seq<GlyphBlit>,
    earlier: Option<Seq<u8>>,
    buf: Seq<u8>,
    x: int,
    y: int,
)
    requires
        canvas::nested(setup.layout),
        setup.cfg.frame_style.window_bar.spec_enabled(),
        dots_on_canvas(setup),
        raster::glyphs_fit(title),
        buf.len() == setup.layout.canvas_w * setup.layout.canvas_h,
        setup.layout.bar_h <= setup.layout.frame_h,
        setup.layout.frame_x <= x < setup.layout.frame_x + setup.layout.frame_w,
        setup.layout.frame_y <= y < setup.layout.frame_y + setup.layout.bar_h,
    ensures
        ({
            let l = setup.layout;
            let dots = layout::bar_circles(l, setup.cfg.frame_style.window_bar);
            let idx = raster::barred(setup, f, title, earlier, buf)[canvas::at(
                x,
                y,
                l.canvas_w as int,
            )];
            let clear = forall|k: int| 0 <= k < 3 ==> !#[trigger] on_dot(setup, k, x, y);
            let words = match setup.title {
                Some(t) => t@,
                None => match f.title {
                    Some(t) => t@,
                    None => Seq::empty(),
                },
            };
            &&& words.len() > 0 && pixels::covered(title, x, y) ==> pixels::stands_for(
                idx,
                [142u8, 142u8, 147u8],
                setup.colors@,
            )
            &&& words.len() == 0 || pixels::uncovered(title, x, y) ==> {
                &&& clear ==> pixels::stands_for(idx, f.default_bg, setup.colors@)
                &&& forall|k: int|
                    0 <= k < 3 && #[trigger] on_dot(setup, k, x, y) && (forall|j: int|
                        k < j < 3 ==> !#[trigger] on_dot(setup, j, x, y)) ==> pixels::stands_for(
                        idx,
                        dots[k].fill->0,
                        setup.colors@,
                    )
            }
        }),
{
    let l = setup.layout;
    let (w, h) = (l.canvas_w as int, l.canvas_h as int);
    let len = buf.len() as int;
    let i = canvas::at(x, y, w);
    canvas::lemma_on_canvas(x, y, w, h);
    lemma_row_end(l.frame_x as int, y, l.frame_w as int, w, h);
    view::lemma_in_rows(
        len,
        w,
        l.frame_x as int,
        l.frame_y as int,
        l.frame_w as int,
        l.frame_y + l.bar_h,
        x,
        y,
    );
    let blank = canvas::filled_rect(
        buf,
        l.canvas_w,
        l.frame_x,
        l.frame_y,
        l.frame_w,
        l.bar_h,
        palette::closest(f.default_bg, setup.colors@),
    );
    assert(blank[i] == palette::closest(f.default_bg, setup.colors@));
    lemma_dotted(setup, blank, 3, x, y);
    let dots = raster::dotted(setup, blank, 3);
    let p = setup.paint(earlier, f.default_bg);
    let n = title.len() as int;
    let color = raster::TITLE_COLOR;
    if pixels::covered(title, x, y) {
        pixels::lemma_glyphs_covered(dots, p, title, color, x, y);
    }
    if pixels::uncovered(title, x, y) {
        view::lemma_lettered_clear(dots, p, title, color, n, x, y);
    }
    pixels::lemma_stands_for(f.default_bg, setup.colors@);
    assert(color =~= [142u8, 142u8, 147u8]);
    pixels::lemma_stands_for(color, setup.colors@);
    let circles = layout::bar_circles(l, setup.cfg.frame_style.window_bar);
    pixels::lemma_stands_for(circles[0].fill->0, setup.colors@);
    pixels::lemma_stands_for(circles[1].fill->0, setup.colors@);
    pixels::lemma_stands_for(circles[2].fill->0, setup.colors@);
    assert forall|k: int|
        0 <= k < 3 && #[trigger] on_dot(setup, k, x, y) && (forall|j: int|
            k < j < 3 ==> !#[trigger] on_dot(setup, j, x, y)) implies dots[i] == palette::closest(
        circles[k].fill->0,
        setup.colors@,
    ) && pixels::stands_for(dots[i], circles[k].fill->0, setup.colors@) by {
        assert(k == 0 || k == 1 || k == 2);
    }
}

} // verus!
