//! Drawing a frame of the terminal in palette indices. Of a frame that follows
//! another, only what changed is drawn.
use vstd::prelude::*;
use vstd::string::*;

use crate::recording;
use crate::recording::{same_cell, same_title, CellSnap, MouseState, RawFrame};
use crate::render_gif::canvas;
use crate::render_gif::canvas::{
    fill_circle_idx, fill_rect_idx, inside_rounded_rect, limit_radius,
    mask_outside_rounded_rect_idx,
};
use crate::render_gif::palette;
use crate::render_gif::palette::{find_closest_color, COLORS};
use crate::render_gif::stamp;
use crate::render_gif::stamp::{draw_arrow, draw_circle_idx, draw_glyph, GlyphBlit, Paint};
use crate::render_svg::cells;
use crate::render_svg::cells::effective_colors;
use crate::render_svg::elements::WindowBarCircle;
use crate::render_svg::layout;
use crate::render_svg::layout::build_bar_circles;
use crate::render_svg::tracks;
use crate::render_svg::tracks::{middle, PIXEL_LIMIT};
use crate::single::{Measure, ONE};
use crate::style::Rgb;
use crate::style_flags;
use crate::viewport::{CanvasLayout, ViewportConfig};

verus! {

/// How far around the mouse its ripple may reach.
pub const MOUSE_RIPPLE_MAX_RADIUS: i32 = 48;

/// Colour of the title.
pub const TITLE_COLOR: [u8; 3] = [142, 142, 147];

/// What all frames of a picture have in common.
#[derive(Debug, Clone)]
pub struct RasterSetup {
    pub cfg: ViewportConfig,
    pub layout: CanvasLayout,
    pub colors: Vec<Rgb>,
    /// A title in place of the frames' own.
    pub title: Option<String>,
}

/// The glyphs of a frame: those of each cell and those of the title.
#[derive(Debug, Clone)]
pub struct GlyphSheet {
    pub cells: Vec<Vec<GlyphBlit>>,
    pub title: Vec<GlyphBlit>,
}

/// `v` without its fraction.
pub open spec fn truncated(v: int) -> int {
    if v >= 0 {
        v / (ONE as int)
    } else {
        -((-v) / (ONE as int))
    }
}

/// The pixel under the tip of the mouse along one side.
pub open spec fn mouse_pixel(origin: u32, at: Measure, side: u32) -> int {
    truncated(tracks::cell_middle(origin, at, side))
}

fn mouse_px(origin: u32, at: Measure, side: u32) -> (r: i32)
    requires
        tracks::middle_fits(origin, at, side),
        side > 0,
    ensures
        r == mouse_pixel(origin, at, side),
        -0x400_0000 <= r <= 0x400_0000,
{
    let v: Measure = middle(origin, at, side);
    if v >= 0 {
        (v / ONE) as i32
    } else {
        -(((-v) / ONE) as i32)
    }
}

impl RasterSetup {
    pub open spec fn cell_w(&self) -> u32 {
        self.cfg.cell_w()
    }

    pub open spec fn cell_h(&self) -> u32 {
        self.cfg.cell_h()
    }

    pub open spec fn mouse_x(&self, m: (Measure, Measure, MouseState)) -> int {
        mouse_pixel(self.layout.content_x, m.0, self.cell_w())
    }

    pub open spec fn mouse_y(&self, m: (Measure, Measure, MouseState)) -> int {
        mouse_pixel(self.layout.content_y, m.1, self.cell_h())
    }

    pub open spec fn mouse_fits(&self, m: Option<(Measure, Measure, MouseState)>) -> bool {
        m matches Some(v) ==> tracks::middle_fits(self.layout.content_x, v.0, self.cell_w())
            && tracks::middle_fits(self.layout.content_y, v.1, self.cell_h())
    }

    /// The size of the canvas, the colours and what shows through it.
    pub open spec fn paint(&self, earlier: Option<Seq<u8>>, default_bg: Rgb) -> Paint {
        Paint {
            w: self.layout.canvas_w,
            h: self.layout.canvas_h,
            colors: self.colors@,
            earlier,
            default_bg,
        }
    }

    /// Whether every place on the canvas can be computed.
    pub open spec fn fits(&self) -> bool {
        let l = self.layout;
        &&& canvas::nested(l)
        &&& layout::canvas_fits(l)
        &&& self.cell_w() <= PIXEL_LIMIT
        &&& self.cell_h() <= PIXEL_LIMIT
        &&& self.colors@.len() == COLORS
        &&& l.dot_radius <= 0xffff
        &&& (l.frame_y + l.bar_h + l.dot_radius + 1) * l.canvas_w + l.frame_x + l.frame_w + 6
            * l.dot_radius + 3 * l.dot_gap + 1 < u32::MAX
    }

    /// Whether the cells of the frame lie where the canvas can be computed.
    pub open spec fn grid_fits(&self, f: &RawFrame) -> bool {
        let l = self.layout;
        &&& f.wf()
        &&& l.content_x + f.cols * self.cell_w() <= 0x4000_0000
        &&& l.content_y + f.rows * self.cell_h() <= 0x4000_0000
        &&& (l.content_y + f.rows * self.cell_h()) * l.canvas_w + l.content_x + f.cols
            * self.cell_w() <= u32::MAX
    }
}

/// The title shown for a frame.
pub open spec fn shown_title(custom: Option<String>, own: Option<String>) -> Option<Seq<char>> {
    if custom is Some {
        recording::opt_text(custom)
    } else {
        recording::opt_text(own)
    }
}

/// Whether a cell, or what lies over it, is not as it was.
pub open spec fn cell_changed(
    setup: RasterSetup,
    col: int,
    row: int,
    curr: RawFrame,
    prev: Option<&RawFrame>,
) -> bool {
    match prev {
        None => true,
        Some(p) => {
            ||| row * p.cols + col >= p.cells@.len()
            ||| curr.cell(col, row) != p.cell(col, row)
            ||| cursor_on(curr, col, row) != cursor_on(*p, col, row)
            ||| mouse_over(setup, col, row, curr.mouse_cursor)
            ||| mouse_over(setup, col, row, p.mouse_cursor)
        },
    }
}

pub open spec fn cursor_on(f: RawFrame, col: int, row: int) -> bool {
    f.cursor == Some((col as u16, row as u16))
}

/// Whether the mouse or its ripple may lie over a cell.
pub open spec fn mouse_over(
    setup: RasterSetup,
    col: int,
    row: int,
    mouse: Option<(Measure, Measure, MouseState)>,
) -> bool {
    match mouse {
        None => false,
        Some(m) => {
            let x = setup.layout.content_x + col * setup.cell_w();
            let y = setup.layout.content_y + row * setup.cell_h();
            &&& x < setup.mouse_x(m) + MOUSE_RIPPLE_MAX_RADIUS
            &&& x + setup.cell_w() > setup.mouse_x(m) - MOUSE_RIPPLE_MAX_RADIUS
            &&& y < setup.mouse_y(m) + MOUSE_RIPPLE_MAX_RADIUS
            &&& y + setup.cell_h() > setup.mouse_y(m) - MOUSE_RIPPLE_MAX_RADIUS
        },
    }
}

fn is_mouse_over(
    setup: &RasterSetup,
    col: u16,
    row: u16,
    mouse: Option<(Measure, Measure, MouseState)>,
) -> (r: bool)
    requires
        setup.fits(),
        setup.mouse_fits(mouse),
        setup.layout.content_x + col * setup.cell_w() <= 0x4000_0000,
        setup.layout.content_y + row * setup.cell_h() <= 0x4000_0000,
    ensures
        r == mouse_over(*setup, col as int, row as int, mouse),
{
    match mouse {
        None => false,
        Some(m) => {
            let w: u32 = setup.cfg.cell_width();
            let h: u32 = setup.cfg.cell_height();
            let cx: i64 = mouse_px(setup.layout.content_x, m.0, w) as i64;
            let cy: i64 = mouse_px(setup.layout.content_y, m.1, h) as i64;
            let reach: i64 = MOUSE_RIPPLE_MAX_RADIUS as i64;
            let x: i64 = setup.layout.content_x as i64 + col as i64 * w as i64;
            let y: i64 = setup.layout.content_y as i64 + row as i64 * h as i64;
            x < cx + reach && x + w as i64 > cx - reach && y < cy + reach && y + h as i64 > cy
                - reach
        },
    }
}

fn is_cursor_on(f: &RawFrame, col: u16, row: u16) -> (r: bool)
    ensures
        r == cursor_on(*f, col as int, row as int),
{
    match f.cursor {
        Some((c, w)) => c == col && w == row,
        None => false,
    }
}

/// Whether a cell, or what lies over it, is not as it was.
pub fn is_cell_changed(
    setup: &RasterSetup,
    col: u16,
    row: u16,
    curr: &RawFrame,
    prev: Option<&RawFrame>,
) -> (r: bool)
    requires
        setup.fits(),
        setup.grid_fits(curr),
        setup.mouse_fits(curr.mouse_cursor),
        prev matches Some(p) ==> setup.mouse_fits(p.mouse_cursor),
        col < curr.cols,
        row < curr.rows,
    ensures
        r == cell_changed(*setup, col as int, row as int, *curr, prev),
{
    proof {
        lemma_cell_place(*setup, *curr, col as int, row as int);
    }
    match prev {
        None => true,
        Some(p) => {
            let idx: usize = row as usize * curr.cols as usize + col as usize;
            assert(0 <= row * p.cols <= 0xffff * 0xffff) by (nonlinear_arith)
                requires
                    row <= 0xffff,
                    p.cols <= 0xffff,
            ;
            let prev_idx: usize = row as usize * p.cols as usize + col as usize;
            if prev_idx >= p.cells.len() {
                return true;
            }
            if !same_cell(&curr.cells[idx], &p.cells[prev_idx]) {
                return true;
            }
            if is_cursor_on(curr, col, row) != is_cursor_on(p, col, row) {
                return true;
            }
            is_mouse_over(setup, col, row, curr.mouse_cursor) || is_mouse_over(
                setup,
                col,
                row,
                p.mouse_cursor,
            )
        },
    }
}

/// A cell of the grid has its place in the list of cells, and lies within the
/// bounds of the grid.
proof fn lemma_cell_place(setup: RasterSetup, f: RawFrame, col: int, row: int)
    requires
        setup.grid_fits(&f),
        0 <= col < f.cols,
        0 <= row < f.rows,
    ensures
        0 <= row * f.cols + col < f.cells@.len(),
        row * f.cols <= 0xffff * 0xffff,
        0 <= row * f.cols,
        (col + 1) * setup.cell_w() <= f.cols * setup.cell_w(),
        (row + 1) * setup.cell_h() <= f.rows * setup.cell_h(),
        col * setup.cell_w() + setup.cell_w() == (col + 1) * setup.cell_w(),
        row * setup.cell_h() + setup.cell_h() == (row + 1) * setup.cell_h(),
        0 <= col * setup.cell_w(),
        0 <= row * setup.cell_h(),
{
    let w = setup.cell_w() as int;
    let h = setup.cell_h() as int;
    let cols = f.cols as int;
    let rows = f.rows as int;
    canvas::lemma_on_canvas(col, row, cols, rows);
    assert(row * cols <= 0xffff * 0xffff && 0 <= row * cols) by (nonlinear_arith)
        requires
            0 <= row <= 0xffff,
            0 <= cols <= 0xffff,
    ;
    assert((col + 1) * w <= cols * w && col * w + w == (col + 1) * w && 0 <= col * w)
        by (nonlinear_arith)
        requires
            0 <= col < cols,
            0 <= w,
    ;
    assert((row + 1) * h <= rows * h && row * h + h == (row + 1) * h && 0 <= row * h)
        by (nonlinear_arith)
        requires
            0 <= row < rows,
            0 <= h,
    ;
    assert(cols * rows == f.cols * f.rows);
}

/// Whether a pixel lies in the grid of the frame.
pub open spec fn in_cells(setup: RasterSetup, f: RawFrame, x: int, y: int) -> bool {
    let l = setup.layout;
    l.content_x <= x < l.content_x + f.cols * setup.cell_w() && l.content_y <= y < l.content_y
        + f.rows * setup.cell_h()
}

/// The first and the last pixel around the mouse along a side of `length` pixels.
pub open spec fn reach(at: int, length: u32) -> (int, int) {
    let low = at - MOUSE_RIPPLE_MAX_RADIUS;
    let high = at + MOUSE_RIPPLE_MAX_RADIUS;
    let top = if high <= length - 1 {
        high
    } else {
        length - 1
    };
    (if low >= 0 {
        low
    } else {
        0
    }, if top >= 0 {
        top
    } else {
        0
    })
}

/// What lies under the mouse where there are no cells: margin outside of the
/// frame, background inside.
pub open spec fn bare_pixel(
    setup: RasterSetup,
    f: RawFrame,
    x: int,
    y: int,
    here: u8,
) -> u8 {
    let l = setup.layout;
    if !canvas::in_frame(x, y, l) || !canvas::inside_rounded(
        x,
        y,
        l,
        canvas::corner_radius(l, setup.cfg.frame_style.border_radius_px) as int,
    ) {
        palette::closest(setup.cfg.frame_style.margin_fill, setup.colors@)
    } else if !in_cells(setup, f, x, y) {
        palette::closest(f.default_bg, setup.colors@)
    } else {
        here
    }
}

/// The canvas with margin and padding restored around the mouse.
pub open spec fn restored(
    setup: RasterSetup,
    f: RawFrame,
    buf: Seq<u8>,
    mouse: Option<(Measure, Measure, MouseState)>,
) -> Seq<u8> {
    match mouse {
        None => buf,
        Some(m) => {
            let w = setup.layout.canvas_w as int;
            let xs = reach(setup.mouse_x(m), setup.layout.canvas_w);
            let ys = reach(setup.mouse_y(m), setup.layout.canvas_h);
            Seq::new(
                buf.len(),
                |i: int|
                    if xs.0 <= i % w <= xs.1 && ys.0 <= i / w <= ys.1 {
                        bare_pixel(setup, f, i % w, i / w, buf[i])
                    } else {
                        buf[i]
                    },
            )
        },
    }
}

fn bare(
    setup: &RasterSetup,
    f: &RawFrame,
    radius: u32,
    margin_idx: u8,
    bg_idx: u8,
    x: u32,
    y: u32,
    here: u8,
) -> (r: u8)
    requires
        setup.fits(),
        setup.grid_fits(f),
        radius == canvas::corner_radius(setup.layout, setup.cfg.frame_style.border_radius_px),
        margin_idx == palette::closest(setup.cfg.frame_style.margin_fill, setup.colors@),
        bg_idx == palette::closest(f.default_bg, setup.colors@),
    ensures
        r == bare_pixel(*setup, *f, x as int, y as int, here),
{
    let l: &CanvasLayout = &setup.layout;
    let in_frame: bool = x >= l.frame_x && x < l.frame_x + l.frame_w && y >= l.frame_y && y
        < l.frame_y + l.frame_h;
    if !in_frame || !inside_rounded_rect(x, y, l, radius) {
        return margin_idx;
    }
    let right: u64 = l.content_x as u64 + f.cols as u64 * setup.cfg.cell_width() as u64;
    let bottom: u64 = l.content_y as u64 + f.rows as u64 * setup.cfg.cell_height() as u64;
    if x >= l.content_x && (x as u64) < right && y >= l.content_y && (y as u64) < bottom {
        here
    } else {
        bg_idx
    }
}

fn clamp_reach(at: i32, length: u32) -> (r: (u32, u32))
    requires
        -0x400_0000 <= at <= 0x400_0000,
        0 < length <= i32::MAX,
    ensures
        (r.0 as int, r.1 as int) == reach(at as int, length),
        r.1 < length,
{
    let low: i32 = at - MOUSE_RIPPLE_MAX_RADIUS;
    let high: i32 = at + MOUSE_RIPPLE_MAX_RADIUS;
    let top: i32 = if high <= length as i32 - 1 {
        high
    } else {
        length as i32 - 1
    };
    (if low >= 0 {
        low as u32
    } else {
        0
    }, if top >= 0 {
        top as u32
    } else {
        0
    })
}

/// Restore margin and padding around the mouse.
fn restore(
    setup: &RasterSetup,
    f: &RawFrame,
    buf: &mut Vec<u8>,
    mouse: Option<(Measure, Measure, MouseState)>,
)
    requires
        setup.fits(),
        setup.grid_fits(f),
        setup.mouse_fits(mouse),
        old(buf)@.len() == setup.layout.canvas_w * setup.layout.canvas_h,
    ensures
        final(buf)@ == restored(*setup, *f, old(buf)@, mouse),
{
    match mouse {
        None => {},
        Some(m) => {
            let ghost before = buf@;
            let ghost all = restored(*setup, *f, before, mouse);
            let l: &CanvasLayout = &setup.layout;
            let width: u32 = l.canvas_w;
            let ghost w = width as int;
            let ghost h = l.canvas_h as int;
            let cx: i32 = mouse_px(l.content_x, m.0, setup.cfg.cell_width());
            let cy: i32 = mouse_px(l.content_y, m.1, setup.cfg.cell_height());
            let xs: (u32, u32) = clamp_reach(cx, l.canvas_w);
            let ys: (u32, u32) = clamp_reach(cy, l.canvas_h);
            let radius: u32 = limit_radius(l, setup.cfg.frame_style.border_radius_px);
            let margin_idx: u8 = find_closest_color(
                setup.cfg.frame_style.margin_fill,
                &setup.colors,
            );
            let bg_idx: u8 = find_closest_color(f.default_bg, &setup.colors);
            let mut y: u32 = ys.0;
            while y <= ys.1
                invariant
                    setup.fits(),
                    setup.grid_fits(f),
                    mouse == Some(m),
                    *l == setup.layout,
                    width == l.canvas_w,
                    w == width,
                    h == l.canvas_h,
                    (xs.0 as int, xs.1 as int) == reach(setup.mouse_x(m), l.canvas_w),
                    (ys.0 as int, ys.1 as int) == reach(setup.mouse_y(m), l.canvas_h),
                    xs.1 < w,
                    ys.1 < h,
                    ys.0 <= y,
                    radius == canvas::corner_radius(
                        setup.layout,
                        setup.cfg.frame_style.border_radius_px,
                    ),
                    margin_idx == palette::closest(
                        setup.cfg.frame_style.margin_fill,
                        setup.colors@,
                    ),
                    bg_idx == palette::closest(f.default_bg, setup.colors@),
                    all == restored(*setup, *f, before, mouse),
                    before.len() == w * h,
                    buf@.len() == before.len(),
                    forall|i: int|
                        0 <= i < before.len() ==> #[trigger] buf@[i] == (if i / w < y {
                            all[i]
                        } else {
                            before[i]
                        }),
                decreases h - y,
            {
                let mut x: u32 = xs.0;
                while x <= xs.1
                    invariant
                        setup.fits(),
                        setup.grid_fits(f),
                        mouse == Some(m),
                        *l == setup.layout,
                        width == l.canvas_w,
                        w == width,
                        h == l.canvas_h,
                        (xs.0 as int, xs.1 as int) == reach(setup.mouse_x(m), l.canvas_w),
                        (ys.0 as int, ys.1 as int) == reach(setup.mouse_y(m), l.canvas_h),
                        xs.1 < w,
                        ys.1 < h,
                        ys.0 <= y <= ys.1,
                        xs.0 <= x,
                        radius == canvas::corner_radius(
                            setup.layout,
                            setup.cfg.frame_style.border_radius_px,
                        ),
                        margin_idx == palette::closest(
                            setup.cfg.frame_style.margin_fill,
                            setup.colors@,
                        ),
                        bg_idx == palette::closest(f.default_bg, setup.colors@),
                        all == restored(*setup, *f, before, mouse),
                        before.len() == w * h,
                        buf@.len() == before.len(),
                        forall|i: int|
                            0 <= i < before.len() ==> #[trigger] buf@[i] == (if i / w < y || (i / w
                                == y && i % w < x) {
                                all[i]
                            } else {
                                before[i]
                            }),
                    decreases w - x,
                {
                    proof {
                        canvas::lemma_on_canvas(x as int, y as int, w, h);
                        assert(0 <= y * width <= w * h) by (nonlinear_arith)
                            requires
                                0 <= y < h,
                                w == width,
                                0 < w,
                        ;
                    }
                    let ghost prior = buf@;
                    let i: usize = (y * width + x) as usize;
                    assert(i == canvas::at(x as int, y as int, w));
                    let v: u8 = bare(setup, f, radius, margin_idx, bg_idx, x, y, buf[i]);
                    buf[i] = v;
                    proof {
                        assert forall|k: int| 0 <= k < before.len() implies #[trigger] buf@[k] == (
                        if k / w < y || (k / w == y && k % w < x + 1) {
                            all[k]
                        } else {
                            before[k]
                        }) by {
                            canvas::lemma_place(k, w, h);
                            assert(prior[k] == (if k / w < y || (k / w == y && k % w < x) {
                                all[k]
                            } else {
                                before[k]
                            }));
                        }
                    }
                    x = x + 1;
                }
                proof {
                    assert forall|k: int| 0 <= k < before.len() implies #[trigger] buf@[k] == (if k
                        / w < y + 1 {
                        all[k]
                    } else {
                        before[k]
                    }) by {
                        canvas::lemma_place(k, w, h);
                    }
                }
                y = y + 1;
            }
            proof {
                assert forall|k: int| 0 <= k < before.len() implies buf@[k] == all[k] by {
                    canvas::lemma_place(k, w, h);
                }
            }
            assert(buf@ =~= all);
        },
    }
}

/// Whether the mouse may have left something on the window bar.
pub open spec fn mouse_on_bar(
    setup: RasterSetup,
    mouse: Option<(Measure, Measure, MouseState)>,
) -> bool {
    mouse matches Some(m) && setup.mouse_y(m) - MOUSE_RIPPLE_MAX_RADIUS < setup.layout.frame_y
        + setup.layout.bar_h
}

fn is_mouse_on_bar(
    setup: &RasterSetup,
    mouse: Option<(Measure, Measure, MouseState)>,
) -> (r: bool)
    requires
        setup.fits(),
        setup.mouse_fits(mouse),
    ensures
        r == mouse_on_bar(*setup, mouse),
{
    match mouse {
        None => false,
        Some(m) => {
            let cy: i32 = mouse_px(setup.layout.content_y, m.1, setup.cfg.cell_height());
            ((cy - MOUSE_RIPPLE_MAX_RADIUS) as i64) < setup.layout.frame_y as i64
                + setup.layout.bar_h as i64
        },
    }
}

pub open spec fn prev_mouse(prev: Option<&RawFrame>) -> Option<(Measure, Measure, MouseState)> {
    match prev {
        Some(p) => p.mouse_cursor,
        None => None,
    }
}

/// Whether the window bar is drawn anew.
pub open spec fn bar_changed(
    setup: RasterSetup,
    curr: RawFrame,
    prev: Option<&RawFrame>,
) -> bool {
    match prev {
        None => true,
        Some(p) => {
            ||| shown_title(setup.title, curr.title) != shown_title(setup.title, p.title)
            ||| mouse_on_bar(setup, curr.mouse_cursor)
            ||| mouse_on_bar(setup, p.mouse_cursor)
        },
    }
}

fn is_bar_changed(setup: &RasterSetup, curr: &RawFrame, prev: Option<&RawFrame>) -> (r: bool)
    requires
        setup.fits(),
        setup.mouse_fits(curr.mouse_cursor),
        setup.mouse_fits(prev_mouse(prev)),
    ensures
        r == bar_changed(*setup, *curr, prev),
{
    match prev {
        None => true,
        Some(p) => {
            let kept: bool = setup.title.is_some() || same_title(&curr.title, &p.title);
            !kept || is_mouse_on_bar(setup, curr.mouse_cursor) || is_mouse_on_bar(
                setup,
                p.mouse_cursor,
            )
        },
    }
}

/// The canvas with the first `n` dots of the window bar.
pub open spec fn dotted(setup: RasterSetup, buf: Seq<u8>, n: int) -> Seq<u8>
    decreases n,
{
    if n <= 0 {
        buf
    } else {
        let c = layout::bar_circles(setup.layout, setup.cfg.frame_style.window_bar)[n - 1];
        canvas::filled_circle(
            dotted(setup, buf, n - 1),
            setup.layout.canvas_w,
            c.cx,
            c.cy,
            c.r,
            palette::closest(c.fill->0, setup.colors@),
        )
    }
}

/// The canvas with the first `n` glyphs in `color`.
pub open spec fn lettered(
    buf: Seq<u8>,
    p: Paint,
    glyphs: Seq<GlyphBlit>,
    color: Rgb,
    n: int,
) -> Seq<u8>
    decreases n,
{
    if n <= 0 {
        buf
    } else {
        glyphs[n - 1].on(lettered(buf, p, glyphs, color, n - 1), p, color)
    }
}

/// Whether a title is shown.
pub open spec fn has_title(t: Option<Seq<char>>) -> bool {
    t matches Some(s) && s.len() > 0
}

/// The canvas with the window bar: dots and title.
pub open spec fn barred(
    setup: RasterSetup,
    curr: RawFrame,
    glyphs: Seq<GlyphBlit>,
    earlier: Option<Seq<u8>>,
    buf: Seq<u8>,
) -> Seq<u8> {
    let l = setup.layout;
    let blank = canvas::filled_rect(
        buf,
        l.canvas_w,
        l.frame_x,
        l.frame_y,
        l.frame_w,
        l.bar_h,
        palette::closest(curr.default_bg, setup.colors@),
    );
    let dots = dotted(setup, blank, 3);
    if has_title(shown_title(setup.title, curr.title)) {
        lettered(
            dots,
            setup.paint(earlier, curr.default_bg),
            glyphs,
            TITLE_COLOR,
            glyphs.len() as int,
        )
    } else {
        dots
    }
}

/// Whether all glyphs can be drawn.
pub open spec fn glyphs_fit(glyphs: Seq<GlyphBlit>) -> bool {
    forall|i: int| 0 <= i < glyphs.len() ==> (#[trigger] glyphs[i]).wf()
}

fn draw_glyphs(
    setup: &RasterSetup,
    buf: &mut Vec<u8>,
    earlier: Option<&Vec<u8>>,
    default_bg: Rgb,
    glyphs: &Vec<GlyphBlit>,
    color: Rgb,
)
    requires
        setup.fits(),
        glyphs_fit(glyphs@),
        old(buf)@.len() == setup.layout.canvas_w * setup.layout.canvas_h,
    ensures
        final(buf)@ == lettered(
            old(buf)@,
            setup.paint(canvas::opt_view(earlier), default_bg),
            glyphs@,
            color,
            glyphs@.len() as int,
        ),
        final(buf)@.len() == old(buf)@.len(),
{
    let ghost before = buf@;
    let ghost p = setup.paint(canvas::opt_view(earlier), default_bg);
    let mut i: usize = 0;
    while i < glyphs.len()
        invariant
            setup.fits(),
            glyphs_fit(glyphs@),
            p == setup.paint(canvas::opt_view(earlier), default_bg),
            i <= glyphs@.len(),
            before.len() == setup.layout.canvas_w * setup.layout.canvas_h,
            buf@.len() == before.len(),
            buf@ == lettered(before, p, glyphs@, color, i as int),
        decreases glyphs@.len() - i,
    {
        assert(glyphs@[i as int].wf());
        draw_glyph(
            buf,
            earlier,
            &setup.colors,
            setup.layout.canvas_w,
            setup.layout.canvas_h,
            default_bg,
            &glyphs[i],
            color,
        );
        i = i + 1;
    }
}

/// Draw the dots of the window bar.
pub fn draw_window_bar_idx(setup: &RasterSetup, buf: &mut Vec<u8>)
    requires
        setup.fits(),
        setup.cfg.frame_style.window_bar.spec_enabled(),
    ensures
        final(buf)@ == dotted(*setup, old(buf)@, 3),
        final(buf)@.len() == old(buf)@.len(),
{
    let ghost before = buf@;
    let circles: Vec<WindowBarCircle> = build_bar_circles(
        &setup.layout,
        setup.cfg.frame_style.window_bar,
    );
    let mut i: usize = 0;
    while i < 3
        invariant
            setup.fits(),
            setup.cfg.frame_style.window_bar.spec_enabled(),
            circles@ == layout::bar_circles(setup.layout, setup.cfg.frame_style.window_bar),
            i <= 3,
            buf@.len() == before.len(),
            buf@ == dotted(*setup, before, i as int),
        decreases 3 - i,
    {
        let c: WindowBarCircle = circles[i];
        proof {
            lemma_dot_place(*setup, i as int);
        }
        match c.fill {
            Some(color) => {
                let idx: u8 = find_closest_color(color, &setup.colors);
                fill_circle_idx(buf, setup.layout.canvas_w, c.cx, c.cy, c.r, idx);
            },
            None => {},
        }
        i = i + 1;
    }
}

proof fn lemma_dot_place(setup: RasterSetup, i: int)
    requires
        setup.fits(),
        setup.cfg.frame_style.window_bar.spec_enabled(),
        0 <= i < 3,
    ensures
        ({
            let c = layout::bar_circles(setup.layout, setup.cfg.frame_style.window_bar)[i];
            &&& c.fill is Some
            &&& c.r <= 0xffff
            &&& (c.cy + c.r) * setup.layout.canvas_w + c.cx + c.r < u32::MAX
            &&& c.cx + c.r < u32::MAX
            &&& c.cy + c.r < u32::MAX
        }),
{
    let l = setup.layout;
    let style = setup.cfg.frame_style.window_bar;
    let step = l.dot_radius * 2 + l.dot_gap;
    let start = layout::dots_start(l, style);
    assert(0 <= i * step <= 2 * step) by (nonlinear_arith)
        requires
            0 <= i <= 2,
            0 <= step,
    ;
    let cx = start + i * step + l.dot_radius;
    let cy = l.frame_y + l.bar_h / 2;
    let c = layout::bar_circles(l, style)[i];
    assert(0 <= start <= l.frame_x + l.frame_w + l.dot_gap);
    assert(c.cx == cx);
    assert(c.cy == cy);
    assert((cy + l.dot_radius) * l.canvas_w <= (l.frame_y + l.bar_h + l.dot_radius + 1)
        * l.canvas_w) by (nonlinear_arith)
        requires
            0 <= cy + l.dot_radius <= l.frame_y + l.bar_h + l.dot_radius + 1,
            0 <= l.canvas_w,
    ;
}

fn draw_bar(
    setup: &RasterSetup,
    curr: &RawFrame,
    glyphs: &Vec<GlyphBlit>,
    earlier: Option<&Vec<u8>>,
    buf: &mut Vec<u8>,
)
    requires
        setup.fits(),
        setup.cfg.frame_style.window_bar.spec_enabled(),
        glyphs_fit(glyphs@),
        old(buf)@.len() == setup.layout.canvas_w * setup.layout.canvas_h,
    ensures
        final(buf)@ == barred(*setup, *curr, glyphs@, canvas::opt_view(earlier), old(buf)@),
        final(buf)@.len() == old(buf)@.len(),
{
    let l: &CanvasLayout = &setup.layout;
    let bg_idx: u8 = find_closest_color(curr.default_bg, &setup.colors);
    assert((l.frame_y + l.bar_h) * l.canvas_w <= (l.frame_y + l.bar_h + l.dot_radius + 1)
        * l.canvas_w) by (nonlinear_arith)
        requires
            0 <= l.frame_y + l.bar_h <= l.frame_y + l.bar_h + l.dot_radius + 1,
            0 <= l.canvas_w,
    ;
    fill_rect_idx(buf, l.canvas_w, l.frame_x, l.frame_y, l.frame_w, l.bar_h, bg_idx);
    draw_window_bar_idx(setup, buf);
    let shown: bool = match &setup.title {
        Some(t) => has_text(t.as_str()),
        None => match &curr.title {
            Some(t) => has_text(t.as_str()),
            None => false,
        },
    };
    if shown {
        draw_glyphs(setup, buf, earlier, curr.default_bg, glyphs, TITLE_COLOR);
    }
}

fn has_text(s: &str) -> (r: bool)
    ensures
        r == (s@.len() > 0),
{
    s.unicode_len() > 0
}

/// Colours of a cell as it is drawn: those of the cursor where it stands.
pub open spec fn drawn_colors(curr: RawFrame, col: int, row: int) -> (Rgb, Rgb) {
    if cursor_on(curr, col, row) {
        (
            match curr.cursor_accent {
                Some(c) => c,
                None => curr.default_bg,
            },
            match curr.cursor_color {
                Some(c) => c,
                None => curr.default_fg,
            },
        )
    } else {
        cells::painted_colors(curr.cell(col, row))
    }
}

/// The canvas with a cell drawn: its background, its glyphs and its underline.
pub open spec fn with_cell(
    setup: RasterSetup,
    curr: RawFrame,
    sheet: Seq<Vec<GlyphBlit>>,
    earlier: Option<Seq<u8>>,
    buf: Seq<u8>,
    col: int,
    row: int,
) -> Seq<u8> {
    let w = setup.layout.canvas_w;
    let x = (setup.layout.content_x + col * setup.cell_w()) as u32;
    let y = (setup.layout.content_y + row * setup.cell_h()) as u32;
    let colors = drawn_colors(curr, col, row);
    let cell = curr.cell(col, row);
    let ground = canvas::filled_rect(
        buf,
        w,
        x,
        y,
        setup.cell_w(),
        setup.cell_h(),
        palette::closest(colors.1, setup.colors@),
    );
    let glyphs = sheet[row * curr.cols + col]@;
    let text = if cell.text.len() > 0 {
        lettered(
            ground,
            setup.paint(earlier, curr.default_bg),
            glyphs,
            colors.0,
            glyphs.len() as int,
        )
    } else {
        ground
    };
    if cell.flags & style_flags::UNDERLINE != 0 {
        canvas::filled_rect(
            text,
            w,
            x,
            (y + (if setup.cell_h() >= 2 {
                setup.cell_h() - 2
            } else {
                0
            })) as u32,
            setup.cell_w(),
            1,
            palette::closest(colors.0, setup.colors@),
        )
    } else {
        text
    }
}

/// The canvas with those of the first `n` cells drawn that changed.
pub open spec fn with_cells(
    setup: RasterSetup,
    curr: RawFrame,
    prev: Option<&RawFrame>,
    sheet: Seq<Vec<GlyphBlit>>,
    earlier: Option<Seq<u8>>,
    buf: Seq<u8>,
    n: int,
) -> Seq<u8>
    decreases n,
{
    if n <= 0 {
        buf
    } else {
        let before = with_cells(setup, curr, prev, sheet, earlier, buf, n - 1);
        let col = (n - 1) % (curr.cols as int);
        let row = (n - 1) / (curr.cols as int);
        if cell_changed(setup, col, row, curr, prev) {
            with_cell(setup, curr, sheet, earlier, before, col, row)
        } else {
            before
        }
    }
}

fn draw_cell(
    setup: &RasterSetup,
    curr: &RawFrame,
    sheet: &Vec<Vec<GlyphBlit>>,
    earlier: Option<&Vec<u8>>,
    buf: &mut Vec<u8>,
    col: u16,
    row: u16,
)
    requires
        setup.fits(),
        setup.grid_fits(curr),
        sheet@.len() == curr.cells@.len(),
        forall|i: int| 0 <= i < sheet@.len() ==> glyphs_fit((#[trigger] sheet@[i])@),
        col < curr.cols,
        row < curr.rows,
        old(buf)@.len() == setup.layout.canvas_w * setup.layout.canvas_h,
    ensures
        final(buf)@ == with_cell(
            *setup,
            *curr,
            sheet@,
            canvas::opt_view(earlier),
            old(buf)@,
            col as int,
            row as int,
        ),
        final(buf)@.len() == old(buf)@.len(),
{
    proof {
        lemma_cell_place(*setup, *curr, col as int, row as int);
        lemma_cell_rect(*setup, *curr, col as int, row as int);
    }
    let w: u32 = setup.cfg.cell_width();
    let h: u32 = setup.cfg.cell_height();
    let x: u32 = setup.layout.content_x + col as u32 * w;
    let y: u32 = setup.layout.content_y + row as u32 * h;
    let idx: usize = row as usize * curr.cols as usize + col as usize;
    let cell: &CellSnap = &curr.cells[idx];
    let (fg, bg) = if is_cursor_on(curr, col, row) {
        (
            match curr.cursor_accent {
                Some(c) => c,
                None => curr.default_bg,
            },
            match curr.cursor_color {
                Some(c) => c,
                None => curr.default_fg,
            },
        )
    } else {
        effective_colors(cell)
    };
    let bg_idx: u8 = find_closest_color(bg, &setup.colors);
    fill_rect_idx(buf, setup.layout.canvas_w, x, y, w, h, bg_idx);
    if has_text(cell.text.as_str()) {
        assert(glyphs_fit(sheet@[idx as int]@));
        draw_glyphs(setup, buf, earlier, curr.default_bg, &sheet[idx], fg);
    }
    if cell.flags & style_flags::UNDERLINE != 0 {
        let uy: u32 = y + (if h >= 2 {
            h - 2
        } else {
            0
        });
        let fg_idx: u8 = find_closest_color(fg, &setup.colors);
        proof {
            lemma_rect_within(setup.layout.canvas_w, x, y, w, h, uy, 1);
        }
        fill_rect_idx(buf, setup.layout.canvas_w, x, uy, w, 1, fg_idx);
    }
}

proof fn lemma_rect_within(w: u32, x: u32, y: u32, width: u32, height: u32, uy: u32, n: u32)
    requires
        canvas::rect_fits(w, x, y, width, height),
        uy + n <= y + height,
    ensures
        canvas::rect_fits(w, x, uy, width, n),
{
    assert((uy + n) * w <= (y + height) * w) by (nonlinear_arith)
        requires
            0 <= uy + n <= y + height,
            0 <= w,
    ;
}

/// The rectangle of a cell can be computed.
proof fn lemma_cell_rect(setup: RasterSetup, f: RawFrame, col: int, row: int)
    requires
        setup.grid_fits(&f),
        0 <= col < f.cols,
        0 <= row < f.rows,
    ensures
        canvas::rect_fits(
            setup.layout.canvas_w,
            (setup.layout.content_x + col * setup.cell_w()) as u32,
            (setup.layout.content_y + row * setup.cell_h()) as u32,
            setup.cell_w(),
            setup.cell_h(),
        ),
{
    lemma_cell_place(setup, f, col, row);
    let w = setup.layout.canvas_w as int;
    let bottom = setup.layout.content_y + (row + 1) * setup.cell_h();
    let end = setup.layout.content_y + f.rows * setup.cell_h();
    assert(bottom * w <= end * w) by (nonlinear_arith)
        requires
            0 <= bottom <= end,
            0 <= w,
    ;
}

/// The canvas with the mouse: a ripple while a button is down, and the arrow.
pub open spec fn with_mouse(
    setup: RasterSetup,
    curr: RawFrame,
    earlier: Option<Seq<u8>>,
    buf: Seq<u8>,
) -> Seq<u8> {
    match curr.mouse_cursor {
        None => buf,
        Some(m) => {
            let p = setup.paint(earlier, curr.default_bg);
            let x = setup.mouse_x(m);
            let y = setup.mouse_y(m);
            let ground = match m.2 {
                MouseState::Clicking => stamp::rippled(
                    buf,
                    p,
                    x,
                    y,
                    stamp::CLICK_OPACITY as int,
                ),
                MouseState::Dragging => stamp::rippled(buf, p, x, y, stamp::DRAG_OPACITY as int),
                MouseState::Moving => buf,
            };
            stamp::pointed(ground, p, x, y, m.2 == MouseState::Clicking)
        },
    }
}

fn draw_mouse(
    setup: &RasterSetup,
    curr: &RawFrame,
    earlier: Option<&Vec<u8>>,
    buf: &mut Vec<u8>,
)
    requires
        setup.fits(),
        setup.mouse_fits(curr.mouse_cursor),
        old(buf)@.len() == setup.layout.canvas_w * setup.layout.canvas_h,
    ensures
        final(buf)@ == with_mouse(*setup, *curr, canvas::opt_view(earlier), old(buf)@),
        final(buf)@.len() == old(buf)@.len(),
{
    match curr.mouse_cursor {
        None => {},
        Some(m) => {
            let w: u32 = setup.layout.canvas_w;
            let h: u32 = setup.layout.canvas_h;
            let cx: i32 = mouse_px(setup.layout.content_x, m.0, setup.cfg.cell_width());
            let cy: i32 = mouse_px(setup.layout.content_y, m.1, setup.cfg.cell_height());
            let bg: Rgb = curr.default_bg;
            match m.2 {
                MouseState::Clicking => {
                    draw_circle_idx(
                        buf,
                        earlier,
                        &setup.colors,
                        w,
                        h,
                        bg,
                        cx,
                        cy,
                        stamp::CLICK_OPACITY,
                    );
                },
                MouseState::Dragging => {
                    draw_circle_idx(
                        buf,
                        earlier,
                        &setup.colors,
                        w,
                        h,
                        bg,
                        cx,
                        cy,
                        stamp::DRAG_OPACITY,
                    );
                },
                MouseState::Moving => {},
            }
            let pressed: bool = m.2 == MouseState::Clicking;
            draw_arrow(buf, earlier, &setup.colors, w, h, bg, cx, cy, pressed);
        },
    }
}

/// The canvas before anything of the frame is drawn: for the first frame margin
/// and background, for a later one what the mouse may have left behind is erased.
pub open spec fn prepared(
    setup: RasterSetup,
    curr: RawFrame,
    prev: Option<&RawFrame>,
    buf: Seq<u8>,
) -> Seq<u8> {
    let l = setup.layout;
    match prev {
        None => canvas::filled_rect(
            canvas::filled_rect(
                buf,
                l.canvas_w,
                0,
                0,
                l.canvas_w,
                l.canvas_h,
                palette::closest(setup.cfg.frame_style.margin_fill, setup.colors@),
            ),
            l.canvas_w,
            l.frame_x,
            l.frame_y,
            l.frame_w,
            l.frame_h,
            palette::closest(curr.default_bg, setup.colors@),
        ),
        Some(p) => restored(
            setup,
            curr,
            restored(setup, curr, buf, curr.mouse_cursor),
            p.mouse_cursor,
        ),
    }
}

/// The canvas with the frame drawn on it, as far as it differs from the one
/// before.
pub open spec fn rasterized(
    setup: RasterSetup,
    curr: RawFrame,
    prev: Option<&RawFrame>,
    sheet: GlyphSheet,
    earlier: Option<Seq<u8>>,
    buf: Seq<u8>,
) -> Seq<u8> {
    let ground = prepared(setup, curr, prev, buf);
    let bar = if bar_changed(setup, curr, prev)
        && setup.cfg.frame_style.window_bar.spec_enabled() {
        barred(setup, curr, sheet.title@, earlier, ground)
    } else {
        ground
    };
    let grid = with_cells(
        setup,
        curr,
        prev,
        sheet.cells@,
        earlier,
        bar,
        curr.cols * curr.rows,
    );
    let mouse = with_mouse(setup, curr, earlier, grid);
    if prev is None && setup.cfg.frame_style.border_radius_px > 0 {
        canvas::masked(
            mouse,
            setup.layout,
            setup.cfg.frame_style.border_radius_px,
            palette::closest(setup.cfg.frame_style.margin_fill, setup.colors@),
        )
    } else {
        mouse
    }
}

/// Whether the glyphs of a frame are all there and can be drawn.
pub open spec fn sheet_fits(sheet: GlyphSheet, f: RawFrame) -> bool {
    &&& sheet.cells@.len() == f.cells@.len()
    &&& forall|i: int| 0 <= i < sheet.cells@.len() ==> glyphs_fit((#[trigger] sheet.cells@[i])@)
    &&& glyphs_fit(sheet.title@)
}

fn prepare(setup: &RasterSetup, curr: &RawFrame, prev: Option<&RawFrame>, buf: &mut Vec<u8>)
    requires
        setup.fits(),
        setup.grid_fits(curr),
        setup.mouse_fits(curr.mouse_cursor),
        setup.mouse_fits(prev_mouse(prev)),
        old(buf)@.len() == setup.layout.canvas_w * setup.layout.canvas_h,
    ensures
        final(buf)@ == prepared(*setup, *curr, prev, old(buf)@),
        final(buf)@.len() == old(buf)@.len(),
{
    match prev {
        None => {
            let l: &CanvasLayout = &setup.layout;
            let bg_idx: u8 = find_closest_color(curr.default_bg, &setup.colors);
            let margin_idx: u8 = find_closest_color(
                setup.cfg.frame_style.margin_fill,
                &setup.colors,
            );
            proof {
                let w = l.canvas_w as int;
                let h = l.canvas_h as int;
                assert(h * w == w * h) by (nonlinear_arith);
                assert((l.frame_y + l.frame_h) * w <= h * w) by (nonlinear_arith)
                    requires
                        0 <= l.frame_y + l.frame_h <= h,
                        0 <= w,
                ;
            }
            fill_rect_idx(buf, l.canvas_w, 0, 0, l.canvas_w, l.canvas_h, margin_idx);
            fill_rect_idx(buf, l.canvas_w, l.frame_x, l.frame_y, l.frame_w, l.frame_h, bg_idx);
        },
        Some(p) => {
            restore(setup, curr, buf, curr.mouse_cursor);
            restore(setup, curr, buf, p.mouse_cursor);
        },
    }
}

/// Draw a frame, as far as it differs from the one before.
pub fn rasterize_raw_frame_idx(
    setup: &RasterSetup,
    curr: &RawFrame,
    prev: Option<&RawFrame>,
    sheet: &GlyphSheet,
    earlier: Option<&Vec<u8>>,
    buf: &mut Vec<u8>,
)
    requires
        setup.fits(),
        setup.grid_fits(curr),
        setup.mouse_fits(curr.mouse_cursor),
        setup.mouse_fits(prev_mouse(prev)),
        sheet_fits(*sheet, *curr),
        old(buf)@.len() == setup.layout.canvas_w * setup.layout.canvas_h,
    ensures
        final(buf)@ == rasterized(
            *setup,
            *curr,
            prev,
            *sheet,
            canvas::opt_view(earlier),
            old(buf)@,
        ),
        final(buf)@.len() == old(buf)@.len(),
{
    let ghost e = canvas::opt_view(earlier);
    prepare(setup, curr, prev, buf);
    if is_bar_changed(setup, curr, prev) && setup.cfg.frame_style.window_bar.enabled() {
        draw_bar(setup, curr, &sheet.title, earlier, buf);
    }
    let ghost bar = buf@;
    let mut row: u16 = 0;
    proof {
        assert(0int * curr.cols == 0) by (nonlinear_arith);
    }
    while row < curr.rows
        invariant
            setup.fits(),
            setup.grid_fits(curr),
            setup.mouse_fits(curr.mouse_cursor),
            setup.mouse_fits(prev_mouse(prev)),
            sheet_fits(*sheet, *curr),
            e == canvas::opt_view(earlier),
            row <= curr.rows,
            buf@.len() == setup.layout.canvas_w * setup.layout.canvas_h,
            buf@ == with_cells(
                *setup,
                *curr,
                prev,
                sheet.cells@,
                e,
                bar,
                row * curr.cols,
            ),
        decreases curr.rows - row,
    {
        let mut col: u16 = 0;
        while col < curr.cols
            invariant
                setup.fits(),
                setup.grid_fits(curr),
                setup.mouse_fits(curr.mouse_cursor),
                setup.mouse_fits(prev_mouse(prev)),
                sheet_fits(*sheet, *curr),
                e == canvas::opt_view(earlier),
                row < curr.rows,
                col <= curr.cols,
                buf@.len() == setup.layout.canvas_w * setup.layout.canvas_h,
                buf@ == with_cells(
                    *setup,
                    *curr,
                    prev,
                    sheet.cells@,
                    e,
                    bar,
                    row * curr.cols + col,
                ),
            decreases curr.cols - col,
        {
            proof {
                canvas::lemma_on_canvas(
                    col as int,
                    row as int,
                    curr.cols as int,
                    curr.rows as int,
                );
            }
            if is_cell_changed(setup, col, row, curr, prev) {
                draw_cell(setup, curr, &sheet.cells, earlier, buf, col, row);
            }
            col = col + 1;
        }
        assert(row * curr.cols + curr.cols == (row + 1) * curr.cols) by (nonlinear_arith);
        row = row + 1;
    }
    assert(curr.rows * curr.cols == curr.cols * curr.rows) by (nonlinear_arith);
    draw_mouse(setup, curr, earlier, buf);
    if prev.is_none() && setup.cfg.frame_style.border_radius_px > 0 {
        let margin_idx: u8 = find_closest_color(setup.cfg.frame_style.margin_fill, &setup.colors);
        mask_outside_rounded_rect_idx(
            buf,
            &setup.layout,
            setup.cfg.frame_style.border_radius_px,
            margin_idx,
        );
    }
}

} // verus!
