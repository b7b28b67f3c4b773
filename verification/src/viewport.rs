//! The grid of the terminal and where it lies on the canvas.
use vstd::prelude::*;

use crate::single::Measure;
use crate::style::{FrameStyle, WindowBarStyle};

verus! {

/// The grid, its cells and the font they are measured with.
#[derive(Debug, Clone, Copy)]
pub struct ViewportConfig {
    pub cols: u16,
    pub rows: u16,
    pub framerate: u32,
    pub cell_width_px: u32,
    pub cell_height_px: u32,
    pub frame_style: FrameStyle,
    pub font_size_px: Measure,
    pub char_height_px: u32,
    pub ascent_px: u32,
    pub letter_spacing: Measure,
}

/// Where the frame and its content lie on the canvas.
#[derive(Debug, Clone, Copy, PartialEq, Eq)]
pub struct CanvasLayout {
    pub canvas_w: u32,
    pub canvas_h: u32,
    pub frame_x: u32,
    pub frame_y: u32,
    pub frame_w: u32,
    pub frame_h: u32,
    pub content_x: u32,
    pub content_y: u32,
    /// Height of the window bar.
    pub bar_h: u32,
    /// Radius of a dot of the window bar.
    pub dot_radius: u32,
    /// Space between the dots.
    pub dot_gap: u32,
}

/// `n`, but at least one.
pub open spec fn at_least_one(n: u32) -> u32 {
    if n == 0 {
        1
    } else {
        n
    }
}

impl ViewportConfig {
    /// Width of a cell, at least one pixel.
    pub open spec fn cell_w(self) -> u32 {
        at_least_one(self.cell_width_px)
    }

    /// Height of a cell, at least one pixel.
    pub open spec fn cell_h(self) -> u32 {
        at_least_one(self.cell_height_px)
    }

    pub fn cell_width(&self) -> (r: u32)
        ensures
            r == self.cell_w(),
    {
        if self.cell_width_px == 0 {
            1
        } else {
            self.cell_width_px
        }
    }

    pub fn cell_height(&self) -> (r: u32)
        ensures
            r == self.cell_h(),
    {
        if self.cell_height_px == 0 {
            1
        } else {
            self.cell_height_px
        }
    }

    /// How long a frame lasts in milliseconds.
    pub open spec fn frame_ms(self) -> u32 {
        if self.framerate > 0 {
            1000u32 / self.framerate
        } else {
            33
        }
    }

    pub fn frame_millis(&self) -> (r: u32)
        ensures
            r == self.frame_ms(),
            r <= 1000,
    {
        if self.framerate > 0 {
            1000u32 / self.framerate
        } else {
            33
        }
    }
}

/// A side of the canvas: what is asked for, or the cells with the padding, the window
/// bar and the margin around them.
pub open spec fn canvas_side(
    cells: u16,
    px: u32,
    bar: u32,
    asked: Option<u32>,
    s: FrameStyle,
) -> int {
    match asked {
        Some(n) => n as int,
        None => cells * at_least_one(px) + 2 * s.padding_px + bar + 2 * s.margin_px,
    }
}

/// A side of the frame: the canvas without the margin.
pub open spec fn frame_side(canvas: int, s: FrameStyle) -> int {
    if canvas > 2 * s.margin_px {
        canvas - 2 * s.margin_px
    } else {
        0
    }
}

/// Height of the window bar, if there is one.
pub open spec fn bar_height(s: FrameStyle) -> u32 {
    if s.window_bar.spec_enabled() {
        s.window_bar_size_px
    } else {
        0
    }
}

/// Whether the lengths of the canvas around a grid can be written down.
pub open spec fn canvas_exists(cfg: ViewportConfig, cols: u16, rows: u16) -> bool {
    let s = cfg.frame_style;
    &&& canvas_side(cols, cfg.cell_width_px, 0, s.canvas_width_px, s) <= u32::MAX
    &&& canvas_side(rows, cfg.cell_height_px, bar_height(s), s.canvas_height_px, s) <= u32::MAX
    &&& s.margin_px + s.padding_px + bar_height(s) <= u32::MAX
}

/// The canvas around a grid: margin, window bar and padding on the outside.
pub open spec fn canvas_of(cfg: ViewportConfig, cols: u16, rows: u16) -> CanvasLayout {
    let s = cfg.frame_style;
    let w = canvas_side(cols, cfg.cell_width_px, 0, s.canvas_width_px, s);
    let h = canvas_side(rows, cfg.cell_height_px, bar_height(s), s.canvas_height_px, s);
    CanvasLayout {
        canvas_w: w as u32,
        canvas_h: h as u32,
        frame_x: s.margin_px,
        frame_y: s.margin_px,
        frame_w: frame_side(w, s) as u32,
        frame_h: frame_side(h, s) as u32,
        content_x: (s.margin_px + s.padding_px) as u32,
        content_y: (s.margin_px + s.padding_px + bar_height(s)) as u32,
        bar_h: bar_height(s),
        dot_radius: bar_height(s) / 5,
        dot_gap: bar_height(s) / 4,
    }
}

fn side(cells: u16, px: u32, bar: u32, asked: Option<u32>, s: &FrameStyle) -> (r: u64)
    ensures
        r == canvas_side(cells, px, bar, asked, *s),
{
    match asked {
        Some(n) => n as u64,
        None => {
            let side: u32 = if px == 0 {
                1
            } else {
                px
            };
            assert(0 <= cells * side <= 0xffff * 0xffff_ffff) by (nonlinear_arith)
                requires
                    0 <= cells <= 0xffff,
                    0 <= side <= 0xffff_ffff,
            ;
            cells as u64 * side as u64 + 2 * s.padding_px as u64 + bar as u64 + 2
                * s.margin_px as u64
        },
    }
}

fn inner_side(canvas: u32, s: &FrameStyle) -> (r: u32)
    ensures
        r == frame_side(canvas as int, *s),
{
    let margins: u64 = 2 * s.margin_px as u64;
    if canvas as u64 > margins {
        (canvas as u64 - margins) as u32
    } else {
        0
    }
}

/// The canvas around a grid, if its lengths can be written down.
pub fn canvas_around(cfg: &ViewportConfig, cols: u16, rows: u16) -> (r: Option<CanvasLayout>)
    ensures
        match r {
            Some(l) => canvas_exists(*cfg, cols, rows) && l == canvas_of(*cfg, cols, rows),
            None => !canvas_exists(*cfg, cols, rows),
        },
{
    let s: &FrameStyle = &cfg.frame_style;
    let bar_h: u32 = if s.window_bar.enabled() {
        s.window_bar_size_px
    } else {
        0
    };
    let w: u64 = side(cols, cfg.cell_width_px, 0, s.canvas_width_px, s);
    let h: u64 = side(rows, cfg.cell_height_px, bar_h, s.canvas_height_px, s);
    let top: u64 = s.margin_px as u64 + s.padding_px as u64 + bar_h as u64;
    if w > 0xffff_ffff || h > 0xffff_ffff || top > 0xffff_ffff {
        return None;
    }
    Some(
        CanvasLayout {
            canvas_w: w as u32,
            canvas_h: h as u32,
            frame_x: s.margin_px,
            frame_y: s.margin_px,
            frame_w: inner_side(w as u32, s),
            frame_h: inner_side(h as u32, s),
            content_x: s.margin_px + s.padding_px,
            content_y: top as u32,
            bar_h,
            dot_radius: bar_h / 5,
            dot_gap: bar_h / 4,
        },
    )
}

/// A canvas whose size is not asked for holds the whole grid, with the padding on
/// every side of it and the margin around that.
pub proof fn lemma_canvas_holds_grid(cfg: ViewportConfig, cols: u16, rows: u16)
    requires
        canvas_exists(cfg, cols, rows),
        cfg.frame_style.canvas_width_px is None,
        cfg.frame_style.canvas_height_px is None,
    ensures
        ({
            let l = canvas_of(cfg, cols, rows);
            let s = cfg.frame_style;
            &&& l.content_x + cols * cfg.cell_w() + s.padding_px == l.frame_x + l.frame_w
            &&& l.content_y + rows * cfg.cell_h() + s.padding_px == l.frame_y + l.frame_h
            &&& l.frame_x + l.frame_w + s.margin_px == l.canvas_w
            &&& l.frame_y + l.frame_h + s.margin_px == l.canvas_h
        }),
{
    assert(0 <= cols * cfg.cell_w() && 0 <= rows * cfg.cell_h()) by (nonlinear_arith);
}

/// A canvas whose size is asked for has that size. Whatever its size, the frame is the
/// canvas without the margin on each side, and the grid begins behind the padding, below
/// the window bar if there is one.
pub proof fn lemma_canvas_as_asked(cfg: ViewportConfig, cols: u16, rows: u16)
    requires
        canvas_exists(cfg, cols, rows),
    ensures
        ({
            let l = canvas_of(cfg, cols, rows);
            let s = cfg.frame_style;
            let bar = if s.window_bar == WindowBarStyle::Off {
                0
            } else {
                s.window_bar_size_px as int
            };
            &&& s.canvas_width_px matches Some(w) ==> l.canvas_w == w
            &&& s.canvas_height_px matches Some(h) ==> l.canvas_h == h
            &&& l.frame_x == s.margin_px && l.frame_y == s.margin_px
            &&& l.canvas_w >= 2 * s.margin_px ==> l.frame_w == l.canvas_w - 2 * s.margin_px
            &&& l.canvas_h >= 2 * s.margin_px ==> l.frame_h == l.canvas_h - 2 * s.margin_px
            &&& l.content_x == l.frame_x + s.padding_px
            &&& l.content_y == l.frame_y + bar + s.padding_px
            &&& l.bar_h == bar
            &&& 5 * l.dot_radius <= bar < 5 * l.dot_radius + 5
            &&& 4 * l.dot_gap <= bar < 4 * l.dot_gap + 4
        }),
{
    assert(0 <= cols * cfg.cell_w() && 0 <= rows * cfg.cell_h()) by (nonlinear_arith);
}

/// A frame lasts a thousand milliseconds divided by the frame rate.
pub proof fn lemma_frame_ms(cfg: ViewportConfig)
    requires
        cfg.framerate > 0,
    ensures
        cfg.frame_ms() * cfg.framerate <= 1000 < (cfg.frame_ms() + 1) * cfg.framerate,
{
    let r = cfg.framerate as int;
    let q = 1000int / r;
    vstd::arithmetic::div_mod::lemma_fundamental_div_mod(1000, r);
    vstd::arithmetic::div_mod::lemma_mod_bound(1000, r);
    assert(q * r <= 1000 < (q + 1) * r) by (nonlinear_arith)
        requires
            1000 == r * q + 1000int % r,
            0 <= 1000int % r < r,
    ;
}

} // verus!
