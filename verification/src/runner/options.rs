//! The grid that the settings ask for.
use vstd::prelude::*;

use crate::script::{Settings, CANVAS_HEIGHT, CANVAS_WIDTH};
use crate::style::{FrameStyle, WindowBarStyle};
use crate::viewport::ViewportConfig;

verus! {

/// A cell of the font in pixels.
#[derive(Debug, Clone, Copy)]
pub struct CellMetrics {
    pub cell_width_px: u32,
    pub cell_height_px: u32,
    pub char_height_px: u32,
    pub ascent_px: u32,
}

/// The frame that the settings ask for.
pub open spec fn styled(s: Settings) -> FrameStyle {
    FrameStyle {
        canvas_width_px: s.canvas_width(),
        canvas_height_px: s.canvas_height(),
        padding_px: s.padding,
        margin_px: s.margin,
        margin_fill: s.margin_fill,
        window_bar: s.window_bar,
        window_bar_size_px: s.window_bar_size,
        border_radius_px: s.border_radius,
    }
}

/// The frame that the settings ask for.
pub fn frame_style(s: &Settings) -> (r: FrameStyle)
    ensures
        r == styled(*s),
{
    FrameStyle {
        canvas_width_px: s.resolved_canvas_width(),
        canvas_height_px: s.resolved_canvas_height(),
        padding_px: s.padding,
        margin_px: s.margin,
        margin_fill: s.margin_fill,
        window_bar: s.window_bar,
        window_bar_size_px: s.window_bar_size,
        border_radius_px: s.border_radius,
    }
}

/// `a - b`, or nothing.
pub open spec fn less(a: int, b: int) -> int {
    if a > b {
        a - b
    } else {
        0
    }
}

/// Pixels across the canvas that are left for cells.
pub open spec fn inner_width(s: Settings) -> int {
    less(
        match s.canvas_width() {
            Some(w) => w as int,
            None => CANVAS_WIDTH as int,
        },
        2 * (s.padding + s.margin),
    )
}

/// Pixels down the canvas that are left for cells.
pub open spec fn inner_height(s: Settings) -> int {
    less(
        less(
            match s.canvas_height() {
                Some(h) => h as int,
                None => CANVAS_HEIGHT as int,
            },
            2 * (s.padding + s.margin),
        ),
        if s.window_bar.spec_enabled() {
            s.window_bar_size as int
        } else {
            0
        },
    )
}

/// How many cells fit: at least two; what does not fit into sixteen bits is cut
/// off.
pub open spec fn cells_across(inner: int, cell: u32) -> u16 {
    let n = inner / (cell as int);
    ((if n >= 2 {
        n
    } else {
        2
    }) % 0x1_0000) as u16
}

/// The grid that the settings ask for: as many columns and rows as they say, or as
/// fit on the canvas.
pub open spec fn derived(s: Settings, m: CellMetrics) -> ViewportConfig {
    ViewportConfig {
        cols: match s.cols {
            Some(c) => c,
            None => cells_across(inner_width(s), m.cell_width_px),
        },
        rows: match s.rows {
            Some(r) => r,
            None => cells_across(inner_height(s), m.cell_height_px),
        },
        framerate: s.framerate,
        cell_width_px: m.cell_width_px,
        cell_height_px: m.cell_height_px,
        frame_style: styled(s),
        font_size_px: s.font_size,
        char_height_px: m.char_height_px,
        ascent_px: m.ascent_px,
        letter_spacing: s.letter_spacing,
    }
}

fn minus(a: u32, b: u32) -> (r: u32)
    ensures
        r == less(a as int, b as int),
{
    if a > b {
        a - b
    } else {
        0
    }
}

fn fitting(inner: u32, cell: u32) -> (r: u16)
    requires
        cell > 0,
    ensures
        r == cells_across(inner as int, cell),
{
    let n: u32 = inner / cell;
    let m: u32 = if n >= 2 {
        n
    } else {
        2
    };
    (m % 0x1_0000) as u16
}

/// The grid that the settings ask for, given the size of a cell of the font.
pub fn derive_options(s: &Settings, m: &CellMetrics) -> (r: ViewportConfig)
    requires
        m.cell_width_px > 0,
        m.cell_height_px > 0,
        2 * (s.padding + s.margin) <= u32::MAX,
    ensures
        r == derived(*s, *m),
{
    let style: FrameStyle = frame_style(s);
    let around: u32 = (style.padding_px + style.margin_px) * 2;
    let w: u32 = match style.canvas_width_px {
        Some(w) => w,
        None => CANVAS_WIDTH,
    };
    let h: u32 = match style.canvas_height_px {
        Some(h) => h,
        None => CANVAS_HEIGHT,
    };
    let bar: u32 = if style.window_bar.enabled() {
        style.window_bar_size_px
    } else {
        0
    };
    let cols: u16 = match s.cols {
        Some(c) => c,
        None => fitting(minus(w, around), m.cell_width_px),
    };
    let rows: u16 = match s.rows {
        Some(r) => r,
        None => fitting(minus(minus(h, around), bar), m.cell_height_px),
    };
    ViewportConfig {
        cols,
        rows,
        framerate: s.framerate,
        cell_width_px: m.cell_width_px,
        cell_height_px: m.cell_height_px,
        frame_style: style,
        font_size_px: s.font_size,
        char_height_px: m.char_height_px,
        ascent_px: m.ascent_px,
        letter_spacing: s.letter_spacing,
    }
}

/// Cells that the settings do not count never reach over the padding, unless there
/// is no room for two of them.
pub proof fn lemma_cells_fit(s: Settings, m: CellMetrics)
    requires
        m.cell_width_px > 0,
        m.cell_height_px > 0,
        inner_width(s) / (m.cell_width_px as int) < 0x1_0000,
        inner_height(s) / (m.cell_height_px as int) < 0x1_0000,
    ensures
        s.cols is None && inner_width(s) >= 2 * m.cell_width_px ==> derived(s, m).cols
            * m.cell_width_px <= inner_width(s),
        s.rows is None && inner_height(s) >= 2 * m.cell_height_px ==> derived(s, m).rows
            * m.cell_height_px <= inner_height(s),
{
    let w = inner_width(s);
    let h = inner_height(s);
    let cw = m.cell_width_px as int;
    let ch = m.cell_height_px as int;
    lemma_quotient(w, cw);
    lemma_quotient(h, ch);
}

/// The grid has the columns and rows that the settings ask for. Those that they do not
/// count fill the canvas: what is left of it within margin, padding and window bar has no
/// room for another one.
pub proof fn lemma_grid_fills(s: Settings, m: CellMetrics)
    requires
        m.cell_width_px > 0,
        m.cell_height_px > 0,
        inner_width(s) / (m.cell_width_px as int) < 0x1_0000,
        inner_height(s) / (m.cell_height_px as int) < 0x1_0000,
    ensures
        ({
            let g = derived(s, m);
            let (w, h) = (m.cell_width_px, m.cell_height_px);
            let wide = match s.width {
                Some(n) => n as int,
                None => 1200,
            };
            let high = match s.height {
                Some(n) => n as int,
                None => 600,
            };
            let bar = if s.window_bar == WindowBarStyle::Off {
                0
            } else {
                s.window_bar_size as int
            };
            let room = wide - 2 * (s.padding + s.margin);
            let depth = high - 2 * (s.padding + s.margin) - bar;
            &&& s.cols matches Some(c) ==> g.cols == c
            &&& s.rows matches Some(r) ==> g.rows == r
            &&& s.cols is None && room >= 2 * w ==> g.cols * w <= room < (g.cols + 1) * w
            &&& s.rows is None && depth >= 2 * h ==> g.rows * h <= depth < (g.rows + 1) * h
            &&& s.cols is None && room < 2 * w ==> g.cols == 2
            &&& s.rows is None && depth < 2 * h ==> g.rows == 2
        }),
{
    lemma_filled(inner_width(s), m.cell_width_px as int);
    lemma_filled(inner_height(s), m.cell_height_px as int);
}

proof fn lemma_filled(a: int, b: int)
    requires
        0 <= a,
        0 < b,
    ensures
        (a / b) * b <= a < (a / b + 1) * b,
        a >= 2 * b <==> a / b >= 2,
{
    vstd::arithmetic::div_mod::lemma_fundamental_div_mod(a, b);
    vstd::arithmetic::div_mod::lemma_mod_bound(a, b);
    let q = a / b;
    assert(q * b <= a < (q + 1) * b && (a >= 2 * b <==> q >= 2)) by (nonlinear_arith)
        requires
            a == b * q + a % b,
            0 <= a % b < b,
            0 <= a,
    ;
}

/// Everything else about the grid is as the settings and the font have it.
pub proof fn lemma_grid_styled(s: Settings, m: CellMetrics)
    ensures
        ({
            let g = derived(s, m);
            let f = g.frame_style;
            &&& g.framerate == s.framerate
            &&& g.cell_width_px == m.cell_width_px && g.cell_height_px == m.cell_height_px
            &&& g.char_height_px == m.char_height_px && g.ascent_px == m.ascent_px
            &&& g.font_size_px == s.font_size && g.letter_spacing == s.letter_spacing
            &&& f.padding_px == s.padding && f.margin_px == s.margin
            &&& f.margin_fill == s.margin_fill && f.border_radius_px == s.border_radius
            &&& f.window_bar == s.window_bar && f.window_bar_size_px == s.window_bar_size
            &&& s.width is Some ==> f.canvas_width_px == s.width
            &&& s.height is Some ==> f.canvas_height_px == s.height
            &&& s.width is None ==> (f.canvas_width_px is None <==> s.cols is Some)
            &&& s.height is None ==> (f.canvas_height_px is None <==> s.rows is Some)
        }),
{
}

/// The terminal is told the columns and rows of the grid, and its size in pixels.
pub proof fn lemma_terminal_size(c: ViewportConfig)
    requires
        c.cols * c.cell_width_px < 0x1_0000,
        c.rows * c.cell_height_px < 0x1_0000,
    ensures
        pty_size_of(c).cols == c.cols,
        pty_size_of(c).rows == c.rows,
        pty_size_of(c).px_w == c.cols * c.cell_width_px,
        pty_size_of(c).px_h == c.rows * c.cell_height_px,
{
    assert(0 <= c.cols * c.cell_width_px && 0 <= c.rows * c.cell_height_px) by (nonlinear_arith);
}

proof fn lemma_quotient(a: int, b: int)
    requires
        0 <= a,
        0 < b,
    ensures
        (a / b) * b <= a,
        a >= 2 * b ==> a / b >= 2,
{
    assert((a / b) * b <= a) by (nonlinear_arith)
        requires
            0 <= a,
            0 < b,
    ;
    assert(a >= 2 * b ==> a / b >= 2) by (nonlinear_arith)
        requires
            0 <= a,
            0 < b,
    ;
}

/// The size of the terminal as its programs see it.
#[derive(Debug, Clone, Copy)]
pub struct PtySize {
    pub cols: u16,
    pub rows: u16,
    pub px_w: u16,
    pub px_h: u16,
}

/// The size of the terminal; what does not fit into sixteen bits is cut off.
pub open spec fn pty_size_of(c: ViewportConfig) -> PtySize {
    PtySize {
        cols: c.cols,
        rows: c.rows,
        px_w: ((c.cols * c.cell_width_px) % 0x1_0000) as u16,
        px_h: ((c.rows * c.cell_height_px) % 0x1_0000) as u16,
    }
}

/// The size of the terminal.
pub fn pty_size(c: &ViewportConfig) -> (r: PtySize)
    requires
        c.cols * c.cell_width_px <= u32::MAX,
        c.rows * c.cell_height_px <= u32::MAX,
    ensures
        r == pty_size_of(*c),
{
    PtySize {
        cols: c.cols,
        rows: c.rows,
        px_w: ((c.cols as u32 * c.cell_width_px) % 0x1_0000) as u16,
        px_h: ((c.rows as u32 * c.cell_height_px) % 0x1_0000) as u16,
    }
}

} // verus!
