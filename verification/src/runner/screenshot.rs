//! Screenshots: in which form a file is written, and what it holds.
use vstd::prelude::*;
use vstd::string::*;

use crate::recording;
use crate::recording::{CellSnap, RawFrame, Recording};
use crate::render_svg::cells;
use crate::render_svg::cells::is_wide_char;
use crate::render_svg::options as svg;
use crate::render_svg::options::SvgOptions;
use crate::runner::options;
use crate::runner::options::frame_style;
use crate::script::Settings;
use crate::single::Measure;
use crate::style::{FrameStyle, Theme};
use crate::text;
use crate::text::{is_same_but_case, to_chars};
use crate::viewport::ViewportConfig;

verus! {

/// The form of a screenshot.
#[derive(Debug, Clone, Copy, PartialEq, Eq, Structural)]
pub enum ScreenshotKind {
    Png,
    Svg,
    Svgz,
    Json,
    Text,
}

/// The form that an extension stands for, in upper or lower case.
pub open spec fn kind_of(ext: Seq<char>) -> Option<ScreenshotKind> {
    if text::same_but_case(ext, "png"@) {
        Some(ScreenshotKind::Png)
    } else if text::same_but_case(ext, "svg"@) {
        Some(ScreenshotKind::Svg)
    } else if text::same_but_case(ext, "svgz"@) {
        Some(ScreenshotKind::Svgz)
    } else if text::same_but_case(ext, "json"@) {
        Some(ScreenshotKind::Json)
    } else if text::same_but_case(ext, "txt"@) || text::same_but_case(ext, "ascii"@) {
        Some(ScreenshotKind::Text)
    } else {
        None
    }
}

/// The form that an extension stands for; for others, what is said of them.
pub fn screenshot_kind(ext: &str) -> (r: Result<ScreenshotKind, String>)
    ensures
        match r {
            Ok(k) => kind_of(ext@) == Some(k),
            Err(m) => kind_of(ext@) is None && m@ == "Unsupported screenshot extension: "@ + ext@,
        },
{
    let e: Vec<char> = to_chars(ext);
    if is_same_but_case(&e, "png") {
        Ok(ScreenshotKind::Png)
    } else if is_same_but_case(&e, "svg") {
        Ok(ScreenshotKind::Svg)
    } else if is_same_but_case(&e, "svgz") {
        Ok(ScreenshotKind::Svgz)
    } else if is_same_but_case(&e, "json") {
        Ok(ScreenshotKind::Json)
    } else if is_same_but_case(&e, "txt") || is_same_but_case(&e, "ascii") {
        Ok(ScreenshotKind::Text)
    } else {
        let mut m: String = "Unsupported screenshot extension: ".to_string();
        m.append(ext);
        Err(m)
    }
}

/// How a cell is written: its text; a space if it has none, unless the cell before
/// it is two columns wide.
pub open spec fn cell_text(f: RawFrame, row: int, col: int) -> Seq<char> {
    let t = f.cell(col, row).text;
    if t.len() > 0 {
        t
    } else if col > 0 && f.cell(col - 1, row).text.len() > 0 && cells::is_wide(
        f.cell(col - 1, row).text[0],
    ) {
        Seq::empty()
    } else {
        seq![' ']
    }
}

/// The first `n` cells of a row.
pub open spec fn cells_text(f: RawFrame, row: int, n: int) -> Seq<char>
    decreases n,
{
    if n <= 0 {
        Seq::empty()
    } else {
        cells_text(f, row, n - 1) + cell_text(f, row, n - 1)
    }
}

/// Number of cells of a row, out of the first `n`, up to the last one with text.
pub open spec fn used_cells(f: RawFrame, row: int, n: int) -> int
    decreases n,
{
    if n <= 0 {
        0
    } else if f.cell(n - 1, row).text.len() > 0 {
        n
    } else {
        used_cells(f, row, n - 1)
    }
}

/// The first `n` rows, each up to its last text, with its end.
pub open spec fn frame_text(f: RawFrame, n: int) -> Seq<char>
    decreases n,
{
    if n <= 0 {
        Seq::empty()
    } else {
        (frame_text(f, n - 1) + cells_text(f, n - 1, used_cells(f, n - 1, f.cols as int))).push(
            '\n',
        )
    }
}

fn has_text(c: &CellSnap) -> (r: bool)
    ensures
        r == (c@.text.len() > 0),
{
    c.text.as_str().unicode_len() > 0
}

fn is_wide_cell(c: &CellSnap) -> (r: bool)
    ensures
        r == (c@.text.len() > 0 && cells::is_wide(c@.text[0])),
{
    let chars: Vec<char> = to_chars(c.text.as_str());
    chars.len() > 0 && is_wide_char(chars[0])
}

proof fn lemma_cell_index(f: RawFrame, row: int, col: int)
    requires
        f.wf(),
        0 <= col < f.cols,
        0 <= row < f.rows,
    ensures
        0 <= row * f.cols,
        row * f.cols <= 0xffff * 0xffff,
        0 <= row * f.cols + col < f.cells@.len(),
{
    let cols = f.cols as int;
    let rows = f.rows as int;
    assert(0 <= row * cols && row * cols + col < cols * rows && row * cols <= 0xffff * 0xffff)
        by (nonlinear_arith)
        requires
            0 <= col < cols <= 0xffff,
            0 <= row < rows <= 0xffff,
    ;
}

fn push_row(out: &mut String, f: &RawFrame, row: u16)
    requires
        f.wf(),
        row < f.rows,
    ensures
        final(out)@ == old(out)@ + cells_text(
            *f,
            row as int,
            used_cells(*f, row as int, f.cols as int),
        ),
{
    let mut n: u16 = f.cols;
    while n > 0
        invariant_except_break
            f.wf(),
            row < f.rows,
            n <= f.cols,
            used_cells(*f, row as int, f.cols as int) == used_cells(*f, row as int, n as int),
        ensures
            n <= f.cols,
            n == used_cells(*f, row as int, f.cols as int),
        decreases n,
    {
        proof {
            lemma_cell_index(*f, row as int, n - 1);
        }
        let i: usize = row as usize * f.cols as usize + (n as usize - 1);
        if has_text(&f.cells[i]) {
            break;
        }
        n = n - 1;
    }
    let ghost before = out@;
    let mut c: u16 = 0;
    assert(before + cells_text(*f, row as int, 0) =~= before);
    while c < n
        invariant
            f.wf(),
            row < f.rows,
            n <= f.cols,
            c <= n,
            out@ == before + cells_text(*f, row as int, c as int),
        decreases n - c,
    {
        proof {
            lemma_cell_index(*f, row as int, c as int);
            if c > 0 {
                lemma_cell_index(*f, row as int, c - 1);
            }
        }
        let i: usize = row as usize * f.cols as usize + c as usize;
        let ghost prior = out@;
        if has_text(&f.cells[i]) {
            out.append(f.cells[i].text.as_str());
        } else {
            let wide: bool = c > 0 && is_wide_cell(&f.cells[i - 1]);
            if !wide {
                out.push(' ');
                assert(out@ =~= prior + seq![' ']);
            } else {
                assert(prior + Seq::<char>::empty() =~= prior);
            }
        }
        proof {
            assert(out@ == prior + cell_text(*f, row as int, c as int));
            assert(out@ =~= before + cells_text(*f, row as int, c + 1));
        }
        c = c + 1;
    }
}

/// The text of a frame.
pub fn screenshot_text(f: &RawFrame) -> (out: String)
    requires
        f.wf(),
    ensures
        out@ == frame_text(*f, f.rows as int),
{
    let mut out: String = String::new();
    let mut row: u16 = 0;
    while row < f.rows
        invariant
            f.wf(),
            row <= f.rows,
            out@ == frame_text(*f, row as int),
        decreases f.rows - row,
    {
        push_row(&mut out, f, row);
        out.push('\n');
        row = row + 1;
    }
    out
}

/// A recording of a single frame, at its start.
pub fn screenshot_recording(f: RawFrame, cfg: &ViewportConfig, framerate: u32) -> (r: Recording)
    ensures
        r.cols == f.cols,
        r.rows == f.rows,
        r.framerate == framerate,
        r.cell_width_px == cfg.cell_width_px,
        r.cell_height_px == cfg.cell_height_px,
        r.font_size_px == cfg.font_size_px,
        r.char_height_px == cfg.char_height_px,
        r.ascent_px == cfg.ascent_px,
        r.letter_spacing == cfg.letter_spacing,
        r.frame_style == cfg.frame_style,
        r.frames@ == seq![Some(RawFrame { t_ms: 0, ..f })],
{
    let cols: u16 = f.cols;
    let rows: u16 = f.rows;
    let mut frames: Vec<Option<RawFrame>> = Vec::new();
    let mut first: RawFrame = f;
    first.t_ms = 0;
    frames.push(Some(first));
    assert(frames@ =~= seq![Some(RawFrame { t_ms: 0, ..f })]);
    Recording {
        cols,
        rows,
        framerate,
        cell_width_px: cfg.cell_width_px,
        cell_height_px: cfg.cell_height_px,
        frame_style: cfg.frame_style,
        font_size_px: cfg.font_size_px,
        char_height_px: cfg.char_height_px,
        ascent_px: cfg.ascent_px,
        letter_spacing: cfg.letter_spacing,
        frames,
    }
}

/// Tunables for the raster renderers.
#[derive(Debug, Clone)]
pub struct RenderOptions {
    pub font_path: Option<String>,
    pub font_size: Measure,
    pub line_height: Measure,
    pub letter_spacing: Measure,
    pub frame_style: FrameStyle,
    pub no_system_fonts: bool,
    pub theme: Theme,
    pub window_bar_title: Option<String>,
    pub window_bar_font_family: Option<String>,
    pub window_bar_font_size: Option<Measure>,
}

fn copy_text(t: &Option<String>) -> (r: Option<String>)
    ensures
        recording::opt_text(r) == recording::opt_text(*t),
{
    match t {
        Some(s) => Some(s.clone()),
        None => None,
    }
}

fn copy_theme(t: &Theme) -> (r: Theme)
    ensures
        r == *t,
{
    Theme {
        palette: t.palette,
        foreground: t.foreground,
        background: t.background,
        cursor: t.cursor,
        cursor_accent: t.cursor_accent,
        selection: t.selection,
    }
}

/// How a PNG screenshot is drawn: as the settings say, with all fonts.
pub fn png_options(s: &Settings) -> (r: RenderOptions)
    ensures
        recording::opt_text(r.font_path) == recording::opt_text(s.font_family),
        r.font_size == s.font_size,
        r.line_height == s.line_height,
        r.letter_spacing == s.letter_spacing,
        r.frame_style == options::styled(*s),
        !r.no_system_fonts,
        r.theme == s.theme,
        recording::opt_text(r.window_bar_title) == recording::opt_text(s.window_bar_title),
        recording::opt_text(r.window_bar_font_family) == recording::opt_text(
            s.window_bar_font_family,
        ),
        r.window_bar_font_size == s.window_bar_font_size,
{
    RenderOptions {
        font_path: copy_text(&s.font_family),
        font_size: s.font_size,
        line_height: s.line_height,
        letter_spacing: s.letter_spacing,
        frame_style: frame_style(s),
        no_system_fonts: false,
        theme: copy_theme(&s.theme),
        window_bar_title: copy_text(&s.window_bar_title),
        window_bar_font_family: copy_text(&s.window_bar_font_family),
        window_bar_font_size: s.window_bar_font_size,
    }
}

/// How an SVG screenshot is drawn: as the settings say, without animations.
pub fn svg_options(s: &Settings) -> (r: SvgOptions)
    ensures
        recording::opt_text(r.font_path) == recording::opt_text(s.font_family),
        r.font_family@ == svg::default_families(),
        r.font_size == s.font_size,
        r.is_screenshot,
        r.embed_fonts,
        !r.no_system_fonts,
        recording::opt_text(r.window_bar_title) == recording::opt_text(s.window_bar_title),
        recording::opt_text(r.window_bar_font_family) == recording::opt_text(
            s.window_bar_font_family,
        ),
        r.window_bar_font_size == s.window_bar_font_size,
{
    let mut o: SvgOptions = SvgOptions::default();
    o.font_path = copy_text(&s.font_family);
    o.font_size = s.font_size;
    o.is_screenshot = true;
    o.window_bar_title = copy_text(&s.window_bar_title);
    o.window_bar_font_family = copy_text(&s.window_bar_font_family);
    o.window_bar_font_size = s.window_bar_font_size;
    o
}

} // verus!
