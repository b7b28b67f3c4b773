//! What a recording holds: cells, frames and the mouse.
use vstd::prelude::*;
use vstd::string::*;

use crate::single::Measure;
use crate::style::{same_rgb, FrameStyle, Rgb};
use crate::text::same_text;
use crate::viewport::ViewportConfig;

verus! {

/// One cell of the grid as it was captured.
#[derive(Debug, Clone)]
pub struct CellSnap {
    pub text: String,
    pub fg: Rgb,
    pub bg: Rgb,
    pub flags: u8,
}

pub struct CellSnapView {
    pub text: Seq<char>,
    pub fg: Rgb,
    pub bg: Rgb,
    pub flags: u8,
}

impl View for CellSnap {
    type V = CellSnapView;

    open spec fn view(&self) -> CellSnapView {
        CellSnapView { text: self.text@, fg: self.fg, bg: self.bg, flags: self.flags }
    }
}

impl CellSnap {
    /// A cell without text.
    pub fn blank(fg: Rgb, bg: Rgb) -> (r: CellSnap)
        ensures
            r@ == (CellSnapView { text: Seq::empty(), fg, bg, flags: 0 }),
    {
        CellSnap { text: String::new(), fg, bg, flags: 0 }
    }
}

/// What the mouse does.
#[derive(Debug, Clone, Copy, PartialEq, Eq, Structural)]
pub enum MouseState {
    Moving,
    Clicking,
    Dragging,
}

/// One frame of the terminal: its grid and what lies over it.
#[derive(Debug, Clone)]
pub struct RawFrame {
    pub t_ms: u32,
    pub cols: u16,
    pub rows: u16,
    pub cursor: Option<(u16, u16)>,
    pub default_fg: Rgb,
    pub default_bg: Rgb,
    pub cursor_color: Option<Rgb>,
    pub cursor_accent: Option<Rgb>,
    pub mouse_cursor: Option<(Measure, Measure, MouseState)>,
    pub title: Option<String>,
    pub cells: Vec<CellSnap>,
}

impl RawFrame {
    /// The grid holds one cell for each column of each row.
    pub open spec fn wf(&self) -> bool {
        self.cells@.len() == self.cols * self.rows
    }

    /// The cell at `col`, `row`.
    pub open spec fn cell(&self, col: int, row: int) -> CellSnapView {
        self.cells@[row * self.cols + col]@
    }
}

/// Views of an optional text.
pub open spec fn opt_text(t: Option<String>) -> Option<Seq<char>> {
    match t {
        Some(s) => Some(s@),
        None => None,
    }
}

/// Whether two frames look the same, whenever they were taken.
pub open spec fn alike(a: RawFrame, b: RawFrame) -> bool {
    &&& a.cols == b.cols
    &&& a.rows == b.rows
    &&& a.cursor == b.cursor
    &&& a.default_fg == b.default_fg
    &&& a.default_bg == b.default_bg
    &&& a.cursor_color == b.cursor_color
    &&& a.cursor_accent == b.cursor_accent
    &&& a.mouse_cursor == b.mouse_cursor
    &&& opt_text(a.title) == opt_text(b.title)
    &&& a.cells@.len() == b.cells@.len()
    &&& forall|i: int| 0 <= i < a.cells@.len() ==> (#[trigger] a.cells@[i])@ == b.cells@[i]@
}

/// Frames that look alike show the same: the same text in the same colours and with the
/// same attributes in each cell, the same cursor, mouse and title.
pub proof fn lemma_alike(a: RawFrame, b: RawFrame, i: int)
    requires
        alike(a, b),
        0 <= i < a.cells@.len(),
    ensures
        a.cols == b.cols && a.rows == b.rows && a.cells@.len() == b.cells@.len(),
        a.cells@[i].text@ == b.cells@[i].text@,
        a.cells@[i].fg == b.cells@[i].fg,
        a.cells@[i].bg == b.cells@[i].bg,
        a.cells@[i].flags == b.cells@[i].flags,
        a.cursor == b.cursor,
        a.cursor_color == b.cursor_color,
        a.cursor_accent == b.cursor_accent,
        a.mouse_cursor == b.mouse_cursor,
        a.default_fg == b.default_fg,
        a.default_bg == b.default_bg,
        (a.title is Some) == (b.title is Some),
        a.title matches Some(t) ==> b.title->0@ == t@,
{
    assert(a.cells@[i]@ == b.cells@[i]@);
}

/// Whether two cells are the same.
pub fn same_cell(a: &CellSnap, b: &CellSnap) -> (r: bool)
    ensures
        r == (a@ == b@),
{
    same_text(a.text.as_str(), b.text.as_str()) && same_rgb(a.fg, b.fg) && same_rgb(a.bg, b.bg)
        && a.flags == b.flags
}

/// Whether two titles are the same.
pub fn same_title(a: &Option<String>, b: &Option<String>) -> (r: bool)
    ensures
        r == (opt_text(*a) == opt_text(*b)),
{
    match (a, b) {
        (Some(x), Some(y)) => same_text(x.as_str(), y.as_str()),
        (None, None) => true,
        _ => false,
    }
}

fn same_cursor(a: Option<(u16, u16)>, b: Option<(u16, u16)>) -> (r: bool)
    ensures
        r == (a == b),
{
    match (a, b) {
        (Some(x), Some(y)) => x.0 == y.0 && x.1 == y.1,
        (None, None) => true,
        _ => false,
    }
}

fn same_opt_rgb(a: Option<Rgb>, b: Option<Rgb>) -> (r: bool)
    ensures
        r == (a == b),
{
    match (a, b) {
        (Some(x), Some(y)) => same_rgb(x, y),
        (None, None) => true,
        _ => false,
    }
}

fn same_mouse(
    a: Option<(Measure, Measure, MouseState)>,
    b: Option<(Measure, Measure, MouseState)>,
) -> (r: bool)
    ensures
        r == (a == b),
{
    match (a, b) {
        (Some(x), Some(y)) => x.0 == y.0 && x.1 == y.1 && x.2 == y.2,
        (None, None) => true,
        _ => false,
    }
}

impl RawFrame {
    /// Whether two frames look the same, whenever they were taken.
    pub fn is_visually_identical(&self, other: &RawFrame) -> (r: bool)
        ensures
            r == alike(*self, *other),
    {
        if !(self.cols == other.cols && self.rows == other.rows && same_cursor(
            self.cursor,
            other.cursor,
        ) && same_rgb(self.default_fg, other.default_fg) && same_rgb(
            self.default_bg,
            other.default_bg,
        ) && same_opt_rgb(self.cursor_color, other.cursor_color) && same_opt_rgb(
            self.cursor_accent,
            other.cursor_accent,
        ) && same_mouse(self.mouse_cursor, other.mouse_cursor) && same_title(
            &self.title,
            &other.title,
        ) && self.cells.len() == other.cells.len()) {
            return false;
        }
        let mut i: usize = 0;
        while i < self.cells.len()
            invariant
                self.cells@.len() == other.cells@.len(),
                i <= self.cells@.len(),
                forall|k: int| 0 <= k < i ==> (#[trigger] self.cells@[k])@ == other.cells@[k]@,
            decreases self.cells@.len() - i,
        {
            if !same_cell(&self.cells[i], &other.cells[i]) {
                assert(self.cells@[i as int]@ != other.cells@[i as int]@);
                return false;
            }
            i = i + 1;
        }
        true
    }
}

/// A recorded session: its grid and font, and its frames as far as they could be
/// reconstructed.
#[derive(Debug, Clone)]
pub struct Recording {
    pub cols: u16,
    pub rows: u16,
    pub framerate: u32,
    pub cell_width_px: u32,
    pub cell_height_px: u32,
    pub frame_style: FrameStyle,
    pub font_size_px: Measure,
    pub char_height_px: u32,
    pub ascent_px: u32,
    pub letter_spacing: Measure,
    pub frames: Vec<Option<RawFrame>>,
}

/// The first frame, from `i` on, that is missing.
pub open spec fn missing_frame(frames: Seq<Option<RawFrame>>, i: int) -> Option<int>
    decreases frames.len() - i,
{
    if i < 0 || i >= frames.len() {
        None
    } else if frames[i] is None {
        Some(i)
    } else {
        missing_frame(frames, i + 1)
    }
}

/// The frame that is missing is the first that is: none before it is. Where none is
/// found, none is missing.
pub proof fn lemma_missing_frame(frames: Seq<Option<RawFrame>>, i: int)
    requires
        0 <= i,
    ensures
        match missing_frame(frames, i) {
            Some(n) => i <= n < frames.len() && frames[n] is None && forall|k: int|
                i <= k < n ==> (#[trigger] frames[k]) is Some,
            None => forall|k: int| i <= k < frames.len() ==> (#[trigger] frames[k]) is Some,
        },
    decreases frames.len() - i,
{
    if i < frames.len() && frames[i] is Some {
        lemma_missing_frame(frames, i + 1);
    }
}

/// The frames of a recording that lacks none.
pub open spec fn present_frames(frames: Seq<Option<RawFrame>>) -> Seq<RawFrame> {
    Seq::new(frames.len(), |i: int| frames[i]->0)
}

impl Recording {
    /// The grid and font of the recording.
    pub open spec fn spec_viewport(&self) -> ViewportConfig {
        ViewportConfig {
            cols: self.cols,
            rows: self.rows,
            framerate: self.framerate,
            cell_width_px: self.cell_width_px,
            cell_height_px: self.cell_height_px,
            frame_style: self.frame_style,
            font_size_px: self.font_size_px,
            char_height_px: self.char_height_px,
            ascent_px: self.ascent_px,
            letter_spacing: self.letter_spacing,
        }
    }

    /// The grid and font of the recording.
    pub fn viewport(&self) -> (r: ViewportConfig)
        ensures
            r == self.spec_viewport(),
    {
        ViewportConfig {
            cols: self.cols,
            rows: self.rows,
            framerate: self.framerate,
            cell_width_px: self.cell_width_px,
            cell_height_px: self.cell_height_px,
            frame_style: self.frame_style,
            font_size_px: self.font_size_px,
            char_height_px: self.char_height_px,
            ascent_px: self.ascent_px,
            letter_spacing: self.letter_spacing,
        }
    }

    /// All frames; the place of the first missing one, if one is missing.
    pub fn take_frames(self) -> (r: Result<Vec<RawFrame>, usize>)
        ensures
            match r {
                Ok(v) => missing_frame(self.frames@, 0) is None && v@ == present_frames(
                    self.frames@,
                ),
                Err(i) => missing_frame(self.frames@, 0) == Some(i as int),
            },
    {
        let ghost all = self.frames@;
        let mut rest: Vec<Option<RawFrame>> = self.frames;
        let mut out: Vec<RawFrame> = Vec::new();
        let mut i: usize = 0;
        let total: usize = rest.len();
        assert(all.skip(0) =~= all);
        while rest.len() > 0
            invariant
                i + rest@.len() == all.len(),
                rest@ == all.skip(i as int),
                out@.len() == i,
                forall|k: int| 0 <= k < i ==> #[trigger] all[k] == Some(out@[k]),
                missing_frame(all, 0) == missing_frame(all, i as int),
                all == self.frames@,
                all.len() == total,
            decreases rest@.len(),
        {
            assert(rest@[0] == all[i as int]);
            let f: Option<RawFrame> = rest.remove(0);
            assert(rest@ =~= all.skip(i + 1));
            match f {
                Some(x) => {
                    out.push(x);
                },
                None => {
                    return Err(i);
                },
            }
            i = i + 1;
        }
        assert(out@ =~= present_frames(all)) by {
            assert forall|k: int| 0 <= k < all.len() implies out@[k] == #[trigger] present_frames(
                all,
            )[k] by {
                assert(all[k] == Some(out@[k]));
            }
        }
        Ok(out)
    }
}

} // verus!
