//! Taking a frame from the terminal: its cells, and whether the cursor is shown as
//! it blinks.
use vstd::prelude::*;
use vstd::string::*;

use crate::nanos::{Nanos, MILLI};
use crate::recording;
use crate::recording::{CellSnap, CellSnapView, RawFrame};
use crate::style::Rgb;
use crate::style_flags;

verus! {

/// After the cursor has been stationary for this long, it blinks again.
pub const CURSOR_BLINK_RESTART_DELAY: u128 = 300_000_000;

/// Milliseconds for which the cursor is shown, and then hidden.
pub const CURSOR_BLINK_HALF_PERIOD_MS: u128 = 300;

/// A cell as the terminal reports it.
#[derive(Debug, Clone)]
pub struct CellReading {
    pub text: String,
    pub fg: Option<Rgb>,
    pub bg: Option<Rgb>,
    pub bold: bool,
    pub italic: bool,
    pub inverse: bool,
    pub strikethrough: bool,
    pub faint: bool,
    /// Underlined in any way.
    pub underline: bool,
}

/// What the terminal shows.
#[derive(Debug, Clone)]
pub struct ScreenReading {
    pub rows: Vec<Vec<CellReading>>,
    pub foreground: Rgb,
    pub background: Rgb,
    pub cursor_color: Option<Rgb>,
    pub cursor_visible: bool,
    pub cursor_viewport: Option<(u16, u16)>,
    pub title: Option<String>,
}

/// What is known of the cursor from earlier frames.
#[derive(Debug, Clone, Copy)]
pub struct BlinkState {
    /// When the cursor last moved.
    pub last_cursor_moved_at: Option<Nanos>,
    /// Where it was, if it was visible.
    pub prev_cursor_pos: Option<(u16, u16)>,
}

/// Whether a cursor that blinks from time zero on is shown.
pub open spec fn visible_at(at: Nanos) -> bool {
    ((at / MILLI) / CURSOR_BLINK_HALF_PERIOD_MS) % 2 == 0
}

/// Whether a cursor that blinks from time zero on is shown: 300 ms visible, 300 ms
/// hidden.
pub fn cursor_visible_at(at: Nanos) -> (r: bool)
    ensures
        r == visible_at(at),
{
    ((at / MILLI) / CURSOR_BLINK_HALF_PERIOD_MS) % 2 == 0
}

/// A cursor that blinks is shown again after a whole period, and not after half of
/// one.
pub proof fn lemma_blink_period(at: Nanos)
    requires
        at <= u128::MAX - 600 * MILLI,
    ensures
        visible_at((at + 600 * MILLI) as u128) == visible_at(at),
        visible_at((at + 300 * MILLI) as u128) != visible_at(at),
{
}

/// Flags of a cell.
pub open spec fn flags_of(c: CellReading) -> u8 {
    let f0 = 0u8;
    let f1 = if c.bold {
        f0 | style_flags::BOLD
    } else {
        f0
    };
    let f2 = if c.italic {
        f1 | style_flags::ITALIC
    } else {
        f1
    };
    let f3 = if c.inverse {
        f2 | style_flags::INVERSE
    } else {
        f2
    };
    let f4 = if c.strikethrough {
        f3 | style_flags::STRIKETHROUGH
    } else {
        f3
    };
    let f5 = if c.faint {
        f4 | style_flags::DIM
    } else {
        f4
    };
    if c.underline {
        f5 | style_flags::UNDERLINE
    } else {
        f5
    }
}

/// Each flag is set exactly if the terminal says so.
pub proof fn lemma_flags(c: CellReading)
    ensures
        (flags_of(c) & style_flags::BOLD != 0) == c.bold,
        (flags_of(c) & style_flags::ITALIC != 0) == c.italic,
        (flags_of(c) & style_flags::INVERSE != 0) == c.inverse,
        (flags_of(c) & style_flags::STRIKETHROUGH != 0) == c.strikethrough,
        (flags_of(c) & style_flags::DIM != 0) == c.faint,
        (flags_of(c) & style_flags::UNDERLINE != 0) == c.underline,
{
    let b1 = c.bold;
    let b2 = c.italic;
    let b3 = c.inverse;
    let b4 = c.strikethrough;
    let b5 = c.faint;
    let b6 = c.underline;
    let f1 = if b1 {
        0u8 | 1u8
    } else {
        0u8
    };
    let f2 = if b2 {
        f1 | 2u8
    } else {
        f1
    };
    let f3 = if b3 {
        f2 | 16u8
    } else {
        f2
    };
    let f4 = if b4 {
        f3 | 8u8
    } else {
        f3
    };
    let f5 = if b5 {
        f4 | 32u8
    } else {
        f4
    };
    let f6 = if b6 {
        f5 | 4u8
    } else {
        f5
    };
    assert(f6 == flags_of(c));
    assert((f6 & 1 != 0) == b1 && (f6 & 2 != 0) == b2 && (f6 & 16 != 0) == b3 && (f6 & 8 != 0)
        == b4 && (f6 & 32 != 0) == b5 && (f6 & 4 != 0) == b6) by (bit_vector)
        requires
            f1 == (if b1 {
                0u8 | 1u8
            } else {
                0u8
            }),
            f2 == (if b2 {
                f1 | 2u8
            } else {
                f1
            }),
            f3 == (if b3 {
                f2 | 16u8
            } else {
                f2
            }),
            f4 == (if b4 {
                f3 | 8u8
            } else {
                f3
            }),
            f5 == (if b5 {
                f4 | 32u8
            } else {
                f4
            }),
            f6 == (if b6 {
                f5 | 4u8
            } else {
                f5
            }),
    ;
}

fn cell_flags(c: &CellReading) -> (r: u8)
    ensures
        r == flags_of(*c),
{
    let mut flags: u8 = 0;
    if c.bold {
        flags = flags | style_flags::BOLD;
    }
    if c.italic {
        flags = flags | style_flags::ITALIC;
    }
    if c.inverse {
        flags = flags | style_flags::INVERSE;
    }
    if c.strikethrough {
        flags = flags | style_flags::STRIKETHROUGH;
    }
    if c.faint {
        flags = flags | style_flags::DIM;
    }
    if c.underline {
        flags = flags | style_flags::UNDERLINE;
    }
    flags
}

/// A cell of the frame: what the terminal reports there, or a blank.
pub open spec fn snapped(s: ScreenReading, col: int, row: int) -> CellSnapView {
    if 0 <= row < s.rows@.len() && 0 <= col < s.rows@[row]@.len() {
        let c = s.rows@[row]@[col];
        CellSnapView {
            text: c.text@,
            fg: match c.fg {
                Some(x) => x,
                None => s.foreground,
            },
            bg: match c.bg {
                Some(x) => x,
                None => s.background,
            },
            flags: flags_of(c),
        }
    } else {
        CellSnapView { text: Seq::empty(), fg: s.foreground, bg: s.background, flags: 0 }
    }
}

/// Where the terminal shows its cursor.
pub open spec fn cursor_at(s: ScreenReading) -> Option<(u16, u16)> {
    if s.cursor_visible {
        s.cursor_viewport
    } else {
        None
    }
}

/// What a frame adds to what is known of the cursor.
pub open spec fn blink_after(b: BlinkState, pos: Option<(u16, u16)>, at: Nanos) -> BlinkState {
    BlinkState {
        last_cursor_moved_at: if pos is Some && pos != b.prev_cursor_pos {
            Some(at)
        } else {
            b.last_cursor_moved_at
        },
        prev_cursor_pos: pos,
    }
}

/// Whether a cursor that moved last at `moved` is shown: always for a while, then
/// blinking.
pub open spec fn shows_cursor(moved: Option<Nanos>, at: Nanos, blink: bool) -> bool {
    !blink || match moved {
        None => visible_at(at),
        Some(m) => if m > at || at - m < CURSOR_BLINK_RESTART_DELAY {
            true
        } else {
            visible_at((at - m - CURSOR_BLINK_RESTART_DELAY) as u128)
        },
    }
}

/// A cursor that just moved is shown.
pub proof fn lemma_moving_cursor_shown(b: BlinkState, pos: (u16, u16), at: Nanos, blink: bool)
    requires
        b.prev_cursor_pos != Some(pos),
    ensures
        shows_cursor(blink_after(b, Some(pos), at).last_cursor_moved_at, at, blink),
{
}

/// Whether `f` is the frame that the terminal shows.
pub open spec fn is_capture(
    f: RawFrame,
    s: ScreenReading,
    at: Nanos,
    cols: u16,
    rows: u16,
    blink: bool,
    moved: Option<Nanos>,
    cursor_accent: Option<Rgb>,
) -> bool {
    &&& f.t_ms == ((at / MILLI) % 0x1_0000_0000) as u32
    &&& f.cols == cols
    &&& f.rows == rows
    &&& f.wf()
    &&& forall|col: int, row: int|
        0 <= col < cols && 0 <= row < rows ==> #[trigger] f.cell(col, row) == snapped(s, col, row)
    &&& f.cursor == (if shows_cursor(moved, at, blink) {
        cursor_at(s)
    } else {
        None
    })
    &&& f.default_fg == s.foreground
    &&& f.default_bg == s.background
    &&& f.cursor_color == s.cursor_color
    &&& f.cursor_accent == cursor_accent
    &&& f.mouse_cursor is None
    &&& recording::opt_text(f.title) == recording::opt_text(s.title)
}

/// A cell of a captured frame is what the terminal reports there. It has the reported
/// colours, and the default ones only where none is reported; it has the reported text,
/// and each attribute exactly if it is reported.
pub proof fn lemma_captured_cell(
    f: RawFrame,
    s: ScreenReading,
    at: Nanos,
    cols: u16,
    rows: u16,
    blink: bool,
    moved: Option<Nanos>,
    cursor_accent: Option<Rgb>,
    col: int,
    row: int,
)
    requires
        is_capture(f, s, at, cols, rows, blink, moved, cursor_accent),
        0 <= col < cols,
        0 <= row < rows,
        row < s.rows@.len(),
        col < s.rows@[row]@.len(),
    ensures
        ({
            let read = s.rows@[row]@[col];
            let cell = f.cells@[row * cols + col];
            &&& read.fg matches Some(c) ==> cell.fg == c
            &&& read.fg is None ==> cell.fg == s.foreground
            &&& read.bg matches Some(c) ==> cell.bg == c
            &&& read.bg is None ==> cell.bg == s.background
            &&& cell.text@ == read.text@
            &&& (cell.flags & style_flags::BOLD != 0) == read.bold
            &&& (cell.flags & style_flags::ITALIC != 0) == read.italic
            &&& (cell.flags & style_flags::INVERSE != 0) == read.inverse
            &&& (cell.flags & style_flags::STRIKETHROUGH != 0) == read.strikethrough
            &&& (cell.flags & style_flags::DIM != 0) == read.faint
            &&& (cell.flags & style_flags::UNDERLINE != 0) == read.underline
        }),
{
    assert(f.cell(col, row) == snapped(s, col, row));
    lemma_flags(s.rows@[row]@[col]);
}

/// A cell of which the terminal reports nothing is blank, in the default colours.
pub proof fn lemma_captured_blank(
    f: RawFrame,
    s: ScreenReading,
    at: Nanos,
    cols: u16,
    rows: u16,
    blink: bool,
    moved: Option<Nanos>,
    cursor_accent: Option<Rgb>,
    col: int,
    row: int,
)
    requires
        is_capture(f, s, at, cols, rows, blink, moved, cursor_accent),
        0 <= col < cols,
        0 <= row < rows,
        row >= s.rows@.len() || col >= s.rows@[row]@.len(),
    ensures
        f.cells@[row * cols + col].text@.len() == 0,
        f.cells@[row * cols + col].fg == s.foreground,
        f.cells@[row * cols + col].bg == s.background,
        f.cells@[row * cols + col].flags == 0,
{
    assert(f.cell(col, row) == snapped(s, col, row));
}

/// A captured frame says when it was taken, how large the grid is, which colours are the
/// default ones and what the title is, all as the terminal has them. Its cursor is
/// nowhere but where the terminal shows its own, and it is there unless it blinks.
pub proof fn lemma_captured_frame(
    f: RawFrame,
    s: ScreenReading,
    at: Nanos,
    cols: u16,
    rows: u16,
    blink: bool,
    moved: Option<Nanos>,
    cursor_accent: Option<Rgb>,
)
    requires
        is_capture(f, s, at, cols, rows, blink, moved, cursor_accent),
    ensures
        at < 0x1_0000_0000 * MILLI ==> f.t_ms * MILLI <= at < (f.t_ms + 1) * MILLI,
        f.cols == cols,
        f.rows == rows,
        f.cells@.len() == cols * rows,
        f.default_fg == s.foreground,
        f.default_bg == s.background,
        f.cursor_color == s.cursor_color,
        f.cursor_accent == cursor_accent,
        f.mouse_cursor is None,
        (f.title is Some) == (s.title is Some),
        s.title matches Some(t) ==> f.title->0@ == t@,
        f.cursor is Some ==> s.cursor_visible && f.cursor == s.cursor_viewport,
        !blink && s.cursor_visible ==> f.cursor == s.cursor_viewport,
        moved matches Some(m) && m <= at < m + 300 * MILLI && s.cursor_visible ==> f.cursor
            == s.cursor_viewport,
{
}

/// What is known of the cursor after a frame: where it was seen then, and when it came
/// there. A cursor that stays where it was did not move, and one that is not seen is
/// nowhere.
pub proof fn lemma_cursor_followed(b: BlinkState, s: ScreenReading, at: Nanos)
    ensures
        ({
            let after = blink_after(b, cursor_at(s), at);
            &&& s.cursor_visible ==> after.prev_cursor_pos == s.cursor_viewport
            &&& !s.cursor_visible ==> after.prev_cursor_pos is None
            &&& after.prev_cursor_pos is None || after.prev_cursor_pos == b.prev_cursor_pos
                ==> after.last_cursor_moved_at == b.last_cursor_moved_at
            &&& after.prev_cursor_pos is Some && after.prev_cursor_pos != b.prev_cursor_pos
                ==> after.last_cursor_moved_at == Some(at)
        }),
{
}

fn snap(s: &ScreenReading, col: usize, row: usize) -> (r: CellSnap)
    ensures
        r@ == snapped(*s, col as int, row as int),
{
    if row < s.rows.len() && col < s.rows[row].len() {
        let c: &CellReading = &s.rows[row][col];
        CellSnap {
            text: c.text.clone(),
            fg: match c.fg {
                Some(x) => x,
                None => s.foreground,
            },
            bg: match c.bg {
                Some(x) => x,
                None => s.background,
            },
            flags: cell_flags(c),
        }
    } else {
        CellSnap::blank(s.foreground, s.background)
    }
}

fn is_shown(moved: Option<Nanos>, at: Nanos, blink: bool) -> (r: bool)
    ensures
        r == shows_cursor(moved, at, blink),
{
    if !blink {
        return true;
    }
    match moved {
        None => cursor_visible_at(at),
        Some(m) => {
            if m > at || at - m < CURSOR_BLINK_RESTART_DELAY {
                true
            } else {
                cursor_visible_at(at - m - CURSOR_BLINK_RESTART_DELAY)
            }
        },
    }
}

fn same_pos(a: Option<(u16, u16)>, b: Option<(u16, u16)>) -> (r: bool)
    ensures
        r == (a == b),
{
    match (a, b) {
        (Some(x), Some(y)) => x.0 == y.0 && x.1 == y.1,
        (None, None) => true,
        _ => false,
    }
}

fn read_cells(s: &ScreenReading, cols: u16, rows: u16) -> (cells: Vec<CellSnap>)
    ensures
        cells@.len() == cols * rows,
        forall|col: int, row: int|
            0 <= col < cols && 0 <= row < rows ==> #[trigger] cells@[row * cols + col]@ == snapped(
                *s,
                col,
                row,
            ),
{
    let mut cells: Vec<CellSnap> = Vec::new();
    let mut row: u16 = 0;
    assert(0int * cols == 0) by (nonlinear_arith);
    while row < rows
        invariant
            row <= rows,
            cells@.len() == row * cols,
            forall|c: int, w: int|
                0 <= c < cols && 0 <= w < row ==> #[trigger] cells@[w * cols + c]@ == snapped(
                    *s,
                    c,
                    w,
                ),
        decreases rows - row,
    {
        let mut col: u16 = 0;
        while col < cols
            invariant
                row < rows,
                col <= cols,
                cells@.len() == row * cols + col,
                forall|c: int, w: int|
                    0 <= c < cols && 0 <= w < row ==> #[trigger] cells@[w * cols + c]@ == snapped(
                        *s,
                        c,
                        w,
                    ),
                forall|c: int|
                    0 <= c < col ==> #[trigger] cells@[row * cols + c]@ == snapped(
                        *s,
                        c,
                        row as int,
                    ),
            decreases cols - col,
        {
            let ghost before = cells@;
            let c: CellSnap = snap(s, col as usize, row as usize);
            cells.push(c);
            proof {
                assert forall|x: int, w: int| 0 <= x < cols && 0 <= w < row implies
                    #[trigger] cells@[w * cols + x]@ == snapped(*s, x, w) by {
                    assert(w * cols + x < row * cols && 0 <= w * cols + x) by (nonlinear_arith)
                        requires
                            0 <= x < cols,
                            0 <= w < row,
                    ;
                    assert(cells@[w * cols + x] == before[w * cols + x]);
                }
                assert forall|x: int| 0 <= x < col + 1 implies #[trigger] cells@[row * cols + x]@
                    == snapped(*s, x, row as int) by {
                    if x < col {
                        assert(0 <= row * cols) by (nonlinear_arith);
                        assert(cells@[row * cols + x] == before[row * cols + x]);
                    }
                }
            }
            col = col + 1;
        }
        proof {
            assert(row * cols + cols == (row + 1) * cols) by (nonlinear_arith);
            assert forall|x: int, w: int| 0 <= x < cols && 0 <= w < row + 1 implies
                #[trigger] cells@[w * cols + x]@ == snapped(*s, x, w) by {}
        }
        row = row + 1;
    }
    assert(rows * cols == cols * rows) by (nonlinear_arith);
    cells
}

/// The frame that the terminal shows, and where its cursor is before blinking.
pub fn capture(
    s: &ScreenReading,
    at: Nanos,
    cols: u16,
    rows: u16,
    cursor_blink: bool,
    blink: &mut BlinkState,
    cursor_accent: Option<Rgb>,
) -> (r: (RawFrame, Option<(u16, u16)>))
    ensures
        *final(blink) == blink_after(*old(blink), cursor_at(*s), at),
        r.1 == cursor_at(*s),
        is_capture(
            r.0,
            *s,
            at,
            cols,
            rows,
            cursor_blink,
            final(blink).last_cursor_moved_at,
            cursor_accent,
        ),
{
    let cells: Vec<CellSnap> = read_cells(s, cols, rows);
    let pos: Option<(u16, u16)> = if s.cursor_visible {
        s.cursor_viewport
    } else {
        None
    };
    if pos.is_some() && !same_pos(pos, blink.prev_cursor_pos) {
        blink.last_cursor_moved_at = Some(at);
    }
    blink.prev_cursor_pos = pos;
    let cursor: Option<(u16, u16)> = if is_shown(blink.last_cursor_moved_at, at, cursor_blink) {
        pos
    } else {
        None
    };
    let title: Option<String> = match &s.title {
        Some(t) => Some(t.clone()),
        None => None,
    };
    let f: RawFrame = RawFrame {
        t_ms: ((at / MILLI) % 0x1_0000_0000) as u32,
        cols,
        rows,
        cursor,
        default_fg: s.foreground,
        default_bg: s.background,
        cursor_color: s.cursor_color,
        cursor_accent,
        mouse_cursor: None,
        title,
        cells,
    };
    (f, pos)
}

} // verus!
