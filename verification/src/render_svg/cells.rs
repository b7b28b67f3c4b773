//! From frames to the time spans during which each cell looks the same.
use vstd::prelude::*;
use vstd::string::*;

use unicode_width::UnicodeWidthChar;

use crate::recording::{CellSnap, CellSnapView, RawFrame};
use crate::sort::Order;
use crate::sort;
use crate::style;
use crate::style::{dim_color, same_rgb, Rgb};
use crate::style_flags;
use crate::text;
use crate::text::{same_text, to_chars};

verus! {

/// Number of columns that the tables of `unicode_width` give a character; none
/// for a control character.
pub uninterp spec fn char_columns(c: char) -> Option<usize>;

/// `unicode_width::UnicodeWidthChar::width` looks the character up in fixed
/// tables, so its result is a function of the character.
#[verifier::external_body]
fn char_width(c: char) -> (r: Option<usize>)
    ensures
        r == char_columns(c),
{
    c.width()
}

/// Whether a character takes up two columns.
pub open spec fn is_wide(c: char) -> bool {
    char_columns(c) == Some(2usize)
}

pub fn is_wide_char(c: char) -> (r: bool)
    ensures
        r == is_wide(c),
{
    match char_width(c) {
        Some(n) => n == 2,
        None => false,
    }
}

/// Visual state of a single cell, used for telling changes across frames.
#[derive(Debug, Clone)]
pub struct CellVisual {
    pub text: String,
    pub fg: Rgb,
    pub bg: Rgb,
    pub flags: u8,
}

#[verifier::ext_equal]
pub struct CellVisualView {
    pub text: Seq<char>,
    pub fg: Rgb,
    pub bg: Rgb,
    pub flags: u8,
}

impl View for CellVisual {
    type V = CellVisualView;

    open spec fn view(&self) -> CellVisualView {
        CellVisualView { text: self.text@, fg: self.fg, bg: self.bg, flags: self.flags }
    }
}

/// Foreground and background as they are painted: swapped if inverse, the
/// foreground dimmed if dim.
pub open spec fn painted_colors(cell: CellSnapView) -> (Rgb, Rgb) {
    let inverse = cell.flags & style_flags::INVERSE != 0;
    let fg = if inverse {
        cell.bg
    } else {
        cell.fg
    };
    let bg = if inverse {
        cell.fg
    } else {
        cell.bg
    };
    if cell.flags & style_flags::DIM != 0 {
        (style::dimmed(fg, bg), bg)
    } else {
        (fg, bg)
    }
}

/// A cell whose colours are inverted has its foreground painted behind the text, and the
/// text in its background; any other has its background painted behind, and the text in
/// its foreground. Text that is dim is half way between the two, channel by channel.
pub proof fn lemma_painted_colors(cell: CellSnapView)
    ensures
        ({
            let (text, behind) = painted_colors(cell);
            let inverse = cell.flags & style_flags::INVERSE != 0;
            let dim = cell.flags & style_flags::DIM != 0;
            &&& inverse ==> behind == cell.fg
            &&& !inverse ==> behind == cell.bg
            &&& inverse && !dim ==> text == cell.bg
            &&& !inverse && !dim ==> text == cell.fg
            &&& dim ==> forall|k: int|
                0 <= k < 3 ==> (#[trigger] text[k]) == (cell.fg[k] + cell.bg[k]) / 2
        }),
{
}

pub fn effective_colors(cell: &CellSnap) -> (r: (Rgb, Rgb))
    ensures
        r == painted_colors(cell@),
        cell.flags & style_flags::INVERSE != 0 ==> r.1 == cell.fg,
        cell.flags & style_flags::INVERSE == 0 ==> r.1 == cell.bg,
        cell.flags & style_flags::DIM == 0 && cell.flags & style_flags::INVERSE != 0 ==> r.0
            == cell.bg,
        cell.flags & style_flags::DIM == 0 && cell.flags & style_flags::INVERSE == 0 ==> r.0
            == cell.fg,
{
    let inverse: bool = cell.flags & style_flags::INVERSE != 0;
    let fg: Rgb = if inverse {
        cell.bg
    } else {
        cell.fg
    };
    let bg: Rgb = if inverse {
        cell.fg
    } else {
        cell.bg
    };
    if cell.flags & style_flags::DIM != 0 {
        (dim_color(fg, bg), bg)
    } else {
        (fg, bg)
    }
}

/// What a cell looks like.
pub open spec fn snap_visual(cell: CellSnapView) -> CellVisualView {
    CellVisualView {
        text: cell.text,
        fg: painted_colors(cell).0,
        bg: painted_colors(cell).1,
        flags: cell.flags,
    }
}

impl CellVisual {
    pub fn from_snap(cell: &CellSnap) -> (r: CellVisual)
        ensures
            r@ == snap_visual(cell@),
    {
        let (fg, bg) = effective_colors(cell);
        CellVisual { text: cell.text.clone(), fg, bg, flags: cell.flags }
    }

    pub fn is_blank(&self, default_bg: Rgb) -> (r: bool)
        ensures
            r == blank(self@, default_bg),
    {
        is_empty_text(self.text.as_str()) && same_rgb(self.bg, default_bg)
    }

    fn copy(&self) -> (r: CellVisual)
        ensures
            r@ == self@,
    {
        CellVisual { text: self.text.clone(), fg: self.fg, bg: self.bg, flags: self.flags }
    }

    fn is_same(&self, other: &CellVisual) -> (r: bool)
        ensures
            r == (self@ == other@),
    {
        let r: bool = same_text(self.text.as_str(), other.text.as_str()) && same_rgb(
            self.fg,
            other.fg,
        ) && same_rgb(self.bg, other.bg) && self.flags == other.flags;
        assert(r ==> self@ =~= other@);
        r
    }
}

/// Nothing to see: no text on the default background.
pub open spec fn blank(v: CellVisualView, default_bg: Rgb) -> bool {
    v.text.len() == 0 && v.bg == default_bg
}

fn is_empty_text(s: &str) -> (r: bool)
    ensures
        r == (s@.len() == 0),
{
    to_chars(s).len() == 0
}

/// Whether a cell shows anything.
pub open spec fn active(cell: CellSnapView, default_bg: Rgb) -> bool {
    cell.text.len() > 0 || cell.bg != default_bg
}

/// Whether a cell at or behind the place `i`, on the same row, shows anything.
pub open spec fn active_from(f: RawFrame, i: int) -> bool {
    exists|j: int|
        i <= j < (i / f.cols as int + 1) * f.cols && active(
            (#[trigger] f.cells@[j])@,
            f.default_bg,
        )
}

/// What the cell at the place `i` looks like. An empty cell before the last
/// active one of its row shows a space, unless a wide character reaches into it;
/// `wide` says which cells start with one.
pub open spec fn visual_at(f: RawFrame, wide: Seq<bool>, i: int) -> CellVisualView {
    let v = snap_visual(f.cells@[i]@);
    if v.text.len() == 0 && active_from(f, i) && !(i % f.cols as int > 0 && wide[i - 1]) {
        CellVisualView { text: " "@, ..v }
    } else {
        v
    }
}

/// What the cells of a frame look like, given which of them start with a wide
/// character.
pub open spec fn visuals_with(f: RawFrame, wide: Seq<bool>) -> Seq<CellVisualView> {
    Seq::new(f.cells@.len(), |i: int| visual_at(f, wide, i))
}

/// Whether each cell starts with a wide character.
pub open spec fn wide_starts(f: RawFrame) -> Seq<bool> {
    Seq::new(
        f.cells@.len(),
        |i: int| f.cells@[i].text@.len() > 0 && is_wide(f.cells@[i].text@[0]),
    )
}

/// What the cells of a frame look like.
pub open spec fn frame_visuals(f: RawFrame) -> Seq<CellVisualView> {
    visuals_with(f, wide_starts(f))
}

fn find_wide_starts(f: &RawFrame) -> (wide: Vec<bool>)
    ensures
        wide@ == wide_starts(*f),
{
    let mut wide: Vec<bool> = Vec::new();
    let mut i: usize = 0;
    while i < f.cells.len()
        invariant
            i <= f.cells@.len(),
            wide@.len() == i,
            forall|k: int| 0 <= k < i ==> wide@[k] == wide_starts(*f)[k],
        decreases f.cells@.len() - i,
    {
        let chars: Vec<char> = to_chars(f.cells[i].text.as_str());
        wide.push(chars.len() > 0 && is_wide_char(chars[0]));
        i = i + 1;
    }
    assert(wide@ =~= wide_starts(*f));
    wide
}

/// One row's share of [`visuals_given_wide`].
fn push_row_visuals(
    out: &mut Vec<CellVisual>,
    f: &RawFrame,
    wide: &Vec<bool>,
    row: usize,
)
    requires
        f.wf(),
        wide@.len() == f.cells@.len(),
        row < f.rows,
        old(out)@.len() == row * f.cols,
        sort::views(old(out)@) == visuals_with(*f, wide@).take(row * f.cols),
    ensures
        final(out)@.len() == (row + 1) * f.cols,
        sort::views(final(out)@) == visuals_with(*f, wide@).take((row + 1) * f.cols),
{
    let cols: usize = f.cols as usize;
    proof {
        assert(row * f.cols + f.cols == (row + 1) * f.cols) by (nonlinear_arith);
        assert((row + 1) * f.cols <= f.rows * f.cols) by (nonlinear_arith)
            requires
                row + 1 <= f.rows,
        ;
        assert(f.rows * f.cols == f.cols * f.rows) by (nonlinear_arith);
        assert(f.cols * f.rows <= 0xffff * 0xffff) by (nonlinear_arith)
            requires
                f.cols <= 0xffff,
                f.rows <= 0xffff,
        ;
        assert(0 <= row * f.cols) by (nonlinear_arith);
    }
    let start: usize = row * cols;
    let end: usize = start + cols;
    let mut last: usize = end;
    while last > start && !(!is_empty_text(f.cells[last - 1].text.as_str()) || !same_rgb(
        f.cells[last - 1].bg,
        f.default_bg,
    ))
        invariant
            start <= last <= end <= f.cells@.len(),
            forall|j: int| last <= j < end ==> !active((#[trigger] f.cells@[j])@, f.default_bg),
        decreases last,
    {
        last = last - 1;
    }
    let mut i: usize = start;
    let ghost want = visuals_with(*f, wide@);
    while i < end
        invariant
            f.wf(),
            wide@.len() == f.cells@.len(),
            want == visuals_with(*f, wide@),
            cols == f.cols,
            start == row * cols,
            end == start + cols,
            start <= i <= end <= f.cells@.len(),
            start <= last <= end,
            last > start ==> active(f.cells@[last - 1]@, f.default_bg),
            forall|j: int| last <= j < end ==> !active((#[trigger] f.cells@[j])@, f.default_bg),
            out@.len() == i,
            sort::views(out@) == want.take(i as int),
        decreases end - i,
    {
        let mut v: CellVisual = CellVisual::from_snap(&f.cells[i]);
        proof {
            vstd::arithmetic::div_mod::lemma_fundamental_div_mod_converse(
                i as int,
                cols as int,
                row as int,
                i - start,
            );
            assert((row + 1) * f.cols == end) by (nonlinear_arith)
                requires
                    start == row * cols,
                    end == start + cols,
                    cols == f.cols,
            ;
            if i < last {
                assert(active(f.cells@[last - 1]@, f.default_bg));
                assert(active_from(*f, i as int));
            } else {
                assert(!active_from(*f, i as int));
            }
        }
        let reached: bool = i > start && wide[i - 1];
        if is_empty_text(v.text.as_str()) && i < last && !reached {
            v.text = " ".to_string();
        }
        assert(v@ =~= want[i as int]);
        let ghost before = out@;
        out.push(v);
        i = i + 1;
        assert(sort::views(out@) =~= want.take(i as int)) by {
            assert forall|k: int| 0 <= k < i implies sort::views(out@)[k] == want[k] by {
                if k < i - 1 {
                    assert(sort::views(before)[k] == want.take(i - 1)[k]);
                }
            }
        }
    }
}

/// What the cells of a frame look like, given which of them start with a wide
/// character.
pub fn visuals_given_wide(f: &RawFrame, wide: &Vec<bool>) -> (out: Vec<CellVisual>)
    requires
        f.wf(),
        wide@.len() == f.cells@.len(),
    ensures
        sort::views(out@) == visuals_with(*f, wide@),
{
    let mut out: Vec<CellVisual> = Vec::new();
    let mut row: usize = 0;
    assert(0 * f.cols == 0) by (nonlinear_arith);
    assert(sort::views(out@) =~= visuals_with(*f, wide@).take(0));
    while row < f.rows as usize
        invariant
            f.wf(),
            wide@.len() == f.cells@.len(),
            row <= f.rows,
            out@.len() == row * f.cols,
            sort::views(out@) == visuals_with(*f, wide@).take(row * f.cols),
        decreases f.rows - row,
    {
        push_row_visuals(&mut out, f, wide, row);
        row = row + 1;
    }
    assert(f.rows * f.cols == f.cols * f.rows) by (nonlinear_arith);
    assert(visuals_with(*f, wide@).take(f.cells@.len() as int) =~= visuals_with(*f, wide@));
    out
}

/// What the cells of a frame look like.
pub fn get_frame_visuals(f: &RawFrame) -> (out: Vec<CellVisual>)
    requires
        f.wf(),
    ensures
        sort::views(out@) == frame_visuals(*f),
{
    let wide: Vec<bool> = find_wide_starts(f);
    visuals_given_wide(f, &wide)
}

/// A time span during which a cell has a particular visual state.
#[derive(Debug, Clone)]
pub struct CellSpan {
    pub row: u16,
    pub col: u16,
    pub start_ms: u32,
    pub end_ms: u32,
    pub visual: CellVisual,
    pub default_bg: Rgb,
}

#[verifier::ext_equal]
pub struct CellSpanView {
    pub row: u16,
    pub col: u16,
    pub start_ms: u32,
    pub end_ms: u32,
    pub visual: CellVisualView,
    pub default_bg: Rgb,
}

impl View for CellSpan {
    type V = CellSpanView;

    open spec fn view(&self) -> CellSpanView {
        CellSpanView {
            row: self.row,
            col: self.col,
            start_ms: self.start_ms,
            end_ms: self.end_ms,
            visual: self.visual@,
            default_bg: self.default_bg,
        }
    }
}

/// The moment, background and cells of a frame.
#[verifier::ext_equal]
pub struct Scene {
    pub t_ms: u32,
    pub default_bg: Rgb,
    pub visuals: Seq<CellVisualView>,
}

pub open spec fn scene_of(f: RawFrame) -> Scene {
    Scene { t_ms: f.t_ms, default_bg: f.default_bg, visuals: frame_visuals(f) }
}

pub open spec fn scenes_of(frames: Seq<RawFrame>) -> Seq<Scene> {
    Seq::new(frames.len(), |i: int| scene_of(frames[i]))
}

/// What a cell looks like since when, and on which background.
pub struct CellState {
    pub visual: CellVisualView,
    pub start_ms: u32,
    pub default_bg: Rgb,
}

/// Whether a scene ends the state a cell is in.
pub open spec fn ends_state(s: CellState, scene: Scene, i: int) -> bool {
    s.visual != scene.visuals[i] || (s.visual.bg == s.default_bg && scene.visuals[i].bg
        == scene.default_bg && s.default_bg != scene.default_bg)
}

/// The state of the cell `i` after the first `n` scenes.
pub open spec fn state_after(scenes: Seq<Scene>, n: int, i: int) -> CellState
    decreases n,
{
    if n <= 1 {
        CellState {
            visual: scenes[0].visuals[i],
            start_ms: scenes[0].t_ms,
            default_bg: scenes[0].default_bg,
        }
    } else {
        let before = state_after(scenes, n - 1, i);
        let scene = scenes[n - 1];
        if ends_state(before, scene, i) {
            CellState {
                visual: scene.visuals[i],
                start_ms: scene.t_ms,
                default_bg: scene.default_bg,
            }
        } else {
            before
        }
    }
}

/// The span of a state that ends at `end_ms`, unless there was nothing to see.
pub open spec fn span_of(s: CellState, i: int, cols: u16, end_ms: u32) -> Seq<CellSpanView> {
    if blank(s.visual, s.default_bg) {
        Seq::empty()
    } else {
        seq![
            CellSpanView {
                row: (i / cols as int) as u16,
                col: (i % cols as int) as u16,
                start_ms: s.start_ms,
                end_ms,
                visual: s.visual,
                default_bg: s.default_bg,
            },
        ]
    }
}

/// The spans that the scene `n` ends, of the first `m` cells.
pub open spec fn ended_by(scenes: Seq<Scene>, n: int, m: int, cols: u16) -> Seq<CellSpanView>
    decreases m,
{
    if m <= 0 {
        Seq::empty()
    } else {
        let s = state_after(scenes, n, m - 1);
        ended_by(scenes, n, m - 1, cols) + (if ends_state(s, scenes[n], m - 1) {
            span_of(s, m - 1, cols, scenes[n].t_ms)
        } else {
            Seq::empty()
        })
    }
}

/// The spans that the first `n` scenes have ended.
pub open spec fn ended_before(scenes: Seq<Scene>, n: int, cells: int, cols: u16) -> Seq<
    CellSpanView,
>
    decreases n,
{
    if n <= 1 {
        Seq::empty()
    } else {
        ended_before(scenes, n - 1, cells, cols) + ended_by(scenes, n - 1, cells, cols)
    }
}

/// The spans that last to the end, of the first `m` cells.
pub open spec fn open_spans(scenes: Seq<Scene>, m: int, cols: u16, total_ms: u32) -> Seq<
    CellSpanView,
>
    decreases m,
{
    if m <= 0 {
        Seq::empty()
    } else {
        open_spans(scenes, m - 1, cols, total_ms) + span_of(
            state_after(scenes, scenes.len() as int, m - 1),
            m - 1,
            cols,
            total_ms,
        )
    }
}

/// The spans that take any time.
pub open spec fn lasting(s: Seq<CellSpanView>) -> Seq<CellSpanView>
    decreases s.len(),
{
    if s.len() == 0 {
        s
    } else if s.last().start_ms != s.last().end_ms {
        lasting(s.drop_last()).push(s.last())
    } else {
        lasting(s.drop_last())
    }
}

/// The spans of all cells.
pub open spec fn cell_spans(scenes: Seq<Scene>, cells: int, cols: u16, total_ms: u32) -> Seq<
    CellSpanView,
> {
    lasting(
        ended_before(scenes, scenes.len() as int, cells, cols) + open_spans(
            scenes,
            cells,
            cols,
            total_ms,
        ),
    )
}

/// Executable [`CellState`].
struct Current {
    visual: CellVisual,
    start_ms: u32,
    default_bg: Rgb,
}

impl View for Current {
    type V = CellState;

    closed spec fn view(&self) -> CellState {
        CellState {
            visual: self.visual@,
            start_ms: self.start_ms,
            default_bg: self.default_bg,
        }
    }
}

fn push_span(out: &mut Vec<CellSpan>, s: &Current, i: usize, cols: u16, end_ms: u32)
    requires
        cols > 0,
        i < cols * 0x1_0000,
    ensures
        sort::views(final(out)@) == sort::views(old(out)@) + span_of(s@, i as int, cols, end_ms),
{
    if !s.visual.is_blank(s.default_bg) {
        assert(i / (cols as usize) < 0x1_0000) by (nonlinear_arith)
            requires
                cols > 0,
                i < cols * 0x1_0000,
        ;
        let span: CellSpan = CellSpan {
            row: (i / cols as usize) as u16,
            col: (i % cols as usize) as u16,
            start_ms: s.start_ms,
            end_ms,
            visual: s.visual.copy(),
            default_bg: s.default_bg,
        };
        out.push(span);
    }
    assert(sort::views(out@) =~= sort::views(old(out)@) + span_of(s@, i as int, cols, end_ms));
}

/// Whether frames can be followed cell by cell: each has at least the cells of
/// the first.
pub open spec fn frames_fit(frames: Seq<RawFrame>) -> bool {
    &&& frames.len() > 0
    &&& forall|i: int|
        0 <= i < frames.len() ==> (#[trigger] frames[i]).wf() && frames[i].cells@.len()
            >= frames[0].cells@.len()
}

/// The number of cells of a recording: those of its first frame.
pub open spec fn cell_count(frames: Seq<RawFrame>) -> int {
    frames[0].cells@.len() as int
}

fn follow_frame(
    out: &mut Vec<CellSpan>,
    current: &mut Vec<Current>,
    frames: &Vec<RawFrame>,
    n: usize,
)
    requires
        frames_fit(frames@),
        1 <= n < frames@.len(),
        old(current)@.len() == cell_count(frames@),
        forall|i: int|
            0 <= i < old(current)@.len() ==> (#[trigger] old(current)@[i])@ == state_after(
                scenes_of(frames@),
                n as int,
                i,
            ),
        sort::views(old(out)@) == ended_before(
            scenes_of(frames@),
            n as int,
            cell_count(frames@),
            frames@[0].cols,
        ),
    ensures
        final(current)@.len() == cell_count(frames@),
        forall|i: int|
            0 <= i < final(current)@.len() ==> (#[trigger] final(current)@[i])@ == state_after(
                scenes_of(frames@),
                n + 1,
                i,
            ),
        sort::views(final(out)@) == ended_before(
            scenes_of(frames@),
            n + 1,
            cell_count(frames@),
            frames@[0].cols,
        ),
{
    let ghost scenes = scenes_of(frames@);
    let ghost cols = frames@[0].cols;
    let ghost before = sort::views(out@);
    assert(frames@[n as int].wf());
    assert(frames@[0].wf());
    let visuals: Vec<CellVisual> = get_frame_visuals(&frames[n]);
    let t_ms: u32 = frames[n].t_ms;
    let default_bg: Rgb = frames[n].default_bg;
    let width: u16 = frames[0].cols;
    let count: usize = current.len();
    assert(scenes[n as int].visuals == sort::views(visuals@));
    assert(before + ended_by(scenes, n as int, 0, cols) =~= before);
    let mut i: usize = 0;
    while i < count
        invariant
            1 <= n < frames@.len(),
            frames_fit(frames@),
            frames@[0].wf(),
            scenes == scenes_of(frames@),
            cols == frames@[0].cols,
            width == cols,
            count == cell_count(frames@),
            current@.len() == count,
            i <= count,
            visuals@.len() >= count,
            scenes[n as int].visuals == sort::views(visuals@),
            t_ms == scenes[n as int].t_ms,
            default_bg == scenes[n as int].default_bg,
            forall|k: int|
                0 <= k < i ==> (#[trigger] current@[k])@ == state_after(scenes, n + 1, k),
            forall|k: int|
                i <= k < count ==> (#[trigger] current@[k])@ == state_after(scenes, n as int, k),
            sort::views(out@) == before + ended_by(scenes, n as int, i as int, cols),
        decreases count - i,
    {
        let ghost s = state_after(scenes, n as int, i as int);
        assert(current@[i as int]@ == s);
        assert(scenes[n as int].visuals[i as int] == visuals@[i as int]@);
        let ghost spans_before = sort::views(out@);
        let changed: bool = !current[i].visual.is_same(&visuals[i]) || (same_rgb(
            current[i].visual.bg,
            current[i].default_bg,
        ) && same_rgb(visuals[i].bg, default_bg) && !same_rgb(current[i].default_bg, default_bg));
        assert(changed == ends_state(s, scenes[n as int], i as int));
        if changed {
            assert(width > 0 && i < width * 0x1_0000) by (nonlinear_arith)
                requires
                    i < frames@[0].cells@.len(),
                    frames@[0].cells@.len() == frames@[0].cols * frames@[0].rows,
                    width == frames@[0].cols,
                    frames@[0].rows <= 0xffff,
                    0 <= frames@[0].rows,
            ;
            push_span(out, &current[i], i, width, t_ms);
            let next: Current = Current { visual: visuals[i].copy(), start_ms: t_ms, default_bg };
            current.set(i, next);
        }
        assert(sort::views(out@) =~= before + ended_by(scenes, n as int, i + 1, cols));
        assert(current@[i as int]@ == state_after(scenes, n + 1, i as int));
        i = i + 1;
    }
}

fn keep_lasting(v: Vec<CellSpan>) -> (out: Vec<CellSpan>)
    ensures
        sort::views(out@) == lasting(sort::views(v@)),
{
    let ghost all = sort::views(v@);
    let mut rest: Vec<CellSpan> = v;
    let mut out: Vec<CellSpan> = Vec::new();
    let ghost mut done: int = 0;
    assert(all.skip(0) =~= all);
    assert(sort::views(out@) =~= lasting(all.take(0)));
    while rest.len() > 0
        invariant
            0 <= done <= all.len(),
            sort::views(rest@) == all.skip(done),
            sort::views(out@) == lasting(all.take(done)),
        decreases rest@.len(),
    {
        let ghost was = rest@;
        let s: CellSpan = rest.remove(0);
        assert(sort::views(was).len() == all.len() - done);
        assert(was[0]@ == sort::views(was)[0]);
        assert(s@ == all[done]);
        assert(all.take(done + 1).drop_last() =~= all.take(done));
        assert(all.take(done + 1).last() == s@);
        assert forall|i: int| 0 <= i < rest@.len() implies sort::views(rest@)[i]
            == #[trigger] all.skip(done + 1)[i] by {
            assert(rest@[i] == was[i + 1]);
            assert(sort::views(was)[i + 1] == all.skip(done)[i + 1]);
        }
        assert(sort::views(rest@) =~= all.skip(done + 1));
        let ghost kept = sort::views(out@);
        if s.start_ms != s.end_ms {
            out.push(s);
            assert(sort::views(out@) =~= kept.push(s@));
        }
        proof {
            done = done + 1;
        }
    }
    assert(all.take(done) =~= all);
    out
}

/// The time spans during which each cell looks the same.
pub fn build_cell_spans(frames: &Vec<RawFrame>, total_ms: u32) -> (out: Vec<CellSpan>)
    requires
        frames_fit(frames@),
    ensures
        sort::views(out@) == cell_spans(
            scenes_of(frames@),
            cell_count(frames@),
            frames@[0].cols,
            total_ms,
        ),
{
    let ghost scenes = scenes_of(frames@);
    let ghost cells = cell_count(frames@);
    let ghost cols = frames@[0].cols;
    assert(frames@[0].wf());
    let mut out: Vec<CellSpan> = Vec::new();
    let mut current: Vec<Current> = Vec::new();
    let first: Vec<CellVisual> = get_frame_visuals(&frames[0]);
    assert(scenes[0].visuals == sort::views(first@));
    let mut i: usize = 0;
    while i < first.len()
        invariant
            frames@.len() > 0,
            scenes == scenes_of(frames@),
            scenes[0].visuals == sort::views(first@),
            i <= first@.len(),
            current@.len() == i,
            forall|k: int| 0 <= k < i ==> (#[trigger] current@[k])@ == state_after(scenes, 1, k),
        decreases first@.len() - i,
    {
        assert(scenes[0].visuals[i as int] == first@[i as int]@);
        current.push(
            Current {
                visual: first[i].copy(),
                start_ms: frames[0].t_ms,
                default_bg: frames[0].default_bg,
            },
        );
        i = i + 1;
    }
    assert(first@.len() == sort::views(first@).len());
    assert(sort::views(out@) =~= ended_before(scenes, 1, cells, cols));
    let mut n: usize = 1;
    while n < frames.len()
        invariant
            frames_fit(frames@),
            scenes == scenes_of(frames@),
            cells == cell_count(frames@),
            cols == frames@[0].cols,
            1 <= n <= frames@.len(),
            current@.len() == cells,
            forall|k: int|
                0 <= k < cells ==> (#[trigger] current@[k])@ == state_after(scenes, n as int, k),
            sort::views(out@) == ended_before(scenes, n as int, cells, cols),
        decreases frames@.len() - n,
    {
        follow_frame(&mut out, &mut current, frames, n);
        n = n + 1;
    }
    let ghost ended = sort::views(out@);
    let width: u16 = frames[0].cols;
    let count: usize = current.len();
    assert(ended + open_spans(scenes, 0, cols, total_ms) =~= ended);
    let mut i: usize = 0;
    while i < count
        invariant
            frames_fit(frames@),
            frames@[0].wf(),
            scenes == scenes_of(frames@),
            cells == cell_count(frames@),
            cols == frames@[0].cols,
            width == cols,
            count == cells,
            current@.len() == count,
            i <= count,
            forall|k: int|
                0 <= k < cells ==> (#[trigger] current@[k])@ == state_after(
                    scenes,
                    scenes.len() as int,
                    k,
                ),
            sort::views(out@) == ended + open_spans(scenes, i as int, cols, total_ms),
        decreases count - i,
    {
        assert(current@[i as int]@ == state_after(scenes, scenes.len() as int, i as int));
        assert(width > 0 && i < width * 0x1_0000) by (nonlinear_arith)
            requires
                i < frames@[0].cells@.len(),
                frames@[0].cells@.len() == frames@[0].cols * frames@[0].rows,
                width == frames@[0].cols,
                frames@[0].rows <= 0xffff,
                0 <= frames@[0].rows,
        ;
        push_span(&mut out, &current[i], i, width, total_ms);
        assert(sort::views(out@) =~= ended + open_spans(scenes, i + 1, cols, total_ms));
        i = i + 1;
    }
    keep_lasting(out)
}

} // verus!
