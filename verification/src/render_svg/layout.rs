//! Where the spans of cells lie on the canvas.
use vstd::prelude::*;
use vstd::string::*;

use crate::merge;
use crate::render_svg::arrange;
use crate::render_svg::bounds;
use crate::render_svg::cells;
use crate::render_svg::cells::{CellSpan, CellSpanView, CellVisualView};
use crate::render_svg::elements;
use crate::render_svg::elements::{
    BgRect, BgRectView, Glyph, Look, TSpan, TSpanView, TextElement, TextElementView,
    WindowBarCircle,
};
use crate::render_svg::markup;
use crate::render_svg::metrics::{SvgMetrics, BASELINE_LIMIT};
use crate::render_svg::tracks::PIXEL_LIMIT;
use crate::single;
use crate::single::{from_whole, round_single, round_single_ratio, Measure, ONE};
use crate::sort;
use crate::style::{same_rgb, Rgb, WindowBarStyle};
use crate::style_flags;
use crate::text;
use crate::text::to_chars;
use crate::viewport::CanvasLayout;

verus! {

/// Whether a character is drawn as a shape that fills its cell: a box-drawing
/// character or a block element.
pub open spec fn is_box_char(c: char) -> bool {
    0x2500 <= c as u32 <= 0x259F
}

pub fn is_box_drawing(c: char) -> (r: bool)
    ensures
        r == is_box_char(c),
{
    let n: u32 = c as u32;
    0x2500 <= n && n <= 0x259F
}

/// Whether a text holds a box-drawing character.
pub open spec fn has_box(s: Seq<char>) -> bool {
    exists|i: int| 0 <= i < s.len() && is_box_char(#[trigger] s[i])
}

/// What places the cells: the grid, the canvas and the lengths of the text.
pub struct Placement {
    pub cell_w: u32,
    pub cell_h: u32,
    pub content_x: u32,
    pub content_y: u32,
    pub clipped: bool,
    pub metrics: SvgMetrics,
}

impl Placement {
    /// Whether a grid of `cols` columns and `rows` rows fits on a canvas.
    pub open spec fn fits(self, cols: u16, rows: u16) -> bool {
        &&& 0 < self.cell_w <= PIXEL_LIMIT
        &&& 0 < self.cell_h <= PIXEL_LIMIT
        &&& self.content_x <= PIXEL_LIMIT
        &&& self.content_y <= PIXEL_LIMIT
        &&& cols * self.cell_w <= PIXEL_LIMIT
        &&& rows * self.cell_h <= PIXEL_LIMIT
        &&& self.metrics.baseline <= BASELINE_LIMIT
        &&& -PIXEL_LIMIT * ONE <= self.metrics.letter_spacing <= PIXEL_LIMIT * ONE
        &&& -PIXEL_LIMIT * ONE <= 2 * (self.metrics.offset_x + ONE)
        &&& 2 * self.metrics.offset_x <= PIXEL_LIMIT * ONE
        &&& markup::in_range(self.metrics.scale_y as int)
        &&& -0xff_ffff * ONE <= self.metrics.cell_center_y_offset <= 0xff_ffff * ONE
        &&& -0xff_ffff * ONE <= self.metrics.char_center_y_offset <= 0xff_ffff * ONE
    }

    /// Left edge of a column.
    pub open spec fn left(self, col: u16) -> u32 {
        (self.content_x + col * self.cell_w) as u32
    }

    /// Top edge of a row.
    pub open spec fn top(self, row: u16) -> u32 {
        (self.content_y + row * self.cell_h) as u32
    }

    /// The line that the text of a row stands on.
    pub open spec fn line(self, row: u16) -> u32 {
        (self.content_y + row * self.cell_h + self.metrics.baseline) as u32
    }

    /// Where the text of a cell begins; shapes begin at the edge of the cell.
    pub open spec fn text_start(self, col: u16, is_box: bool) -> int {
        if is_box {
            single::whole(self.left(col))
        } else {
            single::single(single::whole(self.left(col)) + self.metrics.offset_x)
        }
    }

    /// The place of the character `k` of `n` that share a cell.
    pub open spec fn char_place(self, start: int, k: int, n: int) -> int {
        if k == 0 {
            start
        } else {
            single::single(
                start + single::single_ratio(
                    single::single(k * self.cell_w * ONE) as nat,
                    n as nat,
                ),
            )
        }
    }

    /// The places of the characters of a cell.
    pub open spec fn char_places(self, col: u16, s: Seq<char>) -> Seq<Measure> {
        Seq::new(
            s.len(),
            |k: int|
                self.char_place(
                    self.text_start(col, has_box(s)),
                    k,
                    s.len() as int,
                ) as i128,
        )
    }
}

/// The look of a cell's text.
pub open spec fn cell_look(v: CellVisualView) -> Look {
    Look {
        fg: v.fg,
        bold: v.flags & style_flags::BOLD != 0,
        italic: v.flags & style_flags::ITALIC != 0,
        underline: v.flags & style_flags::UNDERLINE != 0,
        strikethrough: v.flags & style_flags::STRIKETHROUGH != 0,
    }
}

/// A span's text as a run.
pub open spec fn span_run(s: CellSpanView, p: Placement) -> TSpanView {
    let is_box = has_box(s.visual.text);
    let look = cell_look(s.visual);
    TSpanView {
        x_coords: p.char_places(s.col, s.visual.text),
        text: s.visual.text,
        fg: look.fg,
        bold: look.bold,
        italic: look.italic,
        underline: look.underline,
        strikethrough: look.strikethrough,
        is_box,
        scale_y: if is_box {
            p.metrics.scale_y
        } else {
            ONE
        },
        cell_center_y_offset: if is_box {
            p.metrics.cell_center_y_offset
        } else {
            0
        },
        char_center_y_offset: if is_box {
            p.metrics.char_center_y_offset
        } else {
            0
        },
        cell_w: p.cell_w,
        cell_h: p.cell_h,
        baseline: p.metrics.baseline,
        letter_spacing: if is_box {
            0
        } else {
            p.metrics.letter_spacing
        },
        start_ms: s.start_ms,
        end_ms: s.end_ms,
        style_animations: Seq::empty(),
        style_history: Seq::empty(),
    }
}

/// A span's text as a row of its own.
pub open spec fn span_row(s: CellSpanView, p: Placement) -> TextElementView {
    TextElementView {
        y: p.line(s.row),
        y_animation: None,
        start_ms: s.start_ms,
        end_ms: s.end_ms,
        tspans: seq![span_run(s, p)],
    }
}

/// The rows of the spans that have text and take time.
pub open spec fn span_rows(v: Seq<CellSpanView>, p: Placement) -> Seq<TextElementView>
    decreases v.len(),
{
    if v.len() == 0 {
        Seq::empty()
    } else {
        let before = span_rows(v.drop_last(), p);
        if v.last().start_ms == v.last().end_ms || v.last().visual.text.len() == 0 {
            before
        } else {
            before.push(span_row(v.last(), p))
        }
    }
}

/// A span's background.
pub open spec fn span_rect(s: CellSpanView, p: Placement) -> BgRectView {
    BgRectView {
        x: p.left(s.col),
        y: p.top(s.row),
        w: p.cell_w,
        h: p.cell_h,
        fill: s.visual.bg,
        start_ms: s.start_ms,
        end_ms: s.end_ms,
        clip_path: if p.clipped {
            Some("url(#frame-clip)"@)
        } else {
            None
        },
        y_animation: None,
    }
}

/// The backgrounds of the spans that have one of their own and take time.
pub open spec fn span_rects(v: Seq<CellSpanView>, p: Placement) -> Seq<BgRectView>
    decreases v.len(),
{
    if v.len() == 0 {
        Seq::empty()
    } else {
        let before = span_rects(v.drop_last(), p);
        if v.last().start_ms == v.last().end_ms || v.last().visual.bg == v.last().default_bg {
            before
        } else {
            before.push(span_rect(v.last(), p))
        }
    }
}

/// Whether the text of a span is underlined.
pub open spec fn underlined(v: CellVisualView) -> bool {
    v.flags & style_flags::UNDERLINE != 0
}

/// The line under a span's text: one pixel high, as wide as the cell, where the text
/// stands.
pub open spec fn span_line(s: CellSpanView, p: Placement) -> BgRectView {
    BgRectView { y: p.line(s.row), h: 1, fill: s.visual.fg, ..span_rect(s, p) }
}

/// The lines under the spans that are underlined and take time.
pub open spec fn span_lines(v: Seq<CellSpanView>, p: Placement) -> Seq<BgRectView>
    decreases v.len(),
{
    if v.len() == 0 {
        Seq::empty()
    } else {
        let before = span_lines(v.drop_last(), p);
        if v.last().start_ms == v.last().end_ms || !underlined(v.last().visual) {
            before
        } else {
            before.push(span_line(v.last(), p))
        }
    }
}

/// Whether every span lies on the grid.
pub open spec fn spans_fit(v: Seq<CellSpanView>, cols: u16, rows: u16) -> bool {
    forall|i: int|
        0 <= i < v.len() ==> (#[trigger] v[i]).col < cols && v[i].row < rows && v[i].start_ms
            <= v[i].end_ms && v[i].visual.text.len() <= PIXEL_LIMIT
}

proof fn lemma_grid_bounds(p: Placement, cols: u16, rows: u16, col: u16, row: u16)
    requires
        p.fits(cols, rows),
        col < cols,
        row < rows,
    ensures
        0 <= col * p.cell_w,
        col * p.cell_w + p.cell_w <= PIXEL_LIMIT,
        0 <= row * p.cell_h,
        row * p.cell_h + p.cell_h <= PIXEL_LIMIT,
{
    assert(0 <= col * p.cell_w && col * p.cell_w + p.cell_w <= cols * p.cell_w) by (nonlinear_arith)
        requires
            col + 1 <= cols,
            p.cell_w > 0,
    ;
    assert(0 <= row * p.cell_h && row * p.cell_h + p.cell_h <= rows * p.cell_h) by (nonlinear_arith)
        requires
            row + 1 <= rows,
            p.cell_h > 0,
    ;
}

fn contains_box(chars: &Vec<char>) -> (r: bool)
    ensures
        r == has_box(chars@),
{
    let mut i: usize = 0;
    while i < chars.len()
        invariant
            i <= chars@.len(),
            forall|k: int| 0 <= k < i ==> !is_box_char(#[trigger] chars@[k]),
        decreases chars@.len() - i,
    {
        if is_box_drawing(chars[i]) {
            assert(is_box_char(chars@[i as int]));
            return true;
        }
        i = i + 1;
    }
    false
}

proof fn lemma_char_place_bound(p: Placement, start: int, k: int, n: int)
    requires
        0 < p.cell_w <= PIXEL_LIMIT,
        -0xa0_0010 * ONE <= start <= 0xa0_0010 * ONE,
        0 <= k < n,
        n <= PIXEL_LIMIT,
    ensures
        markup::in_range(p.char_place(start, k, n)),
        k > 0 ==> 0 <= single::single(k * p.cell_w * ONE) <= 0x2000_0000_0000 * ONE,
        k > 0 ==> 0 <= single::single_ratio(
            single::single(k * p.cell_w * ONE) as nat,
            n as nat,
        ) <= 0x100_0001 * ONE,
{
    if k > 0 {
        let v = k * p.cell_w * ONE;
        assert(0 <= v <= 0x1000_0000_0000 * ONE) by (nonlinear_arith)
            requires
                0 < k < 0x40_0000,
                0 < p.cell_w <= 0x40_0000,
                v == k * p.cell_w * ONE,
                ONE == 0x1_0000_0000_0000_0000,
        ;
        single::lemma_single_bounds(v);
        let a = single::single(v) as nat;
        single::lemma_single_ratio_bounds(a, n as nat);
        assert(a / (n as nat) <= 0x80_0000 * ONE) by (nonlinear_arith)
            requires
                a <= 2 * v,
                v == k * p.cell_w * ONE,
                0 < k < n,
                0 < p.cell_w <= 0x40_0000,
                ONE == 0x1_0000_0000_0000_0000,
        ;
        single::lemma_single_bounds(start + single::single_ratio(a, n as nat));
    }
}

fn place_chars(p: &Placement, col: u16, chars: &Vec<char>, is_box: bool) -> (out: Vec<Measure>)
    requires
        p.content_x + col * p.cell_w <= 2 * PIXEL_LIMIT,
        0 < p.cell_w <= PIXEL_LIMIT,
        -PIXEL_LIMIT * ONE <= 2 * (p.metrics.offset_x + ONE),
        2 * p.metrics.offset_x <= PIXEL_LIMIT * ONE,
        chars@.len() <= PIXEL_LIMIT,
        is_box == has_box(chars@),
    ensures
        out@ == p.char_places(col, chars@),
        forall|k: int| 0 <= k < out@.len() ==> markup::in_range(#[trigger] out@[k] as int),
{
    assert(0 <= col * p.cell_w) by (nonlinear_arith);
    let x: u32 = p.content_x + col as u32 * p.cell_w;
    let left: Measure = from_whole(x);
    proof {
        single::lemma_whole_exact(x);
    }
    let start: Measure = if is_box {
        left
    } else {
        round_single(left + p.metrics.offset_x)
    };
    proof {
        if left + p.metrics.offset_x >= 0 {
            single::lemma_single_at_most((left + p.metrics.offset_x) as nat);
        }
    }
    let n: usize = chars.len();
    let mut out: Vec<Measure> = Vec::new();
    let mut k: usize = 0;
    while k < n
        invariant
            0 < p.cell_w <= PIXEL_LIMIT,
            n == chars@.len(),
            n <= PIXEL_LIMIT,
            is_box == has_box(chars@),
            start == p.text_start(col, is_box),
            -0xa0_0010 * ONE <= start <= 0xa0_0010 * ONE,
            k <= n,
            out@.len() == k,
            forall|j: int| 0 <= j < k ==> out@[j] == p.char_places(col, chars@)[j],
            forall|j: int| 0 <= j < k ==> markup::in_range(#[trigger] out@[j] as int),
        decreases n - k,
    {
        proof {
            lemma_char_place_bound(*p, start as int, k as int, n as int);
        }
        if k == 0 {
            out.push(start);
        } else {
            assert(0 <= k * p.cell_w <= 0x1000_0000_0000) by (nonlinear_arith)
                requires
                    0 < k < 0x40_0000,
                    0 < p.cell_w <= 0x40_0000,
            ;
            let a: Measure = round_single(k as i128 * p.cell_w as i128 * ONE);
            let b: u128 = round_single_ratio(a as u128, n as u128);
            out.push(round_single(start + b as i128));
        }
        k = k + 1;
    }
    assert(out@ =~= p.char_places(col, chars@));
    out
}

fn build_run(s: &CellSpan, p: &Placement, Ghost(cols): Ghost<u16>, Ghost(rows): Ghost<u16>) -> (r:
    TSpan)
    requires
        p.fits(cols, rows),
        s@.col < cols,
        s@.row < rows,
        s@.visual.text.len() <= PIXEL_LIMIT,
    ensures
        r@ == span_run(s@, *p),
        forall|k: int| 0 <= k < r.x_coords@.len() ==> markup::in_range(#[trigger] r.x_coords@[k] as int),
{
    proof {
        lemma_grid_bounds(*p, cols, rows, s@.col, s@.row);
    }
    let chars: Vec<char> = to_chars(s.visual.text.as_str());
    let is_box: bool = contains_box(&chars);
    let x_coords: Vec<Measure> = place_chars(p, s.col, &chars, is_box);
    let flags: u8 = s.visual.flags;
    let r: TSpan = TSpan {
        x_coords,
        text: s.visual.text.clone(),
        fg: s.visual.fg,
        bold: flags & style_flags::BOLD != 0,
        italic: flags & style_flags::ITALIC != 0,
        underline: flags & style_flags::UNDERLINE != 0,
        strikethrough: flags & style_flags::STRIKETHROUGH != 0,
        is_box,
        scale_y: if is_box {
            p.metrics.scale_y
        } else {
            ONE
        },
        cell_center_y_offset: if is_box {
            p.metrics.cell_center_y_offset
        } else {
            0
        },
        char_center_y_offset: if is_box {
            p.metrics.char_center_y_offset
        } else {
            0
        },
        cell_w: p.cell_w,
        cell_h: p.cell_h,
        baseline: p.metrics.baseline,
        letter_spacing: if is_box {
            0
        } else {
            p.metrics.letter_spacing
        },
        start_ms: s.start_ms,
        end_ms: s.end_ms,
        style_animations: Vec::new(),
        style_history: Vec::new(),
    };
    assert(r@ =~= span_run(s@, *p));
    r
}

/// A row made of one span is sound and at rest.
pub open spec fn fresh_row(e: TextElementView) -> bool {
    arrange::resting(e) && bounds::sound_row(e)
}

/// A background made of one span is sound and at rest.
pub open spec fn fresh_rect(r: BgRectView) -> bool {
    arrange::resting_rect(r) && bounds::sound_rect(r)
}

/// The rows of the spans that have text.
pub(crate) fn build_rows(
    spans: &Vec<CellSpan>,
    p: &Placement,
    Ghost(cols): Ghost<u16>,
    Ghost(rows): Ghost<u16>,
) -> (out: Vec<TextElement>)
    requires
        p.fits(cols, rows),
        spans_fit(sort::views(spans@), cols, rows),
    ensures
        sort::views(out@) == span_rows(sort::views(spans@), *p),
        merge::every(sort::views(out@), |e: TextElementView| fresh_row(e)),
{
    let ghost all = sort::views(spans@);
    let ghost fresh = |e: TextElementView| fresh_row(e);
    let mut out: Vec<TextElement> = Vec::new();
    let mut i: usize = 0;
    assert(sort::views(out@) =~= span_rows(all.take(0), *p));
    while i < spans.len()
        invariant
            p.fits(cols, rows),
            all == sort::views(spans@),
            spans_fit(all, cols, rows),
            fresh == (|e: TextElementView| fresh_row(e)),
            i <= spans@.len(),
            sort::views(out@) == span_rows(all.take(i as int), *p),
            merge::every(sort::views(out@), fresh),
        decreases spans@.len() - i,
    {
        assert(all.take(i + 1).drop_last() =~= all.take(i as int));
        assert(all.take(i + 1).last() == spans@[i as int]@);
        let ghost s = spans@[i as int]@;
        assert(all[i as int] == s);
        assert(s.col < cols && s.row < rows);
        let empty: bool = to_chars(spans[i].visual.text.as_str()).len() == 0;
        if spans[i].start_ms != spans[i].end_ms && !empty {
            proof {
                lemma_grid_bounds(*p, cols, rows, s.col, s.row);
            }
            let run: TSpan = build_run(&spans[i], p, Ghost(cols), Ghost(rows));
            let y: u32 = p.content_y + spans[i].row as u32 * p.cell_h + p.metrics.baseline;
            let mut tspans: Vec<TSpan> = Vec::new();
            tspans.push(run);
            let e: TextElement = TextElement {
                y,
                y_animation: None,
                start_ms: spans[i].start_ms,
                end_ms: spans[i].end_ms,
                tspans,
            };
            assert(e@.tspans =~= seq![span_run(s, *p)]);
            assert(e@ =~= span_row(s, *p));
            proof {
                assert(e@.tspans[0] == run@);
                assert forall|k: int| 0 <= k < run@.x_coords.len() implies markup::in_range(
                    #[trigger] run@.x_coords[k] as int,
                ) by {
                    assert(markup::in_range(run.x_coords@[k] as int));
                }
                assert(arrange::plain(run@));
                assert(bounds::sound_run(run@));
                assert(fresh(e@));
            }
            let ghost before = sort::views(out@);
            out.push(e);
            assert(sort::views(out@) =~= before.push(e@));
            assert forall|k: int| 0 <= k < out@.len() implies fresh(
                #[trigger] sort::views(out@)[k],
            ) by {
                if k < before.len() {
                    assert(fresh(before[k]));
                }
            }
        }
        i = i + 1;
    }
    assert(all.take(all.len() as int) =~= all);
    out
}

/// The backgrounds of the spans that have one of their own.
pub(crate) fn build_rects(
    spans: &Vec<CellSpan>,
    p: &Placement,
    Ghost(cols): Ghost<u16>,
    Ghost(rows): Ghost<u16>,
) -> (out: Vec<BgRect>)
    requires
        p.fits(cols, rows),
        spans_fit(sort::views(spans@), cols, rows),
    ensures
        sort::views(out@) == span_rects(sort::views(spans@), *p),
        merge::every(sort::views(out@), |r: BgRectView| fresh_rect(r)),
{
    let ghost all = sort::views(spans@);
    let ghost fresh = |r: BgRectView| fresh_rect(r);
    let mut out: Vec<BgRect> = Vec::new();
    let mut i: usize = 0;
    assert(sort::views(out@) =~= span_rects(all.take(0), *p));
    while i < spans.len()
        invariant
            p.fits(cols, rows),
            all == sort::views(spans@),
            spans_fit(all, cols, rows),
            fresh == (|r: BgRectView| fresh_rect(r)),
            i <= spans@.len(),
            sort::views(out@) == span_rects(all.take(i as int), *p),
            merge::every(sort::views(out@), fresh),
        decreases spans@.len() - i,
    {
        assert(all.take(i + 1).drop_last() =~= all.take(i as int));
        assert(all.take(i + 1).last() == spans@[i as int]@);
        let ghost s = spans@[i as int]@;
        assert(all[i as int] == s);
        assert(s.col < cols && s.row < rows);
        if spans[i].start_ms != spans[i].end_ms && !same_rgb(
            spans[i].visual.bg,
            spans[i].default_bg,
        ) {
            proof {
                lemma_grid_bounds(*p, cols, rows, s.col, s.row);
            }
            let r: BgRect = BgRect {
                x: p.content_x + spans[i].col as u32 * p.cell_w,
                y: p.content_y + spans[i].row as u32 * p.cell_h,
                w: p.cell_w,
                h: p.cell_h,
                fill: spans[i].visual.bg,
                start_ms: spans[i].start_ms,
                end_ms: spans[i].end_ms,
                clip_path: if p.clipped {
                    Some("url(#frame-clip)".to_string())
                } else {
                    None
                },
                y_animation: None,
            };
            assert(r@ =~= span_rect(s, *p));
            assert(fresh(r@));
            let ghost before = sort::views(out@);
            out.push(r);
            assert(sort::views(out@) =~= before.push(r@));
            assert forall|k: int| 0 <= k < out@.len() implies fresh(
                #[trigger] sort::views(out@)[k],
            ) by {
                if k < before.len() {
                    assert(fresh(before[k]));
                }
            }
        }
        i = i + 1;
    }
    assert(all.take(all.len() as int) =~= all);
    out
}

/// The lines under the spans that are underlined.
pub(crate) fn build_lines(
    spans: &Vec<CellSpan>,
    p: &Placement,
    Ghost(cols): Ghost<u16>,
    Ghost(rows): Ghost<u16>,
) -> (out: Vec<BgRect>)
    requires
        p.fits(cols, rows),
        spans_fit(sort::views(spans@), cols, rows),
    ensures
        sort::views(out@) == span_lines(sort::views(spans@), *p),
        merge::every(sort::views(out@), |r: BgRectView| fresh_rect(r)),
{
    let ghost all = sort::views(spans@);
    let ghost fresh = |r: BgRectView| fresh_rect(r);
    let mut out: Vec<BgRect> = Vec::new();
    let mut i: usize = 0;
    assert(sort::views(out@) =~= span_lines(all.take(0), *p));
    while i < spans.len()
        invariant
            p.fits(cols, rows),
            all == sort::views(spans@),
            spans_fit(all, cols, rows),
            fresh == (|r: BgRectView| fresh_rect(r)),
            i <= spans@.len(),
            sort::views(out@) == span_lines(all.take(i as int), *p),
            merge::every(sort::views(out@), fresh),
        decreases spans@.len() - i,
    {
        assert(all.take(i + 1).drop_last() =~= all.take(i as int));
        assert(all.take(i + 1).last() == spans@[i as int]@);
        let ghost s = spans@[i as int]@;
        assert(all[i as int] == s);
        assert(s.col < cols && s.row < rows);
        if spans[i].start_ms != spans[i].end_ms && spans[i].visual.flags & style_flags::UNDERLINE
            != 0 {
            proof {
                lemma_grid_bounds(*p, cols, rows, s.col, s.row);
            }
            let r: BgRect = BgRect {
                x: p.content_x + spans[i].col as u32 * p.cell_w,
                y: p.content_y + spans[i].row as u32 * p.cell_h + p.metrics.baseline,
                w: p.cell_w,
                h: 1,
                fill: spans[i].visual.fg,
                start_ms: spans[i].start_ms,
                end_ms: spans[i].end_ms,
                clip_path: if p.clipped {
                    Some("url(#frame-clip)".to_string())
                } else {
                    None
                },
                y_animation: None,
            };
            assert(r@ =~= span_line(s, *p));
            assert(fresh(r@));
            let ghost before = sort::views(out@);
            out.push(r);
            assert(sort::views(out@) =~= before.push(r@));
            assert forall|k: int| 0 <= k < out@.len() implies fresh(
                #[trigger] sort::views(out@)[k],
            ) by {
                if k < before.len() {
                    assert(fresh(before[k]));
                }
            }
        }
        i = i + 1;
    }
    assert(all.take(all.len() as int) =~= all);
    out
}

/// The colours of the dots of the window bar.
pub open spec fn dot_color(i: int) -> Rgb {
    if i == 0 {
        [255u8, 95u8, 86u8]
    } else if i == 1 {
        [255u8, 189u8, 46u8]
    } else {
        [39u8, 201u8, 63u8]
    }
}

/// Left end of the dots.
pub open spec fn dots_start(l: CanvasLayout, style: WindowBarStyle) -> int {
    let dots_w = l.dot_radius * 6 + l.dot_gap * 2;
    if style == WindowBarStyle::Right {
        l.frame_x + (if l.frame_w > dots_w + l.dot_gap {
            l.frame_w - (dots_w + l.dot_gap)
        } else {
            0
        })
    } else {
        l.frame_x + l.dot_gap
    }
}

/// The dots of the window bar, if it has any.
pub open spec fn bar_circles(l: CanvasLayout, style: WindowBarStyle) -> Seq<WindowBarCircle> {
    if style.spec_enabled() {
        Seq::new(
            3,
            |i: int|
                WindowBarCircle {
                    cx: (dots_start(l, style) + i * (l.dot_radius * 2 + l.dot_gap)
                        + l.dot_radius) as u32,
                    cy: (l.frame_y + l.bar_h / 2) as u32,
                    r: l.dot_radius,
                    fill: Some(dot_color(i)),
                    stroke: None,
                },
        )
    } else {
        Seq::empty()
    }
}

/// Whether every length of the canvas is within bounds.
pub open spec fn canvas_fits(l: CanvasLayout) -> bool {
    &&& l.frame_x <= PIXEL_LIMIT
    &&& l.frame_y <= PIXEL_LIMIT
    &&& l.frame_w <= PIXEL_LIMIT
    &&& l.frame_h <= PIXEL_LIMIT
    &&& l.content_x <= PIXEL_LIMIT
    &&& l.content_y <= PIXEL_LIMIT
    &&& l.bar_h <= PIXEL_LIMIT
    &&& l.dot_radius <= PIXEL_LIMIT
    &&& l.dot_gap <= PIXEL_LIMIT
}

/// The dots of the window bar.
pub fn build_bar_circles(l: &CanvasLayout, style: WindowBarStyle) -> (out: Vec<WindowBarCircle>)
    requires
        canvas_fits(*l),
    ensures
        out@ == bar_circles(*l, style),
{
    let mut out: Vec<WindowBarCircle> = Vec::new();
    if !style.enabled() {
        assert(out@ =~= bar_circles(*l, style));
        return out;
    }
    let dots_w: u32 = l.dot_radius * 6 + l.dot_gap * 2;
    let start: u32 = if style.align_right() {
        l.frame_x + (if l.frame_w > dots_w + l.dot_gap {
            l.frame_w - (dots_w + l.dot_gap)
        } else {
            0
        })
    } else {
        l.frame_x + l.dot_gap
    };
    let step: u32 = l.dot_radius * 2 + l.dot_gap;
    let cy: u32 = l.frame_y + l.bar_h / 2;
    let r: u32 = l.dot_radius;
    out.push(
        WindowBarCircle { cx: start + r, cy, r, fill: Some([255u8, 95u8, 86u8]), stroke: None },
    );
    out.push(
        WindowBarCircle {
            cx: start + step + r,
            cy,
            r,
            fill: Some([255u8, 189u8, 46u8]),
            stroke: None,
        },
    );
    out.push(
        WindowBarCircle {
            cx: start + 2 * step + r,
            cy,
            r,
            fill: Some([39u8, 201u8, 63u8]),
            stroke: None,
        },
    );
    assert(0int * step == 0 && 1int * step == step) by (nonlinear_arith);
    assert(out@ =~= bar_circles(*l, style));
    out
}

/// Whether a cell that looks like `v` shows the glyph `g`.
pub open spec fn cell_shows(p: Placement, col: u16, v: CellVisualView, g: Glyph) -> bool {
    g.look == cell_look(v) && exists|k: int|
        0 <= k < v.text.len() && #[trigger] p.char_places(col, v.text)[k] == g.x && v.text[k]
            == g.c
}

proof fn lemma_span_row_shows(s: CellSpanView, p: Placement, t: u32, y: u32, g: Glyph)
    ensures
        elements::row_shows(span_row(s, p), t, y, g) == (s.start_ms <= t < s.end_ms && p.line(s.row)
            == y && cell_shows(p, s.col, s.visual, g)),
{
    let e = span_row(s, p);
    let r = span_run(s, p);
    assert(e.tspans[0] == r);
    assert(elements::look_at(r, t) == cell_look(s.visual));
    if cell_shows(p, s.col, s.visual, g) && s.start_ms <= t < s.end_ms {
        let k = choose|k: int|
            0 <= k < s.visual.text.len() && #[trigger] p.char_places(s.col, s.visual.text)[k]
                == g.x && s.visual.text[k] == g.c;
        assert(r.x_coords[k] == g.x);
        assert(elements::span_shows(e.tspans[0], t, g));
    }
    if elements::row_shows(e, t, y, g) {
        let i = choose|i: int|
            0 <= i < e.tspans.len() && elements::span_shows(#[trigger] e.tspans[i], t, g);
        assert(i == 0);
        let k = choose|k: int|
            0 <= k < r.x_coords.len() && k < r.text.len() && #[trigger] r.x_coords[k] == g.x
                && r.text[k] == g.c;
        assert(p.char_places(s.col, s.visual.text)[k] == g.x);
    }
}

/// Whether a span colours a pixel: its background is not the default one, and the
/// pixel is in its cell.
pub open spec fn span_colors(
    s: CellSpanView,
    p: Placement,
    t: u32,
    px: int,
    py: int,
    fill: Rgb,
) -> bool {
    &&& s.start_ms <= t < s.end_ms
    &&& s.visual.bg == fill
    &&& s.visual.bg != s.default_bg
    &&& p.left(s.col) <= px < p.left(s.col) + p.cell_w
    &&& p.top(s.row) <= py < p.top(s.row) + p.cell_h
}

/// The backgrounds of spans cover a pixel exactly if some span colours it.
pub proof fn lemma_span_rects_cover(
    v: Seq<CellSpanView>,
    p: Placement,
    t: u32,
    px: int,
    py: int,
    fill: Rgb,
)
    ensures
        elements::rects_cover(span_rects(v, p), t, px, py, fill) == exists|i: int|
            0 <= i < v.len() && span_colors(#[trigger] v[i], p, t, px, py, fill),
    decreases v.len(),
{
    if v.len() == 0 {
        assert(span_rects(v, p).len() == 0);
    } else {
        let d = v.drop_last();
        let s = v.last();
        lemma_span_rects_cover(d, p, t, px, py, fill);
        let before = span_rects(d, p);
        let after = span_rects(v, p);
        if exists|i: int| 0 <= i < v.len() && span_colors(#[trigger] v[i], p, t, px, py, fill) {
            let i = choose|i: int|
                0 <= i < v.len() && span_colors(#[trigger] v[i], p, t, px, py, fill);
            if i < d.len() {
                assert(d[i] == v[i]);
                let j = choose|j: int|
                    0 <= j < before.len() && elements::rect_covers(
                        #[trigger] before[j],
                        t,
                        px,
                        py,
                        fill,
                    );
                assert(after[j] == before[j]);
            } else {
                assert(after[before.len() as int] == span_rect(s, p));
            }
        }
        if elements::rects_cover(after, t, px, py, fill) {
            let j = choose|j: int|
                0 <= j < after.len() && elements::rect_covers(#[trigger] after[j], t, px, py, fill);
            if j < before.len() {
                assert(after[j] == before[j]);
                assert(elements::rects_cover(before, t, px, py, fill));
                let i = choose|i: int|
                    0 <= i < d.len() && span_colors(#[trigger] d[i], p, t, px, py, fill);
                assert(v[i] == d[i]);
            } else {
                assert(span_colors(v[v.len() - 1], p, t, px, py, fill));
            }
        }
    }
}

/// The clip path of everything in the frame.
pub open spec fn frame_clip(p: Placement) -> Option<Seq<char>> {
    if p.clipped {
        Some("url(#frame-clip)"@)
    } else {
        None
    }
}

/// Every rectangle of a span is clipped as the frame is.
pub proof fn lemma_spans_clipped(v: Seq<CellSpanView>, p: Placement)
    ensures
        merge::every(span_rects(v, p), |r: BgRectView| r.clip_path == frame_clip(p)),
        merge::every(span_lines(v, p), |r: BgRectView| r.clip_path == frame_clip(p)),
    decreases v.len(),
{
    if v.len() > 0 {
        lemma_spans_clipped(v.drop_last(), p);
        let w = |r: BgRectView| r.clip_path == frame_clip(p);
        let (a, b) = (span_rects(v.drop_last(), p), span_rects(v, p));
        assert forall|i: int| 0 <= i < b.len() implies w(#[trigger] b[i]) by {
            if i < a.len() {
                assert(w(a[i]));
            }
        }
        let (c, d) = (span_lines(v.drop_last(), p), span_lines(v, p));
        assert forall|i: int| 0 <= i < d.len() implies w(#[trigger] d[i]) by {
            if i < c.len() {
                assert(w(c[i]));
            }
        }
    }
}

/// Whether a span underlines a pixel with a colour.
pub open spec fn span_underlines(
    s: CellSpanView,
    p: Placement,
    t: u32,
    px: int,
    py: int,
    fill: Rgb,
) -> bool {
    &&& s.start_ms <= t < s.end_ms
    &&& underlined(s.visual)
    &&& s.visual.fg == fill
    &&& p.left(s.col) <= px < p.left(s.col) + p.cell_w
    &&& py == p.line(s.row)
}

/// The lines under spans cover a pixel exactly if some span underlines it.
pub proof fn lemma_span_lines_cover(
    v: Seq<CellSpanView>,
    p: Placement,
    t: u32,
    px: int,
    py: int,
    fill: Rgb,
)
    ensures
        elements::rects_cover(span_lines(v, p), t, px, py, fill) == exists|i: int|
            0 <= i < v.len() && span_underlines(#[trigger] v[i], p, t, px, py, fill),
    decreases v.len(),
{
    if v.len() == 0 {
        assert(span_lines(v, p).len() == 0);
    } else {
        let d = v.drop_last();
        let s = v.last();
        lemma_span_lines_cover(d, p, t, px, py, fill);
        let before = span_lines(d, p);
        let after = span_lines(v, p);
        if exists|i: int| 0 <= i < v.len() && span_underlines(#[trigger] v[i], p, t, px, py, fill) {
            let i = choose|i: int|
                0 <= i < v.len() && span_underlines(#[trigger] v[i], p, t, px, py, fill);
            if i < d.len() {
                assert(d[i] == v[i]);
                let j = choose|j: int|
                    0 <= j < before.len() && elements::rect_covers(
                        #[trigger] before[j],
                        t,
                        px,
                        py,
                        fill,
                    );
                assert(after[j] == before[j]);
            } else {
                assert(after[before.len() as int] == span_line(s, p));
            }
        }
        if elements::rects_cover(after, t, px, py, fill) {
            let j = choose|j: int|
                0 <= j < after.len() && elements::rect_covers(#[trigger] after[j], t, px, py, fill);
            if j < before.len() {
                assert(after[j] == before[j]);
                assert(elements::rects_cover(before, t, px, py, fill));
                let i = choose|i: int|
                    0 <= i < d.len() && span_underlines(#[trigger] d[i], p, t, px, py, fill);
                assert(v[i] == d[i]);
            } else {
                assert(span_underlines(v[v.len() - 1], p, t, px, py, fill));
            }
        }
    }
}

/// The rows of spans show a glyph exactly if some span shows a cell with it.
pub proof fn lemma_span_rows_show(v: Seq<CellSpanView>, p: Placement, t: u32, y: u32, g: Glyph)
    ensures
        elements::text_shows(span_rows(v, p), t, y, g) == exists|i: int|
            0 <= i < v.len() && (#[trigger] v[i]).start_ms <= t < v[i].end_ms && p.line(v[i].row)
                == y && cell_shows(p, v[i].col, v[i].visual, g),
    decreases v.len(),
{
    let shown = |s: CellSpanView|
        s.start_ms <= t < s.end_ms && p.line(s.row) == y && cell_shows(p, s.col, s.visual, g);
    if v.len() == 0 {
        assert(span_rows(v, p).len() == 0);
    } else {
        let d = v.drop_last();
        let s = v.last();
        lemma_span_rows_show(d, p, t, y, g);
        lemma_span_row_shows(s, p, t, y, g);
        let before = span_rows(d, p);
        let after = span_rows(v, p);
        if exists|i: int|
            0 <= i < v.len() && (#[trigger] v[i]).start_ms <= t < v[i].end_ms && p.line(v[i].row)
                == y && cell_shows(p, v[i].col, v[i].visual, g) {
            let i = choose|i: int|
                0 <= i < v.len() && (#[trigger] v[i]).start_ms <= t < v[i].end_ms && p.line(
                    v[i].row,
                ) == y && cell_shows(p, v[i].col, v[i].visual, g);
            if i < d.len() {
                assert(d[i] == v[i]);
                assert(elements::text_shows(before, t, y, g));
                let j = choose|j: int|
                    0 <= j < before.len() && elements::row_shows(#[trigger] before[j], t, y, g);
                assert(after[j] == before[j]);
            } else {
                assert(after[before.len() as int] == span_row(s, p));
            }
        }
        if elements::text_shows(after, t, y, g) {
            let j = choose|j: int|
                0 <= j < after.len() && elements::row_shows(#[trigger] after[j], t, y, g);
            if j < before.len() {
                assert(after[j] == before[j]);
                assert(elements::text_shows(before, t, y, g));
                let i = choose|i: int|
                    0 <= i < d.len() && (#[trigger] d[i]).start_ms <= t < d[i].end_ms && p.line(
                        d[i].row,
                    ) == y && cell_shows(p, d[i].col, d[i].visual, g);
                assert(v[i] == d[i]);
            } else {
                assert(after[j] == span_row(s, p));
                assert(v[v.len() - 1] == s);
            }
        }
    }
}

} // verus!
