//! How glyphs fill cells: the size of a cell, the scale of a glyph, and where it
//! goes. Fonts give their lengths; the arithmetic is single precision.
use vstd::prelude::*;

use crate::render_gif::canvas;
use crate::render_gif::raster;
use crate::render_gif::stamp::GlyphBlit;
use crate::render_svg::layout;
use crate::render_svg::metrics;
use crate::runner::options::CellMetrics;
use crate::single;
use crate::single::{divide, from_quotient, from_whole, multiply, round_single, Measure, ONE};
use crate::viewport::CanvasLayout;

verus! {

/// The largest length of a font.
pub const FONT_LIMIT: i128 = 0x1_0000_0000_0000_0000_0000;

/// Lengths of a font at a scale: how far it goes above the line that text stands
/// on, and, as a negative number, how far below it.
#[derive(Debug, Clone, Copy)]
pub struct FontLengths {
    pub ascent: Measure,
    pub descent: Measure,
}

impl FontLengths {
    pub open spec fn fits(self) -> bool {
        &&& -FONT_LIMIT <= self.ascent <= FONT_LIMIT
        &&& -FONT_LIMIT <= self.descent <= FONT_LIMIT
    }

    /// From the lowest to the highest.
    pub open spec fn height(self) -> int {
        single::single(self.ascent - self.descent)
    }

    /// The middle above the line.
    pub open spec fn middle(self) -> int {
        single::single(self.ascent + self.descent) / 2
    }
}

/// `v` rounded to a whole number, at least `least`.
pub open spec fn rounded_above(v: int, least: int) -> int {
    let n = (v + ONE / 2) / (ONE as int);
    if n < least {
        least
    } else {
        n
    }
}

/// `v` rounded up to a whole number, at least one.
pub open spec fn ceiling(v: int) -> int {
    let n = (v + ONE - 1) / (ONE as int);
    if n < 1 {
        1
    } else {
        n
    }
}

/// The size of a cell, and where the line of its text is.
#[derive(Debug, Clone, Copy)]
pub struct CellFont {
    pub cell: CellMetrics,
    pub baseline: u32,
}

/// A cell is as wide as a letter with its spacing and as high as the font times the
/// height of a line; what is left above and below the text is the same.
pub open spec fn cell_font(
    advance: Measure,
    font: FontLengths,
    line_height: Measure,
    letter_spacing: Measure,
) -> CellFont {
    let cell_h = ceiling(single::product(font.height(), line_height as int));
    let spare = single::single(single::whole(cell_h as u32) - font.height());
    let extra = if spare < 0 {
        0
    } else {
        spare
    };
    CellFont {
        cell: CellMetrics {
            cell_width_px: rounded_above(single::single(advance + letter_spacing), 1) as u32,
            cell_height_px: cell_h as u32,
            char_height_px: rounded_above(font.height(), 0) as u32,
            ascent_px: rounded_above(font.ascent as int, 0) as u32,
        },
        baseline: rounded_above(single::single(font.ascent + extra / 2), 0) as u32,
    }
}

fn round_above(v: Measure, least: u32) -> (r: u32)
    requires
        -0x8000_0000 * ONE <= v <= 0x8000_0000 * ONE,
        least <= 1,
    ensures
        r == rounded_above(v as int, least as int),
        r <= 0x8000_0000,
{
    if v < 0 {
        assert((v + ONE / 2) / (ONE as int) <= 0) by (nonlinear_arith)
            requires
                v < 0,
                ONE == 0x1_0000_0000_0000_0000,
        ;
        return least;
    }
    let n: i128 = (v + ONE / 2) / ONE;
    if n < least as i128 {
        least
    } else {
        n as u32
    }
}

fn round_up(v: Measure) -> (r: u32)
    requires
        -0x1000_0000 * ONE <= v <= 0x1000_0000 * ONE,
    ensures
        r == ceiling(v as int),
        1 <= r <= 0x1000_0000,
{
    if v <= 0 {
        assert((v + ONE - 1) / (ONE as int) < 1) by (nonlinear_arith)
            requires
                v <= 0,
                ONE == 0x1_0000_0000_0000_0000,
        ;
        return 1;
    }
    let n: i128 = (v + (ONE - 1)) / ONE;
    n as u32
}

/// The most heights of the font that a line can have.
pub const LINE_LIMIT: i128 = 0x100_0000_0000_0000_0000;

proof fn lemma_scaled_bound(a: int, b: int)
    requires
        -4 * FONT_LIMIT <= a <= 4 * FONT_LIMIT,
        -LINE_LIMIT <= b <= LINE_LIMIT,
    ensures
        -0x1000_0000 * ONE <= single::product(a, b) <= 0x1000_0000 * ONE,
{
    let x = a / (single::GRAIN as int);
    let y = b / (single::GRAIN as int);
    assert(-0x4_0000_0000_0000 <= x <= 0x4_0000_0000_0000 && -0x100_0000_0000 <= y
        <= 0x100_0000_0000) by (nonlinear_arith)
        requires
            x == a / (single::GRAIN as int),
            y == b / (single::GRAIN as int),
            -4 * 0x1_0000_0000_0000_0000_0000 <= a <= 4 * 0x1_0000_0000_0000_0000_0000,
            -0x100_0000_0000_0000_0000 <= b <= 0x100_0000_0000_0000_0000,
            single::GRAIN == 0x1_0000_0000,
    ;
    assert(-0x400_0000 * ONE <= x * y <= 0x400_0000 * ONE) by (nonlinear_arith)
        requires
            -0x4_0000_0000_0000 <= x <= 0x4_0000_0000_0000,
            -0x100_0000_0000 <= y <= 0x100_0000_0000,
            ONE == 0x1_0000_0000_0000_0000,
    ;
    single::lemma_single_bounds(x * y);
}

/// The size of a cell for a font: how far a letter moves the pen, its lengths, the
/// height of a line in heights of the font, and the space between letters.
pub fn css_cell_metrics(
    advance: Measure,
    font: FontLengths,
    line_height: Measure,
    letter_spacing: Measure,
) -> (r: CellFont)
    requires
        font.fits(),
        -FONT_LIMIT <= advance <= FONT_LIMIT,
        -FONT_LIMIT <= letter_spacing <= FONT_LIMIT,
        -LINE_LIMIT <= line_height <= LINE_LIMIT,
    ensures
        r == cell_font(advance, font, line_height, letter_spacing),
        r.cell.cell_width_px >= 1,
        r.cell.cell_height_px >= 1,
{
    let w: Measure = round_single(advance + letter_spacing);
    let height: Measure = round_single(font.ascent - font.descent);
    proof {
        lemma_scaled_bound(height as int, line_height as int);
    }
    let cell_h: u32 = round_up(multiply(height, line_height));
    let whole: Measure = from_whole(cell_h);
    let mut extra: Measure = round_single(whole - height);
    if extra < 0 {
        extra = 0;
    }
    let line: Measure = round_single(font.ascent + extra / 2);
    CellFont {
        cell: CellMetrics {
            cell_width_px: round_above(w, 1),
            cell_height_px: cell_h,
            char_height_px: round_above(height, 0),
            ascent_px: round_above(font.ascent, 0),
        },
        baseline: round_above(line, 0),
    }
}

/// The size of a cell for a font.
pub fn measure_cell_px(
    advance: Measure,
    font: FontLengths,
    line_height: Measure,
    letter_spacing: Measure,
) -> (r: CellMetrics)
    requires
        font.fits(),
        -FONT_LIMIT <= advance <= FONT_LIMIT,
        -FONT_LIMIT <= letter_spacing <= FONT_LIMIT,
        -LINE_LIMIT <= line_height <= LINE_LIMIT,
    ensures
        r == cell_font(advance, font, line_height, letter_spacing).cell,
        r.cell_width_px >= 1,
        r.cell_height_px >= 1,
{
    css_cell_metrics(advance, font, line_height, letter_spacing).cell
}

/// `v`, but at least one.
pub open spec fn one_or_more(v: int) -> int {
    if v < ONE {
        ONE as int
    } else {
        v
    }
}

/// The scale of a glyph across and down. A box-drawing character fills its cell; a
/// glyph of another font than the first is made as high as the first one's, times
/// the shape of the cell.
pub open spec fn scale_of(
    scale: Measure,
    is_primary: bool,
    is_box: bool,
    advance: Measure,
    font: FontLengths,
    primary: FontLengths,
    cell_w: u32,
    cell_h: u32,
) -> (int, int) {
    if is_box {
        (
            single::product(
                scale as int,
                single::ratio(single::whole(cell_w), one_or_more(advance as int)),
            ),
            single::product(
                scale as int,
                single::ratio(single::whole(cell_h), one_or_more(font.height())),
            ),
        )
    } else if is_primary {
        (scale as int, scale as int)
    } else {
        let s = single::product(
            scale as int,
            single::product(
                single::ratio(primary.height(), font.height()),
                single::quotient(cell_w, cell_h),
            ),
        );
        (s, s)
    }
}

/// Whether the scale of a glyph can be computed.
pub open spec fn scale_fits(
    scale: Measure,
    font: FontLengths,
    primary: FontLengths,
    advance: Measure,
    cell_w: u32,
    cell_h: u32,
) -> bool {
    &&& 0 <= scale <= FONT_LIMIT
    &&& font.fits()
    &&& primary.fits()
    &&& font.ascent - font.descent >= ONE
    &&& primary.ascent >= primary.descent
    &&& -FONT_LIMIT <= advance <= FONT_LIMIT
    &&& 0 < cell_w <= 0x40_0000
    &&& 0 < cell_h <= 0x40_0000
    &&& single::product(
        single::ratio(primary.height(), font.height()),
        single::quotient(cell_w, cell_h),
    ) <= 0x400_0000 * ONE
}

proof fn lemma_ratio_limit(a: int, b: int, top: int)
    requires
        0 <= a <= top * ONE,
        0 <= top <= 0x40_0000,
        b >= ONE / 2,
    ensures
        0 <= single::ratio(a, b) <= 4 * top * ONE + 1,
{
    let g = single::GRAIN as int;
    let x = a / g;
    let y = b / g;
    assert(0 <= x <= top * 0x1_0000_0000 && y >= 0x8000_0000) by (nonlinear_arith)
        requires
            x == a / g,
            y == b / g,
            0 <= a <= top * ONE,
            b >= ONE / 2,
            g == 0x1_0000_0000,
            ONE == 0x1_0000_0000_0000_0000,
    ;
    let num = x * ONE;
    assert(num / y <= 2 * top * ONE) by (nonlinear_arith)
        requires
            num == x * ONE,
            0 <= x <= top * 0x1_0000_0000,
            y >= 0x8000_0000,
            ONE == 0x1_0000_0000_0000_0000,
    ;
    assert(num >= 0) by (nonlinear_arith)
        requires
            num == x * ONE,
            0 <= x,
            ONE == 0x1_0000_0000_0000_0000,
    ;
    single::lemma_single_ratio_bounds(num as nat, y as nat);
}

proof fn lemma_height(f: FontLengths)
    requires
        f.fits(),
        f.ascent >= f.descent,
    ensures
        0 <= f.height() <= 0x2_0001 * ONE,
        f.ascent - f.descent >= ONE ==> f.height() >= ONE / 2,
{
    let v = f.ascent - f.descent;
    single::lemma_single_at_most(v as nat);
    single::lemma_single_close(v as nat, 1);
    assert(v / 1 == v);
}

/// The scale of a glyph across and down.
pub fn glyph_scale(
    scale: Measure,
    is_primary: bool,
    is_box: bool,
    advance: Measure,
    font: FontLengths,
    primary: FontLengths,
    cell_w: u32,
    cell_h: u32,
) -> (r: (Measure, Measure))
    requires
        scale_fits(scale, font, primary, advance, cell_w, cell_h),
    ensures
        (r.0 as int, r.1 as int) == scale_of(
            scale,
            is_primary,
            is_box,
            advance,
            font,
            primary,
            cell_w,
            cell_h,
        ),
{
    let height: Measure = round_single(font.ascent - font.descent);
    proof {
        lemma_height(font);
        lemma_height(primary);
        single::lemma_whole_exact(cell_w);
        single::lemma_whole_exact(cell_h);
    }
    if is_box {
        let a: Measure = if advance < ONE {
            ONE
        } else {
            advance
        };
        let h: Measure = if height < ONE {
            ONE
        } else {
            height
        };
        proof {
            lemma_ratio_limit(single::whole(cell_w), a as int, cell_w as int);
            lemma_ratio_limit(single::whole(cell_h), h as int, cell_h as int);
        }
        (
            multiply(scale, divide(from_whole(cell_w), a)),
            multiply(scale, divide(from_whole(cell_h), h)),
        )
    } else if is_primary {
        (scale, scale)
    } else {
        let ours: Measure = round_single(primary.ascent - primary.descent);
        proof {
            lemma_ratio_limit(ours as int, height as int, 0x2_0001);
        }
        let taller: Measure = divide(ours, height);
        let shape: Measure = from_quotient(cell_w, cell_h);
        proof {
            lemma_shape(cell_w, cell_h);
            lemma_factor(taller as int, shape as int);
        }
        let s: Measure = multiply(scale, multiply(taller, shape));
        (s, s)
    }
}

proof fn lemma_shape(w: u32, h: u32)
    requires
        0 < w <= 0x40_0000,
        0 < h <= 0x40_0000,
    ensures
        0 <= single::quotient(w, h) <= 0x80_0001 * ONE,
{
    single::lemma_single_exact(w as nat);
    single::lemma_single_exact(h as nat);
    let num = (w * ONE) as nat;
    single::lemma_single_ratio_bounds(num, h as nat);
    assert(num / (h as nat) <= num) by (nonlinear_arith)
        requires
            h > 0,
    ;
}

proof fn lemma_factor(a: int, b: int)
    requires
        0 <= a <= 0x40_0000 * ONE,
        0 <= b <= 0x80_0001 * ONE,
    ensures
        0 <= single::product(a, b),
{
    let x = a / (single::GRAIN as int);
    let y = b / (single::GRAIN as int);
    assert(0 <= x * y) by (nonlinear_arith)
        requires
            0 <= x,
            0 <= y,
    ;
    single::lemma_single_bounds(x * y);
}

/// The line that a glyph stands on in a cell whose top is at `y`. A box-drawing
/// character begins at the top of its cell; a glyph of another font than the first
/// is in the middle. `font` has the lengths at the scale of the glyph.
pub open spec fn line_of(
    y: u32,
    baseline: u32,
    cell_h: u32,
    is_primary: bool,
    is_box: bool,
    font: FontLengths,
) -> int {
    if is_box {
        nearest(single::single(single::whole(y) + font.ascent))
    } else if is_primary {
        y + baseline
    } else {
        raster::truncated(
            single::single(
                single::single(single::whole(y) + single::whole(cell_h) / 2) + font.middle(),
            ),
        )
    }
}

/// `v` rounded to the nearest whole number, halves away from zero.
pub open spec fn nearest(v: int) -> int {
    if v >= 0 {
        (v + ONE / 2) / (ONE as int)
    } else {
        -((-v + ONE / 2) / (ONE as int))
    }
}

fn cut(v: Measure) -> (r: i32)
    requires
        -0x4000_0000 * ONE <= v <= 0x4000_0000 * ONE,
    ensures
        r == raster::truncated(v as int),
        -0x4000_0000 <= r <= 0x4000_0000,
{
    if v >= 0 {
        (v / ONE) as i32
    } else {
        -(((-v) / ONE) as i32)
    }
}

fn round(v: Measure) -> (r: i32)
    requires
        -0x1000_0000 * ONE <= v <= 0x1000_0000 * ONE,
    ensures
        r == nearest(v as int),
        -0x1000_0001 <= r <= 0x1000_0001,
{
    if v >= 0 {
        ((v + ONE / 2) / ONE) as i32
    } else {
        -(((-v + ONE / 2) / ONE) as i32)
    }
}

fn halve(v: Measure) -> (r: Measure)
    requires
        -0x1000_0000 * ONE <= v <= 0x1000_0000 * ONE,
    ensures
        r == v as int / 2,
{
    if v >= 0 {
        v / 2
    } else {
        -((-v + 1) / 2)
    }
}

/// The line that a glyph stands on.
pub fn glyph_line(
    y: u32,
    baseline: u32,
    cell_h: u32,
    is_primary: bool,
    is_box: bool,
    font: FontLengths,
) -> (r: i32)
    requires
        y <= 0x40_0000,
        baseline <= 0x40_0000,
        cell_h <= 0x40_0000,
        font.fits(),
    ensures
        r == line_of(y, baseline, cell_h, is_primary, is_box, font),
        -0x1000_0000 <= r <= 0x1000_0000,
{
    let top: Measure = from_whole(y);
    if is_box {
        round(round_single(top + font.ascent))
    } else if is_primary {
        (y + baseline) as i32
    } else {
        let whole: Measure = from_whole(cell_h);
        let center: Measure = round_single(top + whole / 2);
        let middle: Measure = halve(round_single(font.ascent + font.descent));
        cut(round_single(center + middle))
    }
}

/// How much of each pixel around the pen a glyph covers.
#[derive(Debug, Clone)]
pub struct GlyphMask {
    pub offset_x: i32,
    pub offset_y: i32,
    pub width: u32,
    pub height: u32,
    pub coverage: Vec<Measure>,
}

/// A character, how far it moves the pen, the line it stands on, and its mask, if
/// there is something to see.
#[derive(Debug, Clone)]
pub struct CharGlyph {
    pub is_box: bool,
    pub advance: Measure,
    pub line: i32,
    pub mask: Option<GlyphMask>,
}

/// How glyphs are moved to the right: by half of the space between letters, or into
/// the middle of the way that the pen makes.
#[derive(Debug, Clone, Copy)]
pub enum Shift {
    Spacing(Measure),
    Centered,
}

/// The most characters of a title.
pub const MOST_CHARS: u32 = 0x40_0000;

/// How far the pen can go: 0x2000_0000 pixels.
pub const PEN_LIMIT: i128 = 0x2000_0000_0000_0000_0000_0000;

impl CharGlyph {
    /// Whether the glyph can be placed.
    pub open spec fn fits(&self) -> bool {
        &&& 0 <= self.advance <= FONT_LIMIT
        &&& -0x1000_0000 <= self.line <= 0x1000_0000
        &&& self.mask matches Some(m) ==> {
            &&& -0x1000_0000 <= m.offset_x <= 0x1000_0000
            &&& -0x1000_0000 <= m.offset_y <= 0x1000_0000
            &&& m.width <= 0x10_0000
            &&& m.height <= 0x10_0000
            &&& m.coverage@.len() == m.width * m.height
            &&& forall|k: int|
                0 <= k < m.coverage@.len() ==> (#[trigger] m.coverage@[k])
                    <= canvas::OPACITY_LIMIT
        }
    }
}

/// Where the pen is after the first `n` characters.
pub open spec fn pen_after(glyphs: Seq<CharGlyph>, x: u32, n: int) -> int
    decreases n,
{
    if n <= 0 {
        single::whole(x)
    } else {
        single::single(pen_after(glyphs, x, n - 1) + glyphs[n - 1].advance)
    }
}

/// Where a glyph begins.
pub open spec fn glyph_start(pen: int, g: CharGlyph, width: u32, shift: Shift) -> int {
    if g.is_box {
        pen
    } else {
        match shift {
            Shift::Spacing(s) => single::single(pen + metrics::floor_of(s as int / 2)),
            Shift::Centered => single::single(
                pen + single::single(g.advance - single::whole(width)) / 2,
            ),
        }
    }
}

/// Where a glyph is drawn and how much it covers.
pub struct BlitView {
    pub left: int,
    pub top: int,
    pub width: u32,
    pub height: u32,
    pub coverage: Seq<Measure>,
}

pub open spec fn blit(g: GlyphBlit) -> BlitView {
    BlitView {
        left: g.left as int,
        top: g.top as int,
        width: g.width,
        height: g.height,
        coverage: g.coverage@,
    }
}

pub open spec fn blits(v: Seq<GlyphBlit>) -> Seq<BlitView> {
    Seq::new(v.len(), |i: int| blit(v[i]))
}

/// The first `n` characters, placed one after another.
pub open spec fn placed(glyphs: Seq<CharGlyph>, x: u32, shift: Shift, n: int) -> Seq<BlitView>
    decreases n,
{
    if n <= 0 {
        Seq::empty()
    } else {
        let before = placed(glyphs, x, shift, n - 1);
        let g = glyphs[n - 1];
        match g.mask {
            Some(m) => before.push(
                BlitView {
                    left: raster::truncated(
                        glyph_start(pen_after(glyphs, x, n - 1), g, m.width, shift),
                    ) + m.offset_x,
                    top: g.line + m.offset_y,
                    width: m.width,
                    height: m.height,
                    coverage: m.coverage@,
                },
            ),
            None => before,
        }
    }
}

fn copy_coverage(v: &Vec<Measure>) -> (r: Vec<Measure>)
    ensures
        r@ == v@,
{
    let mut out: Vec<Measure> = Vec::new();
    let mut i: usize = 0;
    while i < v.len()
        invariant
            i <= v@.len(),
            out@ == v@.take(i as int),
        decreases v@.len() - i,
    {
        out.push(v[i]);
        assert(v@.take(i + 1) =~= v@.take(i as int).push(v@[i as int]));
        i = i + 1;
    }
    assert(v@.take(v@.len() as int) =~= v@);
    out
}

/// Whether the pen stays within reach.
pub open spec fn pen_fits(glyphs: Seq<CharGlyph>, x: u32) -> bool {
    forall|n: int| 0 <= n <= glyphs.len() ==> #[trigger] pen_after(glyphs, x, n) <= PEN_LIMIT
}

/// Whether the pen stays within reach.
pub fn is_within_reach(glyphs: &Vec<CharGlyph>, x: u32) -> (r: bool)
    requires
        forall|i: int| 0 <= i < glyphs@.len() ==> (#[trigger] glyphs@[i]).fits(),
    ensures
        r == pen_fits(glyphs@, x),
{
    let mut pen: Measure = from_whole(x);
    if pen > PEN_LIMIT {
        assert(pen_after(glyphs@, x, 0) > PEN_LIMIT);
        return false;
    }
    let mut i: usize = 0;
    while i < glyphs.len()
        invariant
            i <= glyphs@.len(),
            forall|k: int| 0 <= k < glyphs@.len() ==> (#[trigger] glyphs@[k]).fits(),
            pen == pen_after(glyphs@, x, i as int),
            0 <= pen <= PEN_LIMIT,
            forall|n: int| 0 <= n <= i ==> #[trigger] pen_after(glyphs@, x, n) <= PEN_LIMIT,
        decreases glyphs@.len() - i,
    {
        assert(glyphs@[i as int].fits());
        pen = round_single(pen + glyphs[i].advance);
        i = i + 1;
        if pen > PEN_LIMIT {
            assert(pen_after(glyphs@, x, i as int) > PEN_LIMIT);
            return false;
        }
    }
    true
}

/// The pen does not go back behind the edge.
proof fn lemma_pen(glyphs: Seq<CharGlyph>, x: u32, n: int)
    requires
        0 <= n <= glyphs.len(),
        forall|i: int| 0 <= i < glyphs.len() ==> (#[trigger] glyphs[i]).fits(),
    ensures
        0 <= pen_after(glyphs, x, n),
    decreases n,
{
    if n <= 0 {
        single::lemma_single_bounds(x as int);
    } else {
        lemma_pen(glyphs, x, n - 1);
        assert(glyphs[n - 1].fits());
        single::lemma_single_bounds(pen_after(glyphs, x, n - 1) + glyphs[n - 1].advance);
    }
}

/// Place characters one after another.
pub fn place_glyphs(glyphs: &Vec<CharGlyph>, x: u32, shift: Shift) -> (out: Vec<GlyphBlit>)
    requires
        pen_fits(glyphs@, x),
        forall|i: int| 0 <= i < glyphs@.len() ==> (#[trigger] glyphs@[i]).fits(),
        shift matches Shift::Spacing(s) ==> -FONT_LIMIT <= s <= FONT_LIMIT,
    ensures
        blits(out@) == placed(glyphs@, x, shift, glyphs@.len() as int),
        raster::glyphs_fit(out@),
{
    let mut out: Vec<GlyphBlit> = Vec::new();
    let mut pen: Measure = from_whole(x);
    let spread: Measure = match shift {
        Shift::Spacing(s) => metrics::floor(halve(s)),
        Shift::Centered => 0,
    };
    let mut i: usize = 0;
    assert(blits(out@) =~= Seq::empty());
    while i < glyphs.len()
        invariant
            i <= glyphs@.len(),
            pen_fits(glyphs@, x),
            forall|k: int| 0 <= k < glyphs@.len() ==> (#[trigger] glyphs@[k]).fits(),
            -FONT_LIMIT <= spread <= FONT_LIMIT,
            shift matches Shift::Spacing(s) ==> {
                &&& -FONT_LIMIT <= s <= FONT_LIMIT
                &&& spread == metrics::floor_of(s as int / 2)
            },
            pen == pen_after(glyphs@, x, i as int),
            blits(out@) == placed(glyphs@, x, shift, i as int),
            raster::glyphs_fit(out@),
        decreases glyphs@.len() - i,
    {
        let ghost before = out@;
        proof {
            lemma_pen(glyphs@, x, i as int);
            lemma_pen(glyphs@, x, i + 1);
            assert(pen_after(glyphs@, x, i as int) <= PEN_LIMIT);
            assert(glyphs@[i as int].fits());
        }
        let g: &CharGlyph = &glyphs[i];
        match &g.mask {
            Some(m) => {
                let start: Measure = if g.is_box {
                    pen
                } else {
                    match shift {
                        Shift::Spacing(_) => round_single(pen + spread),
                        Shift::Centered => {
                            let w: Measure = from_whole(m.width);
                            round_single(pen + halve(round_single(g.advance - w)))
                        },
                    }
                };
                proof {
                    lemma_start(pen as int, *g, m.width, shift);
                }
                out.push(
                    GlyphBlit {
                        left: cut(start) + m.offset_x,
                        top: g.line + m.offset_y,
                        width: m.width,
                        height: m.height,
                        coverage: copy_coverage(&m.coverage),
                    },
                );
                assert(blits(out@) =~= blits(before).push(blit(out@[before.len() as int])));
            },
            None => {},
        }
        pen = round_single(pen + g.advance);
        i = i + 1;
    }
    out
}

proof fn lemma_start(pen: int, g: CharGlyph, width: u32, shift: Shift)
    requires
        0 <= pen <= 0x2020_0000 * ONE,
        0 <= g.advance <= FONT_LIMIT,
        width <= 0x10_0000,
        shift matches Shift::Spacing(s) ==> -FONT_LIMIT <= s <= FONT_LIMIT,
    ensures
        -0x4000_0000 * ONE <= glyph_start(pen, g, width, shift) <= 0x2800_0000 * ONE,
{
    single::lemma_whole_exact(width);
    let d = match shift {
        Shift::Spacing(s) => metrics::floor_of(s as int / 2),
        Shift::Centered => single::single(g.advance - single::whole(width)) / 2,
    };
    single::lemma_single_bounds(g.advance - single::whole(width));
    let v = pen + d;
    if v >= 0 {
        single::lemma_single_at_most(v as nat);
    }
    single::lemma_single_bounds(v);
}

/// The title's size unless another is asked for: 0.765 of the bar, at least 17.
pub const TITLE_SHARE: i128 = 0xc3d7_0a00_0000_0000;

pub const LEAST_TITLE: i128 = 0x11_0000_0000_0000_0000;

pub open spec fn title_size_of(bar_h: u32) -> int {
    let v = single::product(single::whole(bar_h), TITLE_SHARE as int);
    if v < LEAST_TITLE {
        LEAST_TITLE as int
    } else {
        v
    }
}

/// The size of the title for a bar.
pub fn title_size(bar_h: u32) -> (r: Measure)
    requires
        bar_h <= 0x40_0000,
    ensures
        r == title_size_of(bar_h),
{
    let v: Measure = multiply(from_whole(bar_h), TITLE_SHARE);
    if v < LEAST_TITLE {
        LEAST_TITLE
    } else {
        v
    }
}

/// The width of the first `n` characters.
pub open spec fn width_after(advances: Seq<Measure>, n: int) -> int
    decreases n,
{
    if n <= 0 {
        0
    } else {
        single::single(width_after(advances, n - 1) + advances[n - 1])
    }
}

/// Where a title of some width begins, so that it is in the middle of the frame, and
/// the line it stands on, so that it is in the middle of the bar.
pub open spec fn title_place(l: CanvasLayout, width: int, font: FontLengths) -> (int, int) {
    let middle = single::single(single::whole(l.frame_x) + single::whole(l.frame_w) / 2);
    let start = single::single(middle - width / 2);
    let left = if start < single::whole(l.frame_x) {
        single::whole(l.frame_x)
    } else {
        start
    };
    let line = single::single(
        single::single(single::whole(l.frame_y) + single::whole(l.bar_h) / 2) + font.middle(),
    );
    (
        raster::truncated(left),
        if line < 0 {
            0
        } else {
            raster::truncated(line)
        },
    )
}

proof fn lemma_width(advances: Seq<Measure>, n: int)
    requires
        0 <= n <= advances.len(),
        n <= MOST_CHARS,
        forall|i: int| 0 <= i < advances.len() ==> 0 <= #[trigger] advances[i] <= FONT_LIMIT,
    ensures
        0 <= width_after(advances, n) <= n * 0x2_0000 * ONE,
    decreases n,
{
    if n > 0 {
        lemma_width(advances, n - 1);
        assert(0 <= advances[n - 1] <= FONT_LIMIT);
        single::lemma_single_at_most(
            (width_after(advances, n - 1) + advances[n - 1]) as nat,
        );
    }
}

/// Where a title begins and the line it stands on.
pub fn place_title(l: &CanvasLayout, advances: &Vec<Measure>, font: FontLengths) -> (r: (u32, i32))
    requires
        layout::canvas_fits(*l),
        advances@.len() <= MOST_CHARS,
        forall|i: int| 0 <= i < advances@.len() ==> 0 <= #[trigger] advances@[i] <= FONT_LIMIT,
        font.fits(),
    ensures
        (r.0 as int, r.1 as int) == title_place(
            *l,
            width_after(advances@, advances@.len() as int),
            font,
        ),
{
    let mut width: Measure = 0;
    let mut i: usize = 0;
    while i < advances.len()
        invariant
            i <= advances@.len(),
            advances@.len() <= MOST_CHARS,
            forall|k: int|
                0 <= k < advances@.len() ==> 0 <= #[trigger] advances@[k] <= FONT_LIMIT,
            width == width_after(advances@, i as int),
            0 <= width <= i * 0x2_0000 * ONE,
        decreases advances@.len() - i,
    {
        width = round_single(width + advances[i]);
        i = i + 1;
        proof {
            lemma_width(advances@, i as int);
        }
    }
    proof {
        single::lemma_whole_exact(l.frame_x);
        single::lemma_whole_exact(l.frame_w);
        single::lemma_whole_exact(l.frame_y);
        single::lemma_whole_exact(l.bar_h);
    }
    let edge: Measure = from_whole(l.frame_x);
    let middle: Measure = round_single(edge + from_whole(l.frame_w) / 2);
    let start: Measure = round_single(middle - width / 2);
    let left: Measure = if start < edge {
        edge
    } else {
        start
    };
    let center: Measure = round_single(from_whole(l.frame_y) + from_whole(l.bar_h) / 2);
    let line: Measure = round_single(
        center + halve(round_single(font.ascent + font.descent)),
    );
    (
        cut(left) as u32,
        if line < 0 {
            0
        } else {
            cut(line)
        },
    )
}

} // verus!
