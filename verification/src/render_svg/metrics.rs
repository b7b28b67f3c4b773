//! Lengths of the text in the document, scaled from those of the raster font.
use vstd::prelude::*;

use crate::render_svg::tracks::PIXEL_LIMIT;
use crate::single;
use crate::single::{divide, from_whole, multiply, round_single, Measure, GRAIN, ONE};
use crate::viewport::ViewportConfig;

verus! {

/// Bound on the baseline: what a character and the cell around it leave above it.
pub const BASELINE_LIMIT: u32 = 0x60_0008;

/// What the size of the document's font makes of the lengths of the raster font.
#[derive(Debug, Clone, Copy)]
pub struct SvgMetrics {
    pub letter_spacing: Measure,
    /// Half the spacing, rounded down, by which text is moved to the right.
    pub offset_x: Measure,
    /// Distance from the top of a cell to the line its text stands on.
    pub baseline: u32,
    /// Factor by which box-drawing characters are stretched.
    pub scale_y: Measure,
    /// From the line of the text to the middle of its cell.
    pub cell_center_y_offset: Measure,
    /// From the line of the text to the middle of its characters.
    pub char_center_y_offset: Measure,
}

/// The document's font size as a multiple of the raster font's.
pub open spec fn font_scale(font_size: Measure, cfg: ViewportConfig) -> int {
    single::ratio(font_size as int, cfg.font_size_px as int)
}

pub open spec fn char_height(font_size: Measure, cfg: ViewportConfig) -> int {
    single::single(cfg.char_height_px * font_scale(font_size, cfg))
}

pub open spec fn ascent(font_size: Measure, cfg: ViewportConfig) -> int {
    single::single(cfg.ascent_px * font_scale(font_size, cfg))
}

/// What the height of a cell leaves above and below a character.
pub open spec fn extra_height(font_size: Measure, cfg: ViewportConfig) -> int {
    let e = single::single(cfg.cell_h() * ONE - char_height(font_size, cfg));
    if e < 0 {
        0
    } else {
        e
    }
}

/// The nearest whole number; halves go up.
pub open spec fn rounded(v: int) -> int {
    (v + ONE / 2) / (ONE as int)
}

pub open spec fn baseline_of(font_size: Measure, cfg: ViewportConfig) -> int {
    rounded(single::single(ascent(font_size, cfg) + extra_height(font_size, cfg) / 2))
}

pub open spec fn spacing_of(font_size: Measure, cfg: ViewportConfig) -> int {
    single::product(cfg.letter_spacing as int, font_scale(font_size, cfg))
}

/// The largest whole number not above `v`.
pub open spec fn floor_of(v: int) -> int {
    (v / (ONE as int)) * ONE
}

pub open spec fn stretch_of(font_size: Measure, cfg: ViewportConfig) -> int {
    let s = single::ratio(cfg.cell_h() * ONE, char_height(font_size, cfg));
    if s < ONE {
        ONE as int
    } else {
        s
    }
}

/// The lengths for a font size.
pub open spec fn metrics_of(font_size: Measure, cfg: ViewportConfig) -> SvgMetrics {
    SvgMetrics {
        letter_spacing: spacing_of(font_size, cfg) as i128,
        offset_x: floor_of(spacing_of(font_size, cfg) / 2) as i128,
        baseline: baseline_of(font_size, cfg) as u32,
        scale_y: stretch_of(font_size, cfg) as i128,
        cell_center_y_offset: single::single(
            -single::whole(baseline_of(font_size, cfg) as u32) + cfg.cell_h() * ONE / 2,
        ) as i128,
        char_center_y_offset: single::single(
            -ascent(font_size, cfg) + char_height(font_size, cfg) / 2,
        ) as i128,
    }
}

/// Whether the lengths can be computed: there is a font, no character is larger than a
/// canvas can be, no two are farther apart, and none is too flat to be stretched.
pub open spec fn metrics_fit(font_size: Measure, cfg: ViewportConfig) -> bool {
    &&& 0 <= font_size <= single::MEASURE_LIMIT
    &&& GRAIN <= cfg.font_size_px <= single::MEASURE_LIMIT
    &&& 0 < cfg.char_height_px
    &&& cfg.cell_h() <= PIXEL_LIMIT
    &&& -single::MEASURE_LIMIT <= cfg.letter_spacing <= single::MEASURE_LIMIT
    &&& font_scale(font_size, cfg) <= single::MEASURE_LIMIT
    &&& cfg.char_height_px * font_scale(font_size, cfg) <= PIXEL_LIMIT * ONE
    &&& cfg.ascent_px * font_scale(font_size, cfg) <= PIXEL_LIMIT * ONE
    &&& -PIXEL_LIMIT * ONE <= spacing_of(font_size, cfg) <= PIXEL_LIMIT * ONE
    &&& char_height(font_size, cfg) >= GRAIN
    &&& stretch_of(font_size, cfg) <= single::MEASURE_LIMIT
}

/// Whether the lengths can be computed.
pub fn metrics_exist(font_size: Measure, cfg: &ViewportConfig) -> (r: bool)
    ensures
        r == metrics_fit(font_size, *cfg),
{
    let most: i128 = PIXEL_LIMIT as i128 * ONE;
    let (size, spacing) = (cfg.font_size_px, cfg.letter_spacing);
    if font_size < 0 || font_size > single::MEASURE_LIMIT || size < GRAIN || size
        > single::MEASURE_LIMIT || spacing < -single::MEASURE_LIMIT || spacing
        > single::MEASURE_LIMIT || cfg.char_height_px == 0 || cfg.cell_height() > PIXEL_LIMIT {
        return false;
    }
    let scale: Measure = divide(font_size, size);
    if scale > single::MEASURE_LIMIT {
        return false;
    }
    assert(0 <= cfg.char_height_px * scale <= 0xffff_ffff * single::MEASURE_LIMIT && 0
        <= cfg.ascent_px * scale <= 0xffff_ffff * single::MEASURE_LIMIT) by (nonlinear_arith)
        requires
            0 <= scale <= single::MEASURE_LIMIT,
            cfg.char_height_px <= 0xffff_ffff,
            cfg.ascent_px <= 0xffff_ffff,
    ;
    let high: i128 = cfg.char_height_px as i128 * scale;
    let between: Measure = multiply(spacing, scale);
    if high > most || cfg.ascent_px as i128 * scale > most || between < -most || between > most {
        return false;
    }
    let char_h: Measure = round_single(high);
    if char_h < GRAIN {
        return false;
    }
    let cell: Measure = cfg.cell_height() as i128 * ONE;
    divide(cell, char_h) <= single::MEASURE_LIMIT
}

/// `v` rounded down to a whole number.
pub fn floor(v: Measure) -> (r: Measure)
    requires
        -single::MEASURE_LIMIT <= v <= single::MEASURE_LIMIT,
    ensures
        r == floor_of(v as int),
        v - ONE < r <= v,
{
    if v >= 0 {
        (v / ONE) * ONE
    } else {
        let m: i128 = (-v + (ONE - 1)) / ONE;
        assert(v as int / (ONE as int) == -m) by (nonlinear_arith)
            requires
                v < 0,
                m == (-v + (ONE - 1)) / (ONE as int),
                ONE == 0x1_0000_0000_0000_0000,
        ;
        -m * ONE
    }
}

fn halve(v: Measure) -> (r: Measure)
    requires
        -single::MEASURE_LIMIT <= v <= single::MEASURE_LIMIT,
    ensures
        r == v as int / 2,
{
    if v >= 0 {
        v / 2
    } else {
        -((-v + 1) / 2)
    }
}

impl SvgMetrics {
    /// The lengths for a font size.
    pub fn new(font_size: Measure, cfg: &ViewportConfig) -> (m: SvgMetrics)
        requires
            metrics_fit(font_size, *cfg),
        ensures
            m == metrics_of(font_size, *cfg),
            m.baseline <= BASELINE_LIMIT,
            -PIXEL_LIMIT * ONE <= m.letter_spacing <= PIXEL_LIMIT * ONE,
            -PIXEL_LIMIT * ONE <= 2 * (m.offset_x + ONE),
            2 * m.offset_x <= PIXEL_LIMIT * ONE,
            -single::MEASURE_LIMIT <= m.scale_y <= single::MEASURE_LIMIT,
            -0xff_ffff * ONE <= m.cell_center_y_offset <= 0xff_ffff * ONE,
            -0xff_ffff * ONE <= m.char_center_y_offset <= 0xff_ffff * ONE,
    {
        let scale: Measure = divide(font_size, cfg.font_size_px);
        proof {
            lemma_baseline_bounds(font_size, *cfg);
        }
        let spacing: Measure = multiply(cfg.letter_spacing, scale);
        let offset_x: Measure = floor(halve(spacing));
        assert(0 <= cfg.char_height_px * scale && 0 <= cfg.ascent_px * scale) by (nonlinear_arith)
            requires
                scale >= 0,
        ;
        let char_h: Measure = round_single(cfg.char_height_px as i128 * scale);
        let asc: Measure = round_single(cfg.ascent_px as i128 * scale);
        let cell: Measure = cfg.cell_height() as i128 * ONE;
        let mut extra: Measure = round_single(cell - char_h);
        if extra < 0 {
            extra = 0;
        }
        let line: Measure = round_single(asc + extra / 2);
        let baseline: u32 = ((line + ONE / 2) / ONE) as u32;
        let mut scale_y: Measure = divide(cell, char_h);
        if scale_y < ONE {
            scale_y = ONE;
        }
        let b: Measure = from_whole(baseline);
        proof {
            single::lemma_whole_exact(baseline);
        }
        let cell_center: Measure = round_single(-b + cell / 2);
        let char_center: Measure = round_single(-asc + char_h / 2);
        SvgMetrics {
            letter_spacing: spacing,
            offset_x,
            baseline,
            scale_y,
            cell_center_y_offset: cell_center,
            char_center_y_offset: char_center,
        }
    }
}

/// The baseline lies within what a canvas can hold.
pub proof fn lemma_baseline_bounds(font_size: Measure, cfg: ViewportConfig)
    requires
        metrics_fit(font_size, cfg),
    ensures
        0 <= baseline_of(font_size, cfg) <= BASELINE_LIMIT,
        metrics_of(font_size, cfg).baseline == baseline_of(font_size, cfg),
        0 <= ascent(font_size, cfg) <= (PIXEL_LIMIT + 1) * ONE,
        0 <= char_height(font_size, cfg) <= (PIXEL_LIMIT + 1) * ONE,
        0 <= extra_height(font_size, cfg) <= (PIXEL_LIMIT + 1) * ONE,
{
    let scale = font_scale(font_size, cfg);
    assert(0 <= cfg.char_height_px * scale && 0 <= cfg.ascent_px * scale) by (nonlinear_arith)
        requires
            scale >= 0,
    ;
    lemma_rounded_up(cfg.char_height_px * scale);
    lemma_rounded_up(cfg.ascent_px * scale);
    let room = cfg.cell_h() * ONE - char_height(font_size, cfg);
    if room >= 0 {
        lemma_rounded_up(room);
    }
    single::lemma_single_bounds(room);
    let line = ascent(font_size, cfg) + extra_height(font_size, cfg) / 2;
    single::lemma_single_at_most(line as nat);
    single::lemma_single_bounds(line);
}

proof fn lemma_rounded_up(v: int)
    requires
        0 <= v <= PIXEL_LIMIT * ONE,
    ensures
        0 <= single::single(v) <= (PIXEL_LIMIT + 1) * ONE,
{
    single::lemma_single_at_most(v as nat);
}

} // verus!
