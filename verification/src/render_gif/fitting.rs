//! What cells, glyphs and titles are like in fonts whose lengths are whole pixels.
use vstd::prelude::*;

use crate::exact;
use crate::render_gif::glyphs;
use crate::render_gif::glyphs::FontLengths;
use crate::render_gif::pens;
use crate::render_gif::raster;
use crate::single;
use crate::single::{Measure, ONE};
use crate::viewport::CanvasLayout;

verus! {

/// A font that goes up and down by whole pixels.
pub open spec fn is_font(font: FontLengths, up: nat, down: nat) -> bool {
    &&& font.ascent == up * ONE
    &&& font.descent == -(down * ONE)
}

proof fn lemma_grains(n: int)
    ensures
        (n * ONE) / (single::GRAIN as int) == n * single::GRAIN,
{
    assert(n * ONE == (n * single::GRAIN) * single::GRAIN) by (nonlinear_arith)
        requires
            ONE == single::GRAIN * single::GRAIN,
    ;
    vstd::arithmetic::div_mod::lemma_div_multiples_vanish(
        n * single::GRAIN,
        single::GRAIN as int,
    );
    vstd::arithmetic::mul::lemma_mul_is_commutative(n * single::GRAIN, single::GRAIN as int);
}

/// The product of whole numbers is the whole number.
pub proof fn lemma_whole_product(a: int, b: int)
    requires
        -0xff_ffff <= a * b <= 0xff_ffff,
    ensures
        single::product(a * ONE, b * ONE) == (a * b) * ONE,
{
    lemma_grains(a);
    lemma_grains(b);
    let g = single::GRAIN as int;
    assert((a * g) * (b * g) == (a * b) * ONE) by (nonlinear_arith)
        requires
            g == single::GRAIN,
            ONE == single::GRAIN * single::GRAIN,
    ;
    exact::lemma_wholes_exact(a * b);
}

/// What is `n` times as long as another is, divided by it, `n`.
pub proof fn lemma_whole_ratio(n: nat, b: nat)
    requires
        n <= 0xff_ffff,
        b > 0,
    ensures
        single::ratio((n * b) * ONE, b * ONE) == n * ONE,
{
    lemma_grains((n * b) as int);
    lemma_grains(b as int);
    let g = single::GRAIN as nat;
    let y = b * g;
    assert(((n * b) * g) * ONE == (n * ONE) * y && y > 0 && n * ONE >= 0) by (nonlinear_arith)
        requires
            y == b * g,
            b > 0,
            g > 0,
            ONE > 0,
            n >= 0,
    ;
    exact::lemma_ratio_cancels((n * ONE) as nat, y);
    single::lemma_whole_exact(n as u32);
}

proof fn lemma_font(font: FontLengths, up: nat, down: nat)
    requires
        is_font(font, up, down),
        up + down <= 0xff_ffff,
    ensures
        font.height() == (up + down) * ONE,
        font.middle() == ((up - down) * ONE) / 2,
{
    assert(up * ONE - -(down * ONE) == (up + down) * ONE) by (nonlinear_arith);
    assert(up * ONE + -(down * ONE) == (up - down) * ONE) by (nonlinear_arith);
    exact::lemma_wholes_exact((up + down) as int);
    exact::lemma_wholes_exact(up - down);
}

proof fn lemma_nearest(n: int, rest: int, least: int)
    requires
        n >= least,
        rest == 0 || rest == ONE / 2,
    ensures
        glyphs::rounded_above(n * ONE + rest, least) == if rest == 0 {
            n
        } else {
            n + 1
        },
{
    if rest == 0 {
        vstd::arithmetic::div_mod::lemma_fundamental_div_mod_converse(
            n * ONE + ONE / 2,
            ONE as int,
            n,
            ONE as int / 2,
        );
    } else {
        assert(n * ONE + ONE == (n + 1) * ONE) by (nonlinear_arith);
        vstd::arithmetic::div_mod::lemma_fundamental_div_mod_converse(
            (n + 1) * ONE,
            ONE as int,
            n + 1,
            0,
        );
    }
}

/// A cell is as wide as a letter with its spacing and as high as a line. Its text stands
/// in the middle: as much is left above what the font reaches as below it, but for one
/// pixel.
pub proof fn lemma_cell_measured(
    advance: nat,
    spacing: int,
    up: nat,
    down: nat,
    lines: nat,
    font: FontLengths,
    sent: (Measure, Measure, Measure),
)
    requires
        is_font(font, up, down),
        sent.0 == advance * ONE,
        sent.1 == lines * ONE,
        sent.2 == spacing * ONE,
        1 <= advance + spacing <= 0xffff,
        up + down >= 1,
        lines >= 1,
        (up + down) * lines <= 0xf_ffff,
    ensures
        ({
            let r = glyphs::cell_font(sent.0, font, sent.1, sent.2);
            let above = r.baseline - up;
            let below = r.cell.cell_height_px - r.baseline - down;
            &&& r.cell.cell_width_px == advance + spacing
            &&& r.cell.cell_height_px == (up + down) * lines
            &&& r.cell.char_height_px == up + down
            &&& r.cell.ascent_px == up
            &&& above == below || above == below + 1
        }),
{
    let h = up + down;
    let cell_h = h * lines;
    assert(h <= cell_h) by (nonlinear_arith)
        requires
            cell_h == h * lines,
            lines >= 1,
            h >= 0,
    ;
    lemma_font(font, up, down);
    assert(advance * ONE + spacing * ONE == (advance + spacing) * ONE) by (nonlinear_arith);
    exact::lemma_wholes_exact(advance + spacing);
    lemma_nearest(advance + spacing, 0, 1);
    lemma_nearest(h as int, 0, 0);
    lemma_nearest(up as int, 0, 0);
    lemma_whole_product(h as int, lines as int);
    vstd::arithmetic::div_mod::lemma_fundamental_div_mod_converse(
        cell_h * ONE + ONE - 1,
        ONE as int,
        cell_h as int,
        ONE - 1,
    );
    single::lemma_whole_exact(cell_h as u32);
    let d = cell_h - h;
    assert(cell_h * ONE - h * ONE == d * ONE) by (nonlinear_arith)
        requires
            d == cell_h - h,
    ;
    exact::lemma_wholes_exact(d);
    let w = 2 * up + d;
    assert(up * ONE + (d * ONE) / 2 == (w * ONE) / 2);
    exact::lemma_halves_exact(w as nat);
    assert((w * ONE) / 2 == (w / 2) * ONE + (w % 2) * (ONE as int / 2));
    lemma_nearest(w / 2, (w % 2) * (ONE as int / 2), 0);
}

/// A glyph of the boxes is stretched to its cell: across by as much as the cell is wider
/// than the glyph, down by as much as it is higher.
pub proof fn lemma_box_scaled(
    size: nat,
    advance: nat,
    height: (nat, nat),
    wider: nat,
    higher: nat,
    sent: (Measure, Measure, FontLengths),
    is_primary: bool,
    primary: FontLengths,
    cell: (u32, u32),
)
    requires
        sent.0 == size * ONE,
        sent.1 == advance * ONE,
        is_font(sent.2, height.0, height.1),
        1 <= height.0 + height.1 <= 0xff_ffff,
        advance >= 1,
        cell.0 == wider * advance <= 0xff_ffff,
        cell.1 == higher * (height.0 + height.1) <= 0xff_ffff,
        size * wider <= 0xff_ffff,
        size * higher <= 0xff_ffff,
        wider <= 0xff_ffff,
        higher <= 0xff_ffff,
    ensures
        glyphs::scale_of(
            sent.0,
            is_primary,
            true,
            sent.1,
            sent.2,
            primary,
            cell.0,
            cell.1,
        ) == ((size * wider) * ONE as int, (size * higher) * ONE as int),
{
    let h = height.0 + height.1;
    lemma_font(sent.2, height.0, height.1);
    single::lemma_whole_exact(cell.0);
    single::lemma_whole_exact(cell.1);
    lemma_whole_ratio(wider, advance);
    lemma_whole_ratio(higher, h);
    lemma_whole_product(size as int, wider as int);
    lemma_whole_product(size as int, higher as int);
    assert(h * ONE >= ONE) by (nonlinear_arith)
        requires
            h >= 1,
            ONE > 0,
    ;
    assert(advance * ONE >= ONE) by (nonlinear_arith)
        requires
            advance >= 1,
            ONE > 0,
    ;
}

/// A glyph of the first font has the size that was asked for. One of another font is
/// made larger by as much as the first font is higher than its own, times the shape of
/// the cell.
pub proof fn lemma_glyph_scaled(
    size: nat,
    height: (nat, nat),
    first: (nat, nat),
    higher: nat,
    shape: nat,
    sent: (Measure, Measure, FontLengths, FontLengths),
    cell: (u32, u32),
)
    requires
        sent.0 == size * ONE,
        is_font(sent.2, height.0, height.1),
        is_font(sent.3, first.0, first.1),
        1 <= height.0 + height.1 <= 0xff_ffff,
        first.0 + first.1 == higher * (height.0 + height.1) <= 0xff_ffff,
        0 < cell.1 <= 0xff_ffff,
        cell.0 <= 0xff_ffff,
        cell.0 == shape * cell.1,
        higher <= 0xff_ffff,
        shape <= 0xff_ffff,
        higher * shape <= 0xff_ffff,
        size * (higher * shape) <= 0xff_ffff,
    ensures
        glyphs::scale_of(sent.0, true, false, sent.1, sent.2, sent.3, cell.0, cell.1) == (
            sent.0 as int,
            sent.0 as int,
        ),
        ({
            let s = (size * (higher * shape)) * ONE;
            glyphs::scale_of(sent.0, false, false, sent.1, sent.2, sent.3, cell.0, cell.1) == (
                s,
                s,
            )
        }),
{
    let h = height.0 + height.1;
    lemma_font(sent.2, height.0, height.1);
    lemma_font(sent.3, first.0, first.1);
    lemma_whole_ratio(higher, h);
    let b = cell.1 as nat;
    single::lemma_single_exact(cell.0 as nat);
    single::lemma_single_exact(b);
    assert(cell.0 * ONE == (shape * ONE) * b && shape * ONE >= 0) by (nonlinear_arith)
        requires
            cell.0 == shape * b,
            shape >= 0,
            ONE > 0,
    ;
    exact::lemma_ratio_cancels((shape * ONE) as nat, b);
    single::lemma_whole_exact(shape as u32);
    lemma_whole_product(higher as int, shape as int);
    lemma_whole_product(size as int, (higher * shape) as int);
}

/// A glyph of the boxes begins at the top of its cell. One of the first font stands on
/// the line of the text. One of another font is in the middle of the cell, with as much
/// room above what its font reaches as below it, but for one pixel.
pub proof fn lemma_line_placed(
    y: u32,
    baseline: u32,
    cell_h: u32,
    is_primary: bool,
    font: FontLengths,
    up: nat,
    down: nat,
)
    requires
        is_font(font, up, down),
        up + down <= 0xf_ffff,
        y <= 0xf_ffff,
        cell_h <= 0xf_ffff,
        down <= up + cell_h,
    ensures
        glyphs::line_of(y, baseline, cell_h, is_primary, true, font) - up == y,
        glyphs::line_of(y, baseline, cell_h, true, false, font) - baseline == y,
        ({
            let line = glyphs::line_of(y, baseline, cell_h, false, false, font);
            let above = line - up - y;
            let below = y + cell_h - (line + down);
            below == above || below == above + 1
        }),
{
    lemma_font(font, up, down);
    single::lemma_whole_exact(y);
    single::lemma_whole_exact(cell_h);
    assert(y * ONE + up * ONE == (y + up) * ONE) by (nonlinear_arith);
    assert((y + up) * ONE >= 0) by (nonlinear_arith)
        requires
            y + up >= 0,
            ONE > 0,
    ;
    exact::lemma_wholes_exact(y + up);
    lemma_nearest(y + up, 0, 0);
    let c = 2 * y + cell_h;
    assert(y * ONE + (cell_h * ONE) / 2 == (c * ONE) / 2);
    exact::lemma_halves_exact(c as nat);
    let v = c + up - down;
    assert((c * ONE) / 2 + ((up - down) * ONE) / 2 == (v * ONE) / 2);
    exact::lemma_halves_exact(v as nat);
    lemma_half_cut(v);
}

proof fn lemma_width_steps(advances: Seq<Measure>, steps: Seq<nat>, n: int)
    requires
        0 <= n <= advances.len(),
        steps.len() == advances.len(),
        forall|i: int| 0 <= i < advances.len() ==> (#[trigger] advances[i]) == steps[i] * ONE,
        pens::walked(steps, n) <= 0xff_ffff,
    ensures
        glyphs::width_after(advances, n) == pens::walked(steps, n) * ONE,
    decreases n,
{
    if n > 0 {
        lemma_width_steps(advances, steps, n - 1);
        let a = pens::walked(steps, n - 1);
        let b = steps[n - 1];
        assert(advances[n - 1] == b * ONE);
        assert(a * ONE + b * ONE == (a + b) * ONE) by (nonlinear_arith);
        exact::lemma_wholes_exact((a + b) as int);
    }
}

/// A title stands in the middle of the frame, with as much room before it as after it, or
/// at the left edge where it is too wide; and in the middle of the bar, with as much room
/// above what the font reaches as below it, each but for one pixel.
pub proof fn lemma_title_centered(
    l: CanvasLayout,
    advances: Seq<Measure>,
    steps: Seq<nat>,
    font: FontLengths,
    up: nat,
    down: nat,
)
    requires
        steps.len() == advances.len(),
        forall|i: int| 0 <= i < advances.len() ==> (#[trigger] advances[i]) == steps[i] * ONE,
        pens::walked(steps, steps.len() as int) <= 0xf_ffff,
        is_font(font, up, down),
        up + down <= 0xf_ffff,
        l.frame_x <= 0xf_ffff,
        l.frame_y <= 0xf_ffff,
        l.frame_w <= 0xf_ffff,
        l.bar_h <= 0xf_ffff,
        down <= up + l.bar_h,
    ensures
        ({
            let width = pens::walked(steps, steps.len() as int);
            let (x, y) = glyphs::title_place(
                l,
                glyphs::width_after(advances, advances.len() as int),
                font,
            );
            let before = x - l.frame_x;
            let after = l.frame_x + l.frame_w - (x + width);
            let above = y - up - l.frame_y;
            let below = l.frame_y + l.bar_h - (y + down);
            &&& width <= l.frame_w ==> after == before || after == before + 1
            &&& width > l.frame_w ==> x == l.frame_x
            &&& below == above || below == above + 1
        }),
{
    let width = pens::walked(steps, steps.len() as int);
    lemma_width_steps(advances, steps, advances.len() as int);
    lemma_font(font, up, down);
    single::lemma_whole_exact(l.frame_x);
    single::lemma_whole_exact(l.frame_w);
    single::lemma_whole_exact(l.frame_y);
    single::lemma_whole_exact(l.bar_h);
    let m = 2 * l.frame_x + l.frame_w;
    assert(l.frame_x * ONE + (l.frame_w * ONE) / 2 == (m * ONE) / 2);
    exact::lemma_halves_exact(m as nat);
    let s = m - width;
    assert((m * ONE) / 2 - (width * ONE) / 2 == (s * ONE) / 2);
    if s >= 0 {
        exact::lemma_halves_exact(s as nat);
        lemma_half_cut(s);
    } else {
        single::lemma_single_bounds((s * ONE) / 2);
    }
    lemma_half_cut(2 * l.frame_x);
    let c = 2 * l.frame_y + l.bar_h;
    assert(l.frame_y * ONE + (l.bar_h * ONE) / 2 == (c * ONE) / 2);
    exact::lemma_halves_exact(c as nat);
    let v = c + up - down;
    assert((c * ONE) / 2 + ((up - down) * ONE) / 2 == (v * ONE) / 2);
    exact::lemma_halves_exact(v as nat);
    lemma_half_cut(v);
}

proof fn lemma_half_cut(w: int)
    requires
        w >= 0,
    ensures
        raster::truncated((w * ONE) / 2) == w / 2,
{
    let (q, r) = (w / 2, w % 2);
    assert(w == 2 * q + r);
    assert(r == 0 || r == 1);
    assert((w * ONE) / 2 == q * ONE + r * (ONE as int / 2)) by {
        if r == 0 {
            assert(w * ONE == 2 * (q * ONE));
        } else {
            assert(w * ONE == 2 * (q * ONE + ONE as int / 2));
        }
    }
    pens::lemma_cut(q, r * (ONE as int / 2));
}

} // verus!
