//! Where characters stand that move the pen by whole pixels.
use vstd::prelude::*;

use crate::exact;
use crate::render_gif::glyphs;
use crate::render_gif::glyphs::{CharGlyph, Shift};
use crate::render_gif::raster;
use crate::single;
use crate::single::ONE;

verus! {

/// How far the first `n` steps go together.
pub open spec fn walked(steps: Seq<nat>, n: int) -> nat
    decreases n,
{
    if n <= 0 {
        0
    } else {
        walked(steps, n - 1) + steps[n - 1]
    }
}

/// How many of the first `n` characters show something.
pub open spec fn shown(line: Seq<CharGlyph>, n: int) -> nat
    decreases n,
{
    if n <= 0 {
        0
    } else {
        shown(line, n - 1) + if line[n - 1].mask is Some {
            1nat
        } else {
            0
        }
    }
}

/// Every character moves the pen by a whole number of pixels.
pub open spec fn in_steps(line: Seq<CharGlyph>, steps: Seq<nat>) -> bool {
    &&& steps.len() == line.len()
    &&& forall|i: int| 0 <= i < line.len() ==> (#[trigger] line[i]).advance == steps[i] * ONE
}

proof fn lemma_walked_grows(steps: Seq<nat>, i: int, n: int)
    requires
        i <= n,
    ensures
        walked(steps, i) <= walked(steps, n),
    decreases n - i,
{
    if i < n && n > 0 {
        lemma_walked_grows(steps, i, n - 1);
    }
}

proof fn lemma_pen_steps(line: Seq<CharGlyph>, x: u32, steps: Seq<nat>, n: int)
    requires
        0 <= n <= line.len(),
        in_steps(line, steps),
        x + walked(steps, line.len() as int) <= 0xff_ffff,
    ensures
        glyphs::pen_after(line, x, n) == (x + walked(steps, n)) * ONE,
    decreases n,
{
    lemma_walked_grows(steps, n, line.len() as int);
    if n == 0 {
        single::lemma_whole_exact(x);
        assert(walked(steps, 0) == 0);
    } else {
        lemma_pen_steps(line, x, steps, n - 1);
        let a = x + walked(steps, n - 1);
        let b = steps[n - 1];
        assert(line[n - 1].advance == b * ONE);
        assert(a * ONE + b * ONE == (a + b) * ONE) by (nonlinear_arith);
        exact::lemma_wholes_exact(a + b);
    }
}

proof fn lemma_shown(line: Seq<CharGlyph>, x: u32, shift: Shift, k: int, n: int)
    requires
        0 <= k < n <= line.len(),
        line[k].mask is Some,
    ensures
        glyphs::placed(line, x, shift, n).len() == shown(line, n),
        shown(line, k) < shown(line, n),
        glyphs::placed(line, x, shift, n)[shown(line, k) as int] == glyphs::placed(
            line,
            x,
            shift,
            k + 1,
        )[shown(line, k) as int],
    decreases n,
{
    lemma_shown_len(line, x, shift, n);
    if k + 1 < n {
        lemma_shown(line, x, shift, k, n - 1);
    }
}

proof fn lemma_shown_len(line: Seq<CharGlyph>, x: u32, shift: Shift, n: int)
    ensures
        glyphs::placed(line, x, shift, n).len() == shown(line, n),
    decreases n,
{
    if n > 0 {
        lemma_shown_len(line, x, shift, n - 1);
    }
}

/// Characters stand one after another, in their order: each that shows something is
/// there as often as it stands in the line, with its own shape, where the pen is after
/// those before it. A character of the boxes begins right there. Another begins after
/// half of the space between letters, or has as much room before it as after it, but for
/// one pixel.
pub proof fn lemma_glyph_placed(
    line: Seq<CharGlyph>,
    x: u32,
    shift: Shift,
    steps: Seq<nat>,
    k: int,
)
    requires
        0 <= k < line.len(),
        line[k].mask is Some,
        in_steps(line, steps),
        x + walked(steps, line.len() as int) <= 0x3f_ffff,
        line[k].mask->Some_0.width <= 0x3f_ffff,
    ensures
        ({
            let all = glyphs::placed(line, x, shift, line.len() as int);
            let g = line[k];
            let m = g.mask->Some_0;
            let b = all[shown(line, k) as int];
            let pen = x + walked(steps, k);
            let lead = b.left - m.offset_x - pen;
            &&& all.len() == shown(line, line.len() as int)
            &&& shown(line, k) < all.len()
            &&& b.width == m.width
            &&& b.height == m.height
            &&& b.coverage == m.coverage@
            &&& b.top == g.line + m.offset_y
            &&& g.is_box ==> lead == 0
            &&& !g.is_box ==> (shift matches Shift::Spacing(s) ==> forall|t: int|
                0 <= t <= 0x3f_ffff && s == #[trigger] (t * ONE) ==> lead == t / 2)
            &&& !g.is_box && shift is Centered && 2 * pen + steps[k] >= m.width ==> {
                ||| 2 * lead == steps[k] - m.width
                ||| 2 * lead == steps[k] - m.width - 1
            }
        }),
{
    let n = line.len() as int;
    let g = line[k];
    let m = g.mask->Some_0;
    let pen = x + walked(steps, k);
    lemma_shown(line, x, shift, k, n);
    lemma_shown_len(line, x, shift, k);
    lemma_pen_steps(line, x, steps, k);
    lemma_walked_grows(steps, k + 1, n);
    assert(g.advance == steps[k] * ONE);
    let start = glyphs::glyph_start(pen * ONE, g, m.width, shift);
    if g.is_box {
        lemma_cut(pen, 0);
    } else {
        match shift {
            Shift::Spacing(s) => {
                assert forall|t: int| 0 <= t <= 0x3f_ffff && s == #[trigger] (t * ONE) implies {
                    raster::truncated(start) == pen + t / 2
                } by {
                    assert((s as int / 2) / (ONE as int) == t / 2) by {
                        vstd::arithmetic::div_mod::lemma_div_denominator(
                            t * ONE,
                            2,
                            ONE as int,
                        );
                        vstd::arithmetic::div_mod::lemma_div_denominator(
                            t * ONE,
                            ONE as int,
                            2,
                        );
                        vstd::arithmetic::div_mod::lemma_div_multiples_vanish(t, ONE as int);
                        vstd::arithmetic::mul::lemma_mul_is_commutative(t, ONE as int);
                    }
                    let h = t / 2;
                    assert(pen * ONE + h * ONE == (pen + h) * ONE) by (nonlinear_arith);
                    exact::lemma_wholes_exact(pen + h);
                    lemma_cut(pen + h, 0);
                }
            },
            Shift::Centered => {
                let d = steps[k] - m.width;
                single::lemma_whole_exact(m.width);
                assert(steps[k] * ONE - m.width * ONE == d * ONE) by (nonlinear_arith)
                    requires
                        d == steps[k] - m.width,
                ;
                exact::lemma_wholes_exact(d);
                if 2 * pen + d >= 0 {
                    let w = 2 * pen + d;
                    exact::lemma_halves_exact(w as nat);
                    assert(pen * ONE + (d * ONE) / 2 == (w * ONE) / 2);
                    let (q, r) = (w / 2, w % 2);
                    assert((w * ONE) / 2 == q * ONE + r * (ONE as int / 2));
                    lemma_cut(q, r * (ONE as int / 2));
                }
            },
        }
    }
}

/// What is behind the point is cut off.
pub(crate) proof fn lemma_cut(n: int, rest: int)
    requires
        0 <= n,
        0 <= rest < ONE,
    ensures
        raster::truncated(n * ONE + rest) == n,
{
    assert(n * ONE >= 0) by (nonlinear_arith)
        requires
            n >= 0,
    ;
    vstd::arithmetic::div_mod::lemma_fundamental_div_mod_converse(
        n * ONE + rest,
        ONE as int,
        n,
        rest,
    );
}

} // verus!
