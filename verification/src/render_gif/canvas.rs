//! Drawing on a canvas of palette indices, row by row.
use vstd::prelude::*;

use crate::render_gif::palette;
use crate::render_gif::palette::{find_closest_color, COLORS, TRANSPARENT_COLOR_INDEX};
use crate::single;
use crate::single::{round_single, Measure, ONE};
use crate::style::Rgb;
use crate::viewport::CanvasLayout;

verus! {

/// Place of the pixel at column `x` of row `y` on a canvas `w` pixels wide.
pub open spec fn at(x: int, y: int, w: int) -> int {
    y * w + x
}

/// The canvas with every pixel of `area` set to `idx`.
pub open spec fn painted(buf: Seq<u8>, area: spec_fn(int) -> bool, idx: u8) -> Seq<u8> {
    Seq::new(
        buf.len(),
        |i: int|
            if area(i) {
                idx
            } else {
                buf[i]
            },
    )
}

/// The stretches of `width` pixels from column `x` on of the rows from `y` up to
/// `end`, as far as a stretch lies on the canvas whole.
pub open spec fn in_rows(len: int, w: int, x: int, y: int, width: int, end: int, i: int) -> bool {
    exists|row: int|
        y <= row < end && #[trigger] at(x, row, w) <= i < at(x, row, w) + width && at(x, row, w)
            + width <= len
}

/// A rectangle.
pub open spec fn rect_area(
    len: int,
    w: u32,
    x: u32,
    y: u32,
    width: u32,
    height: u32,
) -> spec_fn(int) -> bool {
    |i: int| in_rows(len, w as int, x as int, y as int, width as int, y + height, i)
}

/// The canvas with a rectangle filled.
pub open spec fn filled_rect(
    buf: Seq<u8>,
    w: u32,
    x: u32,
    y: u32,
    width: u32,
    height: u32,
    idx: u8,
) -> Seq<u8> {
    painted(buf, rect_area(buf.len() as int, w, x, y, width, height), idx)
}

/// Whether the places of a rectangle can be computed.
pub open spec fn rect_fits(w: u32, x: u32, y: u32, width: u32, height: u32) -> bool {
    (y + height) * w + x + width <= u32::MAX && y + height <= u32::MAX
}

proof fn lemma_row_bound(row: int, end: int, w: int)
    requires
        0 <= row <= end,
        0 <= w,
    ensures
        0 <= row * w <= end * w,
{
    assert(0 <= row * w <= end * w) by (nonlinear_arith)
        requires
            0 <= row <= end,
            0 <= w,
    ;
}

/// Fill a rectangle.
pub fn fill_rect_idx(buf: &mut Vec<u8>, w: u32, x: u32, y: u32, width: u32, height: u32, idx: u8)
    requires
        rect_fits(w, x, y, width, height),
    ensures
        final(buf)@ == filled_rect(old(buf)@, w, x, y, width, height, idx),
{
    let ghost before = buf@;
    let ghost len = before.len() as int;
    let mut row: u32 = y;
    while row < y + height
        invariant
            y <= row <= y + height,
            rect_fits(w, x, y, width, height),
            len == before.len(),
            buf@.len() == len,
            forall|i: int|
                0 <= i < len ==> #[trigger] buf@[i] == (if in_rows(
                    len,
                    w as int,
                    x as int,
                    y as int,
                    width as int,
                    row as int,
                    i,
                ) {
                    idx
                } else {
                    before[i]
                }),
        decreases y + height - row,
    {
        proof {
            lemma_row_bound(row as int, y + height, w as int);
        }
        let start: usize = (row * w + x) as usize;
        let ghost s = at(x as int, row as int, w as int);
        assert(start == s);
        let ghost prior = buf@;
        proof {
            assert forall|i: int| 0 <= i < len implies in_rows(
                len,
                w as int,
                x as int,
                y as int,
                width as int,
                row + 1,
                i,
            ) == (in_rows(len, w as int, x as int, y as int, width as int, row as int, i) || (s
                <= i < s + width && s + width <= len)) by {
                if s <= i < s + width && s + width <= len {
                    assert(at(x as int, row as int, w as int) == s);
                    assert(y <= row < row + 1);
                }
            }
        }
        if start + width as usize <= buf.len() {
            let mut k: usize = start;
            while k < start + width as usize
                invariant
                    start == s,
                    s <= k <= s + width,
                    s + width <= len,
                    s + width <= u32::MAX,
                    buf@.len() == len,
                    prior.len() == len,
                    forall|i: int|
                        0 <= i < len ==> #[trigger] buf@[i] == (if s <= i < k {
                            idx
                        } else {
                            prior[i]
                        }),
                decreases s + width - k,
            {
                buf[k] = idx;
                k = k + 1;
            }
        }
        row = row + 1;
    }
    assert(buf@ =~= filled_rect(before, w, x, y, width, height, idx));
}

/// The pixels of a disc.
pub open spec fn in_disc(w: int, cx: int, cy: int, r: int, i: int) -> bool {
    exists|x: int, y: int|
        0 <= x && 0 <= y && cx - r <= x <= cx + r && cy - r <= y <= cy + r && (x - cx) * (x - cx)
            + (y - cy) * (y - cy) <= r * r && #[trigger] at(x, y, w) == i
}

/// The canvas with a disc filled.
pub open spec fn filled_circle(buf: Seq<u8>, w: u32, cx: u32, cy: u32, r: u32, idx: u8) -> Seq<
    u8,
> {
    painted(buf, |i: int| in_disc(w as int, cx as int, cy as int, r as int, i), idx)
}

/// The part of a disc above row `y` and, in that row, left of column `x`.
spec fn in_disc_before(
    w: int,
    cx: int,
    cy: int,
    r: int,
    ex: int,
    ey: int,
    i: int,
) -> bool {
    exists|x: int, y: int|
        0 <= x && 0 <= y && cx - r <= x <= cx + r && cy - r <= y <= cy + r && (x - cx) * (x - cx)
            + (y - cy) * (y - cy) <= r * r && (y < ey || y == ey && x < ex) && #[trigger] at(
            x,
            y,
            w,
        ) == i
}

/// Fill a disc.
pub fn fill_circle_idx(buf: &mut Vec<u8>, w: u32, cx: u32, cy: u32, radius: u32, color_idx: u8)
    requires
        radius <= 0xffff,
        (cy + radius) * w + cx + radius < u32::MAX,
        cx + radius < u32::MAX,
        cy + radius < u32::MAX,
    ensures
        final(buf)@ == filled_circle(old(buf)@, w, cx, cy, radius, color_idx),
{
    let ghost before = buf@;
    let ghost len = before.len() as int;
    let y0: u32 = if cy >= radius {
        cy - radius
    } else {
        0
    };
    let x0: u32 = if cx >= radius {
        cx - radius
    } else {
        0
    };
    assert(0 <= radius * radius <= 0xffff * 0xffff) by (nonlinear_arith)
        requires
            0 <= radius <= 0xffff,
    ;
    let r2: i64 = (radius * radius) as i64;
    let mut y: u32 = y0;
    while y <= cy + radius
        invariant
            y0 <= y <= cy + radius + 1,
            y0 == (if cy >= radius {
                cy - radius
            } else {
                0
            }),
            x0 == (if cx >= radius {
                cx - radius
            } else {
                0
            }),
            radius <= 0xffff,
            r2 == radius * radius,
            (cy + radius) * w + cx + radius < u32::MAX,
            cx + radius < u32::MAX,
            cy + radius < u32::MAX,
            len == before.len(),
            buf@.len() == len,
            forall|i: int|
                0 <= i < len ==> #[trigger] buf@[i] == (if in_disc_before(
                    w as int,
                    cx as int,
                    cy as int,
                    radius as int,
                    x0 as int,
                    y as int,
                    i,
                ) {
                    color_idx
                } else {
                    before[i]
                }),
        decreases cy + radius + 1 - y,
    {
        let mut x: u32 = x0;
        while x <= cx + radius
            invariant
                x0 <= x <= cx + radius + 1,
                y0 <= y <= cy + radius,
                y0 == (if cy >= radius {
                    cy - radius
                } else {
                    0
                }),
                x0 == (if cx >= radius {
                    cx - radius
                } else {
                    0
                }),
                radius <= 0xffff,
                r2 == radius * radius,
                (cy + radius) * w + cx + radius < u32::MAX,
                cx + radius < u32::MAX,
                cy + radius < u32::MAX,
                len == before.len(),
                buf@.len() == len,
                forall|i: int|
                    0 <= i < len ==> #[trigger] buf@[i] == (if in_disc_before(
                        w as int,
                        cx as int,
                        cy as int,
                        radius as int,
                        x as int,
                        y as int,
                        i,
                    ) {
                        color_idx
                    } else {
                        before[i]
                    }),
            decreases cx + radius + 1 - x,
        {
            let dx: i64 = x as i64 - cx as i64;
            let dy: i64 = y as i64 - cy as i64;
            proof {
                lemma_row_bound(y as int, cy + radius, w as int);
                assert(0 <= dx * dx <= 0xffff * 0xffff) by (nonlinear_arith)
                    requires
                        -0xffff <= dx <= 0xffff,
                ;
                assert(0 <= dy * dy <= 0xffff * 0xffff) by (nonlinear_arith)
                    requires
                        -0xffff <= dy <= 0xffff,
                ;
            }
            let ghost here = at(x as int, y as int, w as int);
            let ghost prior = buf@;
            let ghost hit = dx * dx + dy * dy <= r2;
            proof {
                assert forall|i: int| 0 <= i < len implies in_disc_before(
                    w as int,
                    cx as int,
                    cy as int,
                    radius as int,
                    x + 1,
                    y as int,
                    i,
                ) == (in_disc_before(
                    w as int,
                    cx as int,
                    cy as int,
                    radius as int,
                    x as int,
                    y as int,
                    i,
                ) || (hit && i == here)) by {
                    if hit && i == here {
                        assert(at(x as int, y as int, w as int) == i);
                    }
                }
            }
            if dx * dx + dy * dy <= r2 {
                let i: usize = (y * w + x) as usize;
                if i < buf.len() {
                    buf[i] = color_idx;
                }
            }
            x = x + 1;
        }
        proof {
            assert forall|i: int| 0 <= i < len implies in_disc_before(
                w as int,
                cx as int,
                cy as int,
                radius as int,
                x as int,
                y as int,
                i,
            ) == in_disc_before(
                w as int,
                cx as int,
                cy as int,
                radius as int,
                x0 as int,
                y + 1,
                i,
            ) by {}
        }
        y = y + 1;
    }
    proof {
        assert forall|i: int| 0 <= i < len implies in_disc_before(
            w as int,
            cx as int,
            cy as int,
            radius as int,
            x0 as int,
            y as int,
            i,
        ) == in_disc(w as int, cx as int, cy as int, radius as int, i) by {}
    }
    assert(buf@ =~= filled_circle(before, w, cx, cy, radius, color_idx));
}

/// Whether the frame lies on the canvas.
pub open spec fn nested(l: CanvasLayout) -> bool {
    &&& 0 < l.canvas_w <= i32::MAX
    &&& 0 < l.canvas_h <= i32::MAX
    &&& l.frame_x + l.frame_w <= l.canvas_w
    &&& l.frame_y + l.frame_h <= l.canvas_h
    &&& l.canvas_w * l.canvas_h <= i32::MAX
}

/// The distance to the nearer of `low` and `high` from outside of them.
pub open spec fn beyond(v: int, low: int, high: int) -> int {
    if v < low {
        low - v
    } else if v > high {
        v - high
    } else {
        0
    }
}

/// Whether a pixel of the frame lies within its rounded corners: not further than
/// `radius` from the corner's centre.
pub open spec fn inside_rounded(x: int, y: int, l: CanvasLayout, radius: int) -> bool {
    let dx = beyond(x, l.frame_x + radius, l.frame_x + l.frame_w - 1 - radius);
    let dy = beyond(y, l.frame_y + radius, l.frame_y + l.frame_h - 1 - radius);
    radius == 0 || dx == 0 || dy == 0 || dx * dx + dy * dy <= radius * radius
}

/// The radius of the frame's corners: at most half of the shorter side.
pub open spec fn corner_radius(l: CanvasLayout, radius: u32) -> u32 {
    let a = if radius <= l.frame_w / 2 {
        radius
    } else {
        l.frame_w / 2
    };
    if a <= l.frame_h / 2 {
        a
    } else {
        l.frame_h / 2
    }
}

/// The radius of the frame's corners.
pub fn limit_radius(l: &CanvasLayout, radius: u32) -> (r: u32)
    ensures
        r == corner_radius(*l, radius),
{
    let a: u32 = if radius <= l.frame_w / 2 {
        radius
    } else {
        l.frame_w / 2
    };
    if a <= l.frame_h / 2 {
        a
    } else {
        l.frame_h / 2
    }
}

/// Whether a pixel of the frame lies within its rounded corners.
pub fn inside_rounded_rect(x: u32, y: u32, l: &CanvasLayout, radius: u32) -> (r: bool)
    requires
        nested(*l),
        2 * radius <= l.frame_w,
        2 * radius <= l.frame_h,
        l.frame_x <= x < l.frame_x + l.frame_w,
        l.frame_y <= y < l.frame_y + l.frame_h,
    ensures
        r == inside_rounded(x as int, y as int, *l, radius as int),
{
    if radius == 0 {
        return true;
    }
    let r: i64 = radius as i64;
    let px: i64 = x as i64;
    let py: i64 = y as i64;
    let left: i64 = l.frame_x as i64 + r;
    let top: i64 = l.frame_y as i64 + r;
    let right: i64 = l.frame_x as i64 + l.frame_w as i64 - 1 - r;
    let bottom: i64 = l.frame_y as i64 + l.frame_h as i64 - 1 - r;
    if (px >= left && px <= right) || (py >= top && py <= bottom) {
        return true;
    }
    let dx: i64 = if px < left {
        left - px
    } else {
        px - right
    };
    let dy: i64 = if py < top {
        top - py
    } else {
        py - bottom
    };
    assert(0 <= dx * dx <= 0x4000_0000 * 0x4000_0000) by (nonlinear_arith)
        requires
            0 <= dx <= 0x4000_0000,
    ;
    assert(0 <= dy * dy <= 0x4000_0000 * 0x4000_0000) by (nonlinear_arith)
        requires
            0 <= dy <= 0x4000_0000,
    ;
    assert(0 <= r * r <= 0x4000_0000 * 0x4000_0000) by (nonlinear_arith)
        requires
            0 <= r <= 0x4000_0000,
    ;
    dx * dx + dy * dy <= r * r
}

/// Whether a pixel lies in the frame.
pub open spec fn in_frame(x: int, y: int, l: CanvasLayout) -> bool {
    l.frame_x <= x < l.frame_x + l.frame_w && l.frame_y <= y < l.frame_y + l.frame_h
}

/// The canvas with the pixels of the frame outside of its rounded corners set to
/// `margin_idx`.
pub open spec fn masked(buf: Seq<u8>, l: CanvasLayout, radius: u32, margin_idx: u8) -> Seq<u8> {
    let w = l.canvas_w as int;
    painted(
        buf,
        |i: int|
            in_frame(i % w, i / w, l) && !inside_rounded(
                i % w,
                i / w,
                l,
                corner_radius(l, radius) as int,
            ),
        margin_idx,
    )
}

/// A pixel of the canvas is found again by its place.
pub proof fn lemma_at(x: int, y: int, w: int)
    requires
        0 <= x < w,
        0 <= y,
    ensures
        at(x, y, w) % w == x,
        at(x, y, w) / w == y,
        0 <= at(x, y, w),
{
    vstd::arithmetic::div_mod::lemma_fundamental_div_mod_converse(y * w + x, w, y, x);
    assert(0 <= y * w) by (nonlinear_arith)
        requires
            0 <= y,
            0 <= w,
    ;
}

/// A place on the canvas is that of the pixel it names.
pub proof fn lemma_place(i: int, w: int, h: int)
    requires
        0 < w,
        0 <= i < w * h,
    ensures
        0 <= i % w < w,
        0 <= i / w < h,
        at(i % w, i / w, w) == i,
{
    vstd::arithmetic::div_mod::lemma_fundamental_div_mod(i, w);
    assert(at(i % w, i / w, w) == i) by (nonlinear_arith)
        requires
            i == w * (i / w) + i % w,
            at(i % w, i / w, w) == (i / w) * w + i % w,
    ;
    assert(0 <= i / w < h) by (nonlinear_arith)
        requires
            0 < w,
            0 <= i < w * h,
            i == w * (i / w) + i % w,
            0 <= i % w < w,
    ;
}

/// A pixel within the canvas has a place on it.
pub proof fn lemma_on_canvas(x: int, y: int, w: int, h: int)
    requires
        0 <= x < w,
        0 <= y < h,
    ensures
        0 <= at(x, y, w) < w * h,
        at(x, y, w) % w == x,
        at(x, y, w) / w == y,
{
    lemma_at(x, y, w);
    assert(y * w + x < w * h) by (nonlinear_arith)
        requires
            0 <= x < w,
            0 <= y < h,
    ;
}

/// Set the pixels of the frame outside of its rounded corners to `margin_idx`.
pub fn mask_outside_rounded_rect_idx(
    buf: &mut Vec<u8>,
    l: &CanvasLayout,
    border_radius: u32,
    margin_idx: u8,
)
    requires
        nested(*l),
        old(buf)@.len() == l.canvas_w * l.canvas_h,
    ensures
        final(buf)@ == masked(old(buf)@, *l, border_radius, margin_idx),
{
    let ghost before = buf@;
    let ghost all = masked(before, *l, border_radius, margin_idx);
    let ghost w = l.canvas_w as int;
    let radius: u32 = limit_radius(l, border_radius);
    let mut y: u32 = l.frame_y;
    let bottom: u32 = l.frame_y + l.frame_h;
    let right: u32 = l.frame_x + l.frame_w;
    while y < bottom
        invariant
            nested(*l),
            w == l.canvas_w,
            bottom == l.frame_y + l.frame_h,
            right == l.frame_x + l.frame_w,
            l.frame_y <= y <= bottom,
            radius == corner_radius(*l, border_radius),
            all == masked(before, *l, border_radius, margin_idx),
            before.len() == l.canvas_w * l.canvas_h,
            buf@.len() == before.len(),
            forall|i: int|
                0 <= i < before.len() ==> #[trigger] buf@[i] == (if i / w < y {
                    all[i]
                } else {
                    before[i]
                }),
        decreases bottom - y,
    {
        let mut x: u32 = l.frame_x;
        while x < right
            invariant
                nested(*l),
                w == l.canvas_w,
                bottom == l.frame_y + l.frame_h,
                right == l.frame_x + l.frame_w,
                l.frame_y <= y < bottom,
                l.frame_x <= x <= right,
                radius == corner_radius(*l, border_radius),
                all == masked(before, *l, border_radius, margin_idx),
                before.len() == l.canvas_w * l.canvas_h,
                buf@.len() == before.len(),
                forall|i: int|
                    0 <= i < before.len() ==> #[trigger] buf@[i] == (if i / w < y || (i / w == y
                        && i % w < x) {
                        all[i]
                    } else {
                        before[i]
                    }),
            decreases right - x,
        {
            proof {
                lemma_on_canvas(x as int, y as int, w, l.canvas_h as int);
                lemma_row_bound(y as int, l.canvas_h as int, w);
                assert(l.canvas_h as int * w == l.canvas_w * l.canvas_h) by (nonlinear_arith)
                    requires
                        w == l.canvas_w,
                ;
            }
            let ghost prior = buf@;
            let i: usize = (y * l.canvas_w + x) as usize;
            assert(i == at(x as int, y as int, w));
            if !inside_rounded_rect(x, y, l, radius) {
                buf[i] = margin_idx;
            }
            proof {
                assert forall|k: int| 0 <= k < before.len() implies #[trigger] buf@[k] == (if k / w
                    < y || (k / w == y && k % w < x + 1) {
                    all[k]
                } else {
                    before[k]
                }) by {
                    lemma_place(k, w, l.canvas_h as int);
                    assert(prior[k] == (if k / w < y || (k / w == y && k % w < x) {
                        all[k]
                    } else {
                        before[k]
                    }));
                }
            }
            x = x + 1;
        }
        proof {
            assert forall|k: int| 0 <= k < before.len() implies #[trigger] buf@[k] == (if k / w < y
                + 1 {
                all[k]
            } else {
                before[k]
            }) by {
                lemma_place(k, w, l.canvas_h as int);
            }
        }
        y = y + 1;
    }
    proof {
        assert forall|k: int| 0 <= k < before.len() implies buf@[k] == all[k] by {
            lemma_place(k, w, l.canvas_h as int);
        }
    }
    assert(buf@ =~= all);
}

/// One channel of a colour laid over a background: an opacity of [`ONE`] hides the
/// background. The arithmetic is single precision, the result the nearest channel
/// value.
pub open spec fn mixed(color: u8, bg: u8, alpha: int) -> u8 {
    let v = single::single(
        single::single(color * alpha) + single::single(bg * single::single(ONE - alpha)),
    );
    if v <= 0 {
        0
    } else if (v + ONE / 2) / (ONE as int) > 255 {
        255
    } else {
        ((v + ONE / 2) / (ONE as int)) as u8
    }
}

pub open spec fn mixed_rgb(color: Rgb, bg: Rgb, alpha: int) -> Rgb {
    [mixed(color[0], bg[0], alpha), mixed(color[1], bg[1], alpha), mixed(color[2], bg[2], alpha)]
}

/// The largest opacity.
pub const OPACITY_LIMIT: i128 = 0x2_0000_0000_0000_0000;

fn mix(color: u8, bg: u8, alpha: Measure) -> (r: u8)
    requires
        0 <= alpha <= OPACITY_LIMIT,
    ensures
        r == mixed(color, bg, alpha as int),
{
    let rest: Measure = round_single(ONE - alpha);
    assert(0 <= color * alpha <= 255 * OPACITY_LIMIT) by (nonlinear_arith)
        requires
            0 <= color <= 255,
            0 <= alpha <= OPACITY_LIMIT,
    ;
    assert(-255 * 2 * OPACITY_LIMIT <= bg * rest <= 255 * 2 * OPACITY_LIMIT) by (nonlinear_arith)
        requires
            0 <= bg <= 255,
            -2 * OPACITY_LIMIT <= rest <= 2 * OPACITY_LIMIT,
    ;
    let a: Measure = round_single(color as i128 * alpha);
    let b: Measure = round_single(bg as i128 * rest);
    let v: Measure = round_single(a + b);
    if v <= 0 {
        0
    } else {
        let n: i128 = (v + ONE / 2) / ONE;
        if n > 255 {
            255
        } else {
            n as u8
        }
    }
}

/// Full opacity shows the colour, none the background.
pub proof fn lemma_mixed_ends(color: u8, bg: u8)
    ensures
        mixed(color, bg, ONE as int) == color,
        mixed(color, bg, 0) == bg,
{
    single::lemma_whole_exact(color as u32);
    single::lemma_whole_exact(bg as u32);
    single::lemma_whole_exact(1);
    single::lemma_single_exact(0);
    assert(color * ONE == color as u32 * ONE);
    assert(single::single(0) == 0);
    assert(bg * 0 == 0);
    assert(color * 0 == 0);
}

/// What a pixel shows before something is laid over it: its own colour, through a
/// transparent one that of the earlier canvas, through both the background.
pub open spec fn seen(here: u8, earlier: Option<u8>, colors: Seq<Rgb>, default_bg: Rgb) -> Rgb {
    let idx = if here == TRANSPARENT_COLOR_INDEX {
        match earlier {
            Some(e) => e,
            None => here,
        }
    } else {
        here
    };
    if idx == TRANSPARENT_COLOR_INDEX {
        default_bg
    } else {
        colors[idx as int]
    }
}

/// The index of a pixel after `color` was laid over it.
pub open spec fn blended(
    here: u8,
    earlier: Option<u8>,
    colors: Seq<Rgb>,
    default_bg: Rgb,
    color: Rgb,
    alpha: int,
) -> u8 {
    palette::closest(mixed_rgb(color, seen(here, earlier, colors, default_bg), alpha), colors)
}

/// Place `i` of the earlier canvas, if it has one.
pub open spec fn earlier_at(earlier: Option<Seq<u8>>, i: int) -> Option<u8> {
    match earlier {
        Some(e) => if i < e.len() {
            Some(e[i])
        } else {
            None
        },
        None => None,
    }
}

/// Views of an optional canvas.
pub open spec fn opt_view(v: Option<&Vec<u8>>) -> Option<Seq<u8>> {
    match v {
        Some(x) => Some(x@),
        None => None,
    }
}

/// Lay `color` over the pixel at `idx`.
pub fn blend_pixel_idx(
    buf: &mut Vec<u8>,
    earlier: Option<&Vec<u8>>,
    colors: &Vec<Rgb>,
    idx: usize,
    color: Rgb,
    alpha: Measure,
    default_bg: Rgb,
)
    requires
        colors@.len() == COLORS,
        0 <= alpha <= OPACITY_LIMIT,
    ensures
        final(buf)@ == (if idx < old(buf)@.len() {
            old(buf)@.update(
                idx as int,
                blended(
                    old(buf)@[idx as int],
                    earlier_at(opt_view(earlier), idx as int),
                    colors@,
                    default_bg,
                    color,
                    alpha as int,
                ),
            )
        } else {
            old(buf)@
        }),
{
    if idx >= buf.len() {
        return ;
    }
    let mut bg_idx: u8 = buf[idx];
    if bg_idx == TRANSPARENT_COLOR_INDEX {
        match earlier {
            Some(e) => {
                if idx < e.len() {
                    bg_idx = e[idx];
                }
            },
            None => {},
        }
    }
    let bg: Rgb = if bg_idx == TRANSPARENT_COLOR_INDEX {
        default_bg
    } else {
        colors[bg_idx as usize]
    };
    let laid: Rgb = [mix(color[0], bg[0], alpha), mix(color[1], bg[1], alpha), mix(
        color[2],
        bg[2],
        alpha,
    )];
    assert(laid =~= mixed_rgb(color, bg, alpha as int));
    let c: u8 = find_closest_color(laid, colors);
    buf[idx] = c;
}

} // verus!
