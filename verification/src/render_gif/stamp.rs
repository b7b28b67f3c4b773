//! Pictures with an opacity for each pixel, and how they are laid on a canvas:
//! glyphs, the ripple of a click and the arrow of the mouse.
use vstd::prelude::*;

use crate::pointer;
use crate::pointer::{pixel, scaled_pixel};
use crate::render_gif::canvas;
use crate::render_gif::canvas::{blend_pixel_idx, OPACITY_LIMIT};
use crate::render_gif::palette::COLORS;
use crate::root;
use crate::root::square_root;
use crate::single;
use crate::single::{multiply, round_single, Measure, ONE};
use crate::style::Rgb;

verus! {

/// A colour and its opacity for each pixel of a rectangle; none leaves the pixel
/// alone.
pub struct Stamp {
    pub left: i32,
    pub top: i32,
    pub width: u32,
    pub height: u32,
    pub ink: Vec<Option<(Rgb, Measure)>>,
}

/// What a stamp leaves on the pixel at column `x` of row `y`.
pub open spec fn ink_at(
    ink: Seq<Option<(Rgb, Measure)>>,
    left: int,
    top: int,
    width: int,
    height: int,
    x: int,
    y: int,
) -> Option<(Rgb, Measure)> {
    if left <= x < left + width && top <= y < top + height {
        ink[(y - top) * width + (x - left)]
    } else {
        None
    }
}

/// What the canvas is drawn with: its size, the colours, what was drawn earlier,
/// and the background of the terminal.
pub struct Paint {
    pub w: u32,
    pub h: u32,
    pub colors: Seq<Rgb>,
    pub earlier: Option<Seq<u8>>,
    pub default_bg: Rgb,
}

impl Paint {
    pub open spec fn wf(self) -> bool {
        &&& 0 < self.w <= i32::MAX
        &&& 0 < self.h <= i32::MAX
        &&& self.w * self.h <= i32::MAX
        &&& self.colors.len() == COLORS
    }
}

/// The canvas with a stamp laid on it.
pub open spec fn stamped(
    buf: Seq<u8>,
    p: Paint,
    ink: Seq<Option<(Rgb, Measure)>>,
    left: int,
    top: int,
    width: int,
    height: int,
) -> Seq<u8> {
    Seq::new(
        buf.len(),
        |i: int|
            match ink_at(ink, left, top, width, height, i % (p.w as int), i / (p.w as int)) {
                Some((color, alpha)) => canvas::blended(
                    buf[i],
                    canvas::earlier_at(p.earlier, i),
                    p.colors,
                    p.default_bg,
                    color,
                    alpha as int,
                ),
                None => buf[i],
            },
    )
}

/// Whether every opacity is in range.
pub open spec fn ink_fits(ink: Seq<Option<(Rgb, Measure)>>) -> bool {
    forall|k: int|
        0 <= k < ink.len() ==> match #[trigger] ink[k] {
            Some((_, alpha)) => 0 <= alpha <= OPACITY_LIMIT,
            None => true,
        }
}

impl Stamp {
    pub open spec fn wf(&self) -> bool {
        &&& self.ink@.len() == self.width * self.height
        &&& self.width <= 0x10_0000
        &&& self.height <= 0x10_0000
        &&& -0x4000_0000 <= self.left <= 0x4000_0000
        &&& -0x4000_0000 <= self.top <= 0x4000_0000
        &&& ink_fits(self.ink@)
    }

    /// The canvas with the stamp laid on it.
    pub open spec fn on(&self, buf: Seq<u8>, p: Paint) -> Seq<u8> {
        stamped(
            buf,
            p,
            self.ink@,
            self.left as int,
            self.top as int,
            self.width as int,
            self.height as int,
        )
    }
}

/// Part of the canvas on which the first `n` pixels of a stamp were laid.
spec fn partly(s: Stamp, buf: Seq<u8>, p: Paint, n: int, i: int) -> u8 {
    let x = i % (p.w as int);
    let y = i / (p.w as int);
    if s.left <= x < s.left + s.width && s.top <= y < s.top + s.height && (y - s.top) * s.width + (x
        - s.left) < n {
        s.on(buf, p)[i]
    } else {
        buf[i]
    }
}

proof fn lemma_stamp_index(x: int, y: int, width: int, height: int)
    requires
        0 <= x < width,
        0 <= y < height,
    ensures
        0 <= y * width + x < width * height,
        (y * width + x) % width == x,
        (y * width + x) / width == y,
{
    canvas::lemma_on_canvas(x, y, width, height);
}

/// Lay a stamp on the canvas.
pub fn lay(
    buf: &mut Vec<u8>,
    earlier: Option<&Vec<u8>>,
    colors: &Vec<Rgb>,
    w: u32,
    h: u32,
    default_bg: Rgb,
    s: &Stamp,
)
    requires
        s.wf(),
        (Paint { w, h, colors: colors@, earlier: canvas::opt_view(earlier), default_bg }).wf(),
        old(buf)@.len() == w * h,
    ensures
        final(buf)@ == s.on(
            old(buf)@,
            (Paint { w, h, colors: colors@, earlier: canvas::opt_view(earlier), default_bg }),
        ),
{
    let ghost p = Paint {
        w,
        h,
        colors: colors@,
        earlier: canvas::opt_view(earlier),
        default_bg,
    };
    let ghost before = buf@;
    let ghost all = s.on(before, p);
    let total: usize = s.ink.len();
    let mut n: usize = 0;
    proof {
        assert forall|i: int| 0 <= i < before.len() implies #[trigger] buf@[i] == partly(
            *s,
            before,
            p,
            0,
            i,
        ) by {
            lemma_partly_start(*s, before, p, i);
        }
    }
    while n < total
        invariant
            s.wf(),
            p.wf(),
            p.w == w,
            p.h == h,
            p.colors == colors@,
            p.earlier == canvas::opt_view(earlier),
            p.default_bg == default_bg,
            total == s.ink@.len(),
            n <= total,
            before.len() == w * h,
            buf@.len() == before.len(),
            forall|i: int|
                0 <= i < before.len() ==> #[trigger] buf@[i] == partly(*s, before, p, n as int, i),
        decreases total - n,
    {
        assert(s.width > 0) by (nonlinear_arith)
            requires
                0 <= n < s.width * s.height,
        ;
        let gx: u32 = (n % s.width as usize) as u32;
        let gy: u32 = (n / s.width as usize) as u32;
        proof {
            canvas::lemma_place(n as int, s.width as int, s.height as int);
        }
        let x: i64 = s.left as i64 + gx as i64;
        let y: i64 = s.top as i64 + gy as i64;
        let on: bool = 0 <= x && x < w as i64 && 0 <= y && y < h as i64;
        let ghost prior = buf@;
        match s.ink[n] {
            Some((color, alpha)) => {
                assert(ink_fits(s.ink@));
                assert(s.ink@[n as int] == Some((color, alpha)));
                if on {
                    proof {
                        canvas::lemma_on_canvas(x as int, y as int, w as int, h as int);
                        assert(y * w <= w * h) by (nonlinear_arith)
                            requires
                                0 <= y < h,
                                0 < w,
                        ;
                    }
                    let i: usize = (y as u32 * w + x as u32) as usize;
                    assert(i == canvas::at(x as int, y as int, w as int));
                    blend_pixel_idx(buf, earlier, colors, i, color, alpha, default_bg);
                }
            },
            None => {},
        }
        proof {
            assert forall|i: int| 0 <= i < before.len() implies #[trigger] buf@[i] == partly(
                *s,
                before,
                p,
                n + 1,
                i,
            ) by {
                lemma_partly_step(*s, before, p, n as int, i, x as int, y as int);
                assert(prior[i] == partly(*s, before, p, n as int, i));
            }
        }
        n = n + 1;
    }
    proof {
        assert forall|i: int| 0 <= i < before.len() implies buf@[i] == all[i] by {
            lemma_partly_end(*s, before, p, i);
            assert(buf@[i] == partly(*s, before, p, total as int, i));
        }
    }
    assert(buf@ =~= all);
}

proof fn lemma_partly_start(s: Stamp, buf: Seq<u8>, p: Paint, i: int)
    ensures
        partly(s, buf, p, 0, i) == buf[i],
{
    let x = i % (p.w as int);
    let y = i / (p.w as int);
    if s.left <= x < s.left + s.width && s.top <= y < s.top + s.height {
        assert(0 <= (y - s.top) * s.width + (x - s.left)) by (nonlinear_arith)
            requires
                0 <= y - s.top,
                0 <= x - s.left,
                0 <= s.width,
        ;
    }
}

proof fn lemma_partly_step(s: Stamp, buf: Seq<u8>, p: Paint, n: int, i: int, x: int, y: int)
    requires
        s.wf(),
        p.wf(),
        0 < s.width,
        buf.len() == p.w * p.h,
        0 <= i < buf.len(),
        0 <= n < s.ink@.len(),
        x == s.left + n % (s.width as int),
        y == s.top + n / (s.width as int),
    ensures
        0 <= x < p.w && 0 <= y < p.h && i == canvas::at(x, y, p.w as int) ==> {
            &&& partly(s, buf, p, n, i) == buf[i]
            &&& partly(s, buf, p, n + 1, i) == (match s.ink@[n] {
                Some((color, alpha)) => canvas::blended(
                    buf[i],
                    canvas::earlier_at(p.earlier, i),
                    p.colors,
                    p.default_bg,
                    color,
                    alpha as int,
                ),
                None => buf[i],
            })
        },
        !(0 <= x < p.w && 0 <= y < p.h && i == canvas::at(x, y, p.w as int)) ==> partly(
            s,
            buf,
            p,
            n + 1,
            i,
        ) == partly(s, buf, p, n, i),
{
    let w = p.w as int;
    let px = i % w;
    let py = i / w;
    canvas::lemma_place(i, w, p.h as int);
    canvas::lemma_place(n, s.width as int, s.height as int);
    if s.left <= px < s.left + s.width && s.top <= py < s.top + s.height {
        lemma_stamp_index(px - s.left, py - s.top, s.width as int, s.height as int);
        if (py - s.top) * s.width + (px - s.left) == n {
            assert(px == x && py == y);
        }
    }
    if 0 <= x < w && 0 <= y < p.h && i == canvas::at(x, y, w) {
        canvas::lemma_on_canvas(x, y, w, p.h as int);
        assert(px == x && py == y);
        assert((py - s.top) * s.width + (px - s.left) == n);
    }
}

proof fn lemma_partly_end(s: Stamp, buf: Seq<u8>, p: Paint, i: int)
    requires
        s.wf(),
        p.wf(),
        buf.len() == p.w * p.h,
        0 <= i < buf.len(),
    ensures
        partly(s, buf, p, s.ink@.len() as int, i) == s.on(buf, p)[i],
{
    let w = p.w as int;
    let px = i % w;
    let py = i / w;
    if s.left <= px < s.left + s.width && s.top <= py < s.top + s.height {
        lemma_stamp_index(px - s.left, py - s.top, s.width as int, s.height as int);
    }
}

/// A glyph where it is drawn: how much of each pixel it covers.
#[derive(Debug, Clone)]
pub struct GlyphBlit {
    pub left: i32,
    pub top: i32,
    pub width: u32,
    pub height: u32,
    pub coverage: Vec<Measure>,
}

impl GlyphBlit {
    pub open spec fn wf(&self) -> bool {
        &&& self.coverage@.len() == self.width * self.height
        &&& self.width <= 0x10_0000
        &&& self.height <= 0x10_0000
        &&& -0x4000_0000 <= self.left <= 0x4000_0000
        &&& -0x4000_0000 <= self.top <= 0x4000_0000
        &&& forall|k: int|
            0 <= k < self.coverage@.len() ==> (#[trigger] self.coverage@[k]) <= OPACITY_LIMIT
    }

    /// The canvas with the glyph drawn in `color`.
    pub open spec fn on(&self, buf: Seq<u8>, p: Paint, color: Rgb) -> Seq<u8> {
        stamped(
            buf,
            p,
            glyph_ink(self.coverage@, color),
            self.left as int,
            self.top as int,
            self.width as int,
            self.height as int,
        )
    }
}

/// A colour wherever a glyph covers something.
pub open spec fn glyph_ink(coverage: Seq<Measure>, color: Rgb) -> Seq<Option<(Rgb, Measure)>> {
    Seq::new(
        coverage.len(),
        |k: int|
            if coverage[k] > 0 {
                Some((color, coverage[k]))
            } else {
                None
            },
    )
}

fn glyph_stamp(g: &GlyphBlit, color: Rgb) -> (r: Stamp)
    requires
        g.wf(),
    ensures
        r.wf(),
        r.ink@ == glyph_ink(g.coverage@, color),
        r.left == g.left,
        r.top == g.top,
        r.width == g.width,
        r.height == g.height,
{
    let mut ink: Vec<Option<(Rgb, Measure)>> = Vec::new();
    let mut k: usize = 0;
    while k < g.coverage.len()
        invariant
            g.wf(),
            k <= g.coverage@.len(),
            ink@.len() == k,
            forall|j: int| 0 <= j < k ==> ink@[j] == glyph_ink(g.coverage@, color)[j],
        decreases g.coverage@.len() - k,
    {
        let c: Measure = g.coverage[k];
        ink.push(
            if c > 0 {
                Some((color, c))
            } else {
                None
            },
        );
        k = k + 1;
    }
    assert(ink@ =~= glyph_ink(g.coverage@, color));
    assert(ink_fits(ink@)) by {
        assert forall|j: int| 0 <= j < ink@.len() implies match #[trigger] ink@[j] {
            Some((_, alpha)) => 0 <= alpha <= OPACITY_LIMIT,
            None => true,
        } by {
            assert(g.coverage@[j] <= OPACITY_LIMIT);
        }
    }
    Stamp { left: g.left, top: g.top, width: g.width, height: g.height, ink }
}

/// Draw a glyph in `color`.
pub fn draw_glyph(
    buf: &mut Vec<u8>,
    earlier: Option<&Vec<u8>>,
    colors: &Vec<Rgb>,
    w: u32,
    h: u32,
    default_bg: Rgb,
    g: &GlyphBlit,
    color: Rgb,
)
    requires
        g.wf(),
        (Paint { w, h, colors: colors@, earlier: canvas::opt_view(earlier), default_bg }).wf(),
        old(buf)@.len() == w * h,
    ensures
        final(buf)@ == g.on(
            old(buf)@,
            (Paint { w, h, colors: colors@, earlier: canvas::opt_view(earlier), default_bg }),
            color,
        ),
{
    let s: Stamp = glyph_stamp(g, color);
    lay(buf, earlier, colors, w, h, default_bg, &s);
}

/// Colour of the ripple around a click.
pub const RIPPLE_COLOR: [u8; 3] = [220, 220, 220];

/// Radius of the ripple.
pub const RIPPLE_RADIUS: u32 = 12;

/// Opacity of the ripple of a click: 0.32.
pub const CLICK_OPACITY: i128 = 0x51eb850000000000;

/// Opacity of the ripple of a drag: 0.18.
pub const DRAG_OPACITY: i128 = 0x2e147b0000000000;

/// Opacity of a ripple where the square of the distance to its centre is `d`: it
/// fades out over its last pixel.
pub open spec fn ripple_alpha(radius: int, d: int, opacity: int) -> int {
    let border = single::single(radius * ONE - root::root(d));
    single::product(
        if border < ONE {
            border
        } else {
            ONE as int
        },
        opacity,
    )
}

/// A ripple.
pub open spec fn ripple_ink(radius: int, color: Rgb, opacity: int) -> Seq<Option<(Rgb, Measure)>> {
    let side = 2 * radius + 1;
    Seq::new(
        (side * side) as nat,
        |k: int|
            {
                let dx = k % side - radius;
                let dy = k / side - radius;
                if dx * dx + dy * dy <= radius * radius {
                    Some(
                        (
                            color,
                            ripple_alpha(radius, dx * dx + dy * dy, opacity) as i128,
                        ),
                    )
                } else {
                    None
                }
            },
    )
}

/// The canvas with a ripple around `cx`, `cy`.
pub open spec fn rippled(buf: Seq<u8>, p: Paint, cx: int, cy: int, opacity: int) -> Seq<u8> {
    stamped(
        buf,
        p,
        ripple_ink(RIPPLE_RADIUS as int, RIPPLE_COLOR, opacity),
        cx - RIPPLE_RADIUS,
        cy - RIPPLE_RADIUS,
        2 * RIPPLE_RADIUS + 1,
        2 * RIPPLE_RADIUS + 1,
    )
}

fn ripple_opacity(d: u32, opacity: Measure) -> (r: Measure)
    requires
        d <= 144,
        0 <= opacity <= ONE,
    ensures
        r == ripple_alpha(12, d as int, opacity as int),
{
    let border: Measure = round_single(12 * ONE - square_root(d as u64));
    let a: Measure = if border < ONE {
        border
    } else {
        ONE
    };
    multiply(a, opacity)
}

/// Every opacity of a ripple is in range.
proof fn lemma_ripple_range(d: int, opacity: int)
    requires
        0 <= d <= 144,
        0 <= opacity <= ONE,
        0 <= root::root(d) <= 12 * ONE,
    ensures
        0 <= ripple_alpha(12, d, opacity) <= OPACITY_LIMIT,
{
    let border = single::single(12 * ONE - root::root(d));
    single::lemma_single_bounds(12 * ONE - root::root(d));
    let a = if border < ONE {
        border
    } else {
        ONE as int
    };
    let x = a / (single::GRAIN as int);
    let y = opacity / (single::GRAIN as int);
    assert(0 <= x <= 0x1_0000_0000);
    assert(0 <= y <= 0x1_0000_0000);
    assert(0 <= x * y <= 0x1_0000_0000 * 0x1_0000_0000) by (nonlinear_arith)
        requires
            0 <= x <= 0x1_0000_0000,
            0 <= y <= 0x1_0000_0000,
    ;
    single::lemma_single_bounds(x * y);
}

/// Draw the ripple of a click or a drag.
pub fn draw_circle_idx(
    buf: &mut Vec<u8>,
    earlier: Option<&Vec<u8>>,
    colors: &Vec<Rgb>,
    w: u32,
    h: u32,
    default_bg: Rgb,
    cx: i32,
    cy: i32,
    opacity: Measure,
)
    requires
        0 <= opacity <= ONE,
        -0x2000_0000 <= cx <= 0x2000_0000,
        -0x2000_0000 <= cy <= 0x2000_0000,
        (Paint { w, h, colors: colors@, earlier: canvas::opt_view(earlier), default_bg }).wf(),
        old(buf)@.len() == w * h,
    ensures
        final(buf)@ == rippled(
            old(buf)@,
            (Paint { w, h, colors: colors@, earlier: canvas::opt_view(earlier), default_bg }),
            cx as int,
            cy as int,
            opacity as int,
        ),
{
    let ghost all = ripple_ink(12, RIPPLE_COLOR, opacity as int);
    assert(25int * 25int == 625) by (nonlinear_arith);
    let mut ink: Vec<Option<(Rgb, Measure)>> = Vec::new();
    let mut k: u32 = 0;
    while k < 625
        invariant
            k <= 625,
            0 <= opacity <= ONE,
            all == ripple_ink(12, RIPPLE_COLOR, opacity as int),
            all.len() == 625,
            ink@.len() == k,
            forall|j: int| 0 <= j < k ==> ink@[j] == all[j],
            ink_fits(ink@),
        decreases 625 - k,
    {
        let dx: i32 = (k % 25) as i32 - 12;
        let dy: i32 = (k / 25) as i32 - 12;
        assert(0 <= dx * dx <= 144) by (nonlinear_arith)
            requires
                -12 <= dx <= 12,
        ;
        assert(0 <= dy * dy <= 144) by (nonlinear_arith)
            requires
                -12 <= dy <= 12,
        ;
        let d: i32 = dx * dx + dy * dy;
        let ghost before = ink@;
        if d <= 144 {
            let a: Measure = ripple_opacity(d as u32, opacity);
            proof {
                assert(root::square(12) == 144);
                root::lemma_root_at_most(d as nat, 12);
                lemma_ripple_range(d as int, opacity as int);
            }
            ink.push(Some((RIPPLE_COLOR, a)));
        } else {
            ink.push(None);
        }
        proof {
            assert(ink@[k as int] == all[k as int]);
            assert forall|j: int| 0 <= j < ink@.len() implies match #[trigger] ink@[j] {
                Some((_, alpha)) => 0 <= alpha <= OPACITY_LIMIT,
                None => true,
            } by {
                if j < k {
                    assert(ink@[j] == before[j]);
                }
            }
        }
        k = k + 1;
    }
    assert(ink@ =~= all);
    let s: Stamp = Stamp { left: cx - 12, top: cy - 12, width: 25, height: 25, ink };
    lay(buf, earlier, colors, w, h, default_bg, &s);
}

/// Columns and rows that the arrow can touch.
pub const ARROW_W: u32 = 22;

/// A sixteenth.
pub const SIXTEENTH: i128 = 0x1000_0000_0000_0000;

pub const ARROW_H: u32 = 31;

/// The arrow, smaller by a scale of 0.82 while a button is pressed.
pub open spec fn arrow_ink(pressed: bool) -> Seq<Option<(Rgb, Measure)>> {
    Seq::new(
        (ARROW_W * ARROW_H) as nat,
        |k: int|
            {
                let s = arrow_shade(k, pressed);
                if s.1 > 0 {
                    Some(([s.0 as u8, s.0 as u8, s.0 as u8], (s.1 * SIXTEENTH) as i128))
                } else {
                    None
                }
            },
    )
}

pub open spec fn arrow_shade(k: int, pressed: bool) -> (int, int) {
    let x = k % (ARROW_W as int) + pointer::MIN;
    let y = k / (ARROW_W as int) + pointer::MIN;
    if pressed {
        pointer::shaded(x, y, 41, 50)
    } else {
        pointer::shaded(x, y, 1, 1)
    }
}

/// The canvas with the arrow, its tip at `cx`, `cy`.
pub open spec fn pointed(buf: Seq<u8>, p: Paint, cx: int, cy: int, pressed: bool) -> Seq<u8> {
    stamped(
        buf,
        p,
        arrow_ink(pressed),
        cx + pointer::MIN,
        cy + pointer::MIN,
        ARROW_W as int,
        ARROW_H as int,
    )
}

/// Draw the arrow.
pub fn draw_arrow(
    buf: &mut Vec<u8>,
    earlier: Option<&Vec<u8>>,
    colors: &Vec<Rgb>,
    w: u32,
    h: u32,
    default_bg: Rgb,
    cx: i32,
    cy: i32,
    pressed: bool,
)
    requires
        -0x2000_0000 <= cx <= 0x2000_0000,
        -0x2000_0000 <= cy <= 0x2000_0000,
        (Paint { w, h, colors: colors@, earlier: canvas::opt_view(earlier), default_bg }).wf(),
        old(buf)@.len() == w * h,
    ensures
        final(buf)@ == pointed(
            old(buf)@,
            (Paint { w, h, colors: colors@, earlier: canvas::opt_view(earlier), default_bg }),
            cx as int,
            cy as int,
            pressed,
        ),
{
    let ghost all = arrow_ink(pressed);
    let mut ink: Vec<Option<(Rgb, Measure)>> = Vec::new();
    let mut k: u32 = 0;
    while k < ARROW_W * ARROW_H
        invariant
            k <= ARROW_W * ARROW_H,
            all == arrow_ink(pressed),
            ink@.len() == k,
            forall|j: int| 0 <= j < k ==> ink@[j] == all[j],
            ink_fits(ink@),
        decreases ARROW_W * ARROW_H - k,
    {
        let x: i32 = (k % ARROW_W) as i32 + pointer::MIN;
        let y: i32 = (k / ARROW_W) as i32 + pointer::MIN;
        let (color, covered) = if pressed {
            scaled_pixel(x, y, 41, 50)
        } else {
            pixel(x, y)
        };
        let ghost before = ink@;
        assert(covered <= 16);
        if covered > 0 {
            ink.push(Some((color, covered as i128 * SIXTEENTH)));
        } else {
            ink.push(None);
        }
        proof {
            let s = arrow_shade(k as int, pressed);
            assert(s.1 == covered);
            assert(color =~= [s.0 as u8, s.0 as u8, s.0 as u8]);
            assert(ink@[k as int] == all[k as int]);
            assert forall|j: int| 0 <= j < ink@.len() implies match #[trigger] ink@[j] {
                Some((_, alpha)) => 0 <= alpha <= OPACITY_LIMIT,
                None => true,
            } by {
                if j < k {
                    assert(ink@[j] == before[j]);
                }
            }
        }
        k = k + 1;
    }
    assert(ink@ =~= all);
    let s: Stamp = Stamp {
        left: cx + pointer::MIN,
        top: cy + pointer::MIN,
        width: ARROW_W,
        height: ARROW_H,
        ink,
    };
    lay(buf, earlier, colors, w, h, default_bg, &s);
}

} // verus!
