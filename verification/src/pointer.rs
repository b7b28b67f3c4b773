//! The arrow of the mouse, for vector and raster output: black body, fine white
//! outline.
use vstd::prelude::*;
use vstd::string::*;

use crate::text;
use crate::text::push_decimal;

verus! {

/// Corners of the arrow in tenths of a pixel, its tip at the origin.
pub const POINTS: [(i64, i64); 7] = [
    (0, 0),
    (0, 230),
    (58, 175),
    (103, 270),
    (140, 252),
    (95, 158),
    (180, 158),
];

/// Number of corners.
pub const CORNERS: usize = 7;

/// First row and column that the arrow can touch.
pub const MIN: i32 = -1;

/// First column right of the arrow.
pub const WIDTH: i32 = 21;

/// First row below the arrow.
pub const HEIGHT: i32 = 30;

/// A number of tenths as a decimal.
pub open spec fn tenths_text(n: int) -> Seq<char> {
    text::decimal((n / 10) as nat) + (if n % 10 == 0 {
        ""@
    } else {
        "."@ + text::decimal((n % 10) as nat)
    })
}

/// The first `n` corners.
pub open spec fn corners_text(n: int) -> Seq<char>
    decreases n,
{
    if n <= 0 {
        ""@
    } else {
        corners_text(n - 1) + (if n > 1 {
            " "@
        } else {
            ""@
        }) + tenths_text(POINTS[n - 1].0 as int) + ","@ + tenths_text(POINTS[n - 1].1 as int)
    }
}

/// The arrow as an SVG polygon.
pub open spec fn polygon() -> Seq<char> {
    "<polygon points=\""@ + corners_text(CORNERS as int)
        + "\" fill=\"#111111\" stroke=\"#ffffff\" stroke-width=\"1.5\" stroke-linejoin=\"round\"/>"@
}

fn push_tenths(out: &mut String, n: i64)
    requires
        0 <= n,
    ensures
        final(out)@ == old(out)@ + tenths_text(n as int),
{
    push_decimal(out, (n / 10) as u128);
    if n % 10 == 0 {
        out.append("");
    } else {
        out.append(".");
        push_decimal(out, (n % 10) as u128);
    }
    assert(out@ =~= old(out)@ + tenths_text(n as int));
}

/// The arrow as an SVG polygon.
pub fn svg() -> (out: String)
    ensures
        out@ == polygon(),
{
    let mut corners: String = "".to_string();
    let mut i: usize = 0;
    while i < CORNERS
        invariant
            i <= CORNERS,
            corners@ == corners_text(i as int),
        decreases CORNERS - i,
    {
        let ghost before = corners@;
        corners.append(
            if i > 0 {
                " "
            } else {
                ""
            },
        );
        let p: (i64, i64) = POINTS[i];
        push_tenths(&mut corners, p.0);
        corners.append(",");
        push_tenths(&mut corners, p.1);
        i = i + 1;
    }
    let mut out: String = "<polygon points=\"".to_string();
    out.append(corners.as_str());
    out.append(
        "\" fill=\"#111111\" stroke=\"#ffffff\" stroke-width=\"1.5\" stroke-linejoin=\"round\"/>",
    );
    out
}

/// Where sample `s` of four lies along pixel `n` of an arrow at the scale
/// `num / den`: at `(n + (s + 1/2) / 4) * den / num` pixels, counted in units of
/// one part in `40 * num` of a pixel.
pub open spec fn sample_at(n: int, s: int, den: int) -> int {
    5 * den * (8 * n + 2 * s + 1)
}

/// A corner of the arrow, in the same units.
pub open spec fn corner(i: int, num: int) -> (int, int) {
    (4 * num * POINTS[i % 7].0, 4 * num * POINTS[i % 7].1)
}

/// Whether the ray from the spot to the right crosses the edge from `a` to `b`.
pub open spec fn crosses(x: int, y: int, a: (int, int), b: (int, int)) -> bool {
    if a.1 <= y < b.1 {
        (x - a.0) * (b.1 - a.1) < (b.0 - a.0) * (y - a.1)
    } else if b.1 <= y < a.1 {
        (x - a.0) * (b.1 - a.1) > (b.0 - a.0) * (y - a.1)
    } else {
        false
    }
}

/// Whether an odd number of the first `n` edges are crossed.
pub open spec fn odd_crossings(x: int, y: int, num: int, n: int) -> bool
    decreases n,
{
    if n <= 0 {
        false
    } else {
        odd_crossings(x, y, num, n - 1) != crosses(x, y, corner(n - 1, num), corner(n, num))
    }
}

/// Whether the spot lies within `r` of the edge from `a` to `b`.
pub open spec fn near(x: int, y: int, a: (int, int), b: (int, int), r: int) -> bool {
    let dx = b.0 - a.0;
    let dy = b.1 - a.1;
    let along = (x - a.0) * dx + (y - a.1) * dy;
    let length = dx * dx + dy * dy;
    let across = (x - a.0) * dy - (y - a.1) * dx;
    if along <= 0 {
        (x - a.0) * (x - a.0) + (y - a.1) * (y - a.1) <= r * r
    } else if along >= length {
        (x - b.0) * (x - b.0) + (y - b.1) * (y - b.1) <= r * r
    } else {
        across * across <= (r * r) * length
    }
}

/// Whether the spot lies on the outline: within three quarters of a pixel of an
/// edge.
pub open spec fn on_outline(x: int, y: int, num: int) -> bool {
    exists|i: int|
        0 <= i < CORNERS && #[trigger] near(x, y, corner(i, num), corner(i + 1, num), 30 * num)
}

/// Brightness of the arrow at the spot: white on the outline, nearly black in
/// the body, nothing outside of both.
pub open spec fn shade(x: int, y: int, num: int) -> Option<int> {
    if on_outline(x, y, num) {
        Some(255)
    } else if odd_crossings(x, y, num, CORNERS as int) {
        Some(17)
    } else {
        None
    }
}

/// How many of the first `n` samples of a pixel the arrow covers, and the sum of
/// their brightness.
pub open spec fn samples(x: int, y: int, num: int, den: int, n: int) -> (int, int)
    decreases n,
{
    if n <= 0 {
        (0, 0)
    } else {
        let before = samples(x, y, num, den, n - 1);
        match shade(sample_at(x, (n - 1) % 4, den), sample_at(y, (n - 1) / 4, den), num) {
            Some(v) => (before.0 + 1, before.1 + v),
            None => before,
        }
    }
}

/// Brightness of a pixel, the average of its covered samples rounded half up, and
/// how many sixteenths of it are covered.
pub open spec fn shaded(x: int, y: int, num: int, den: int) -> (int, int) {
    let s = samples(x, y, num, den, 16);
    if s.0 == 0 {
        (0, 0)
    } else {
        ((2 * s.1 + s.0) / (2 * s.0), s.0)
    }
}

proof fn lemma_mul_bound(a: int, b: int, ma: int, mb: int)
    requires
        -ma <= a <= ma,
        -mb <= b <= mb,
    ensures
        -(ma * mb) <= a * b <= ma * mb,
{
    assert(-(ma * mb) <= a * b <= ma * mb) by (nonlinear_arith)
        requires
            -ma <= a <= ma,
            -mb <= b <= mb,
    ;
}

/// Whether spots up to `far` from the origin and corners up to `wide` from it can be
/// compared.
spec fn comparable(far: int, wide: int) -> bool {
    0 <= far <= 0x1000_0000_0000_0000 && 0 <= wide <= 0x1000_0000_0000_0000 && (far + wide) * wide
        <= 0x4000_0000_0000_0000
}

fn is_crossed(
    x: i128,
    y: i128,
    a: (i128, i128),
    b: (i128, i128),
    Ghost(far): Ghost<int>,
    Ghost(wide): Ghost<int>,
) -> (r: bool)
    requires
        comparable(far, wide),
        -far <= x <= far,
        -far <= y <= far,
        0 <= a.0 <= wide,
        0 <= a.1 <= wide,
        0 <= b.0 <= wide,
        0 <= b.1 <= wide,
    ensures
        r == crosses(x as int, y as int, (a.0 as int, a.1 as int), (b.0 as int, b.1 as int)),
{
    proof {
        lemma_mul_bound(x - a.0, b.1 - a.1, far + wide, wide);
        lemma_mul_bound(y - a.1, b.0 - a.0, far + wide, wide);
        assert((b.0 - a.0) * (y - a.1) == (y - a.1) * (b.0 - a.0)) by (nonlinear_arith);
    }
    if a.1 <= y && y < b.1 {
        (x - a.0) * (b.1 - a.1) < (b.0 - a.0) * (y - a.1)
    } else if b.1 <= y && y < a.1 {
        (x - a.0) * (b.1 - a.1) > (b.0 - a.0) * (y - a.1)
    } else {
        false
    }
}

fn is_near(
    x: i128,
    y: i128,
    a: (i128, i128),
    b: (i128, i128),
    reach: i128,
    Ghost(far): Ghost<int>,
    Ghost(wide): Ghost<int>,
) -> (r: bool)
    requires
        comparable(far, wide),
        -far <= x <= far,
        -far <= y <= far,
        0 <= a.0 <= wide,
        0 <= a.1 <= wide,
        0 <= b.0 <= wide,
        0 <= b.1 <= wide,
        0 <= reach <= wide,
    ensures
        r == near(
            x as int,
            y as int,
            (a.0 as int, a.1 as int),
            (b.0 as int, b.1 as int),
            reach as int,
        ),
{
    let dx: i128 = b.0 - a.0;
    let dy: i128 = b.1 - a.1;
    let px: i128 = x - a.0;
    let py: i128 = y - a.1;
    let qx: i128 = x - b.0;
    let qy: i128 = y - b.1;
    proof {
        let all = far + wide;
        let most: int = 0x2000_0000_0000_0000;
        lemma_mul_bound(px as int, dx as int, all, wide);
        lemma_mul_bound(py as int, dy as int, all, wide);
        lemma_mul_bound(px as int, dy as int, all, wide);
        lemma_mul_bound(py as int, dx as int, all, wide);
        lemma_mul_bound(dx as int, dx as int, all, wide);
        lemma_mul_bound(dy as int, dy as int, all, wide);
        lemma_mul_bound(px as int, px as int, most, most);
        lemma_mul_bound(py as int, py as int, most, most);
        lemma_mul_bound(qx as int, qx as int, most, most);
        lemma_mul_bound(qy as int, qy as int, most, most);
        lemma_mul_bound(reach as int, reach as int, all, wide);
    }
    let along: i128 = px * dx + py * dy;
    let length: i128 = dx * dx + dy * dy;
    let across: i128 = px * dy - py * dx;
    let square: i128 = reach * reach;
    proof {
        lemma_mul_bound(across as int, across as int, 0x8000_0000_0000_0000, 0x8000_0000_0000_0000);
        lemma_mul_bound(square as int, length as int, 0x4000_0000_0000_0000, 0x8000_0000_0000_0000);
    }
    if along <= 0 {
        px * px + py * py <= square
    } else if along >= length {
        qx * qx + qy * qy <= square
    } else {
        across * across <= square * length
    }
}

/// How far the corners of the arrow are from its tip.
spec fn widest(num: int) -> int {
    1080 * num
}

fn corner_at(i: usize, num: i128) -> (r: (i128, i128))
    requires
        i <= CORNERS,
        1 <= num <= SCALE_PARTS,
    ensures
        (r.0 as int, r.1 as int) == corner(i as int, num as int),
        0 <= r.0 <= widest(num as int),
        0 <= r.1 <= widest(num as int),
{
    let p: (i64, i64) = POINTS[i % 7];
    assert(0 <= p.0 <= 270 && 0 <= p.1 <= 270) by {
        let k = i % 7;
        assert(POINTS[k as int] == p);
    }
    assert(0 <= 4 * num * p.0 <= 1080 * num && 0 <= 4 * num * p.1 <= 1080 * num) by (
    nonlinear_arith)
        requires
            num >= 1,
            0 <= p.0 <= 270,
            0 <= p.1 <= 270,
    ;
    (4 * num * p.0 as i128, 4 * num * p.1 as i128)
}

fn sample(x: i128, y: i128, num: i128, Ghost(far): Ghost<int>) -> (r: Option<u32>)
    requires
        1 <= num <= SCALE_PARTS,
        comparable(far, widest(num as int)),
        -far <= x <= far,
        -far <= y <= far,
    ensures
        match r {
            Some(v) => shade(x as int, y as int, num as int) == Some(v as int),
            None => shade(x as int, y as int, num as int) is None,
        },
{
    let mut inside: bool = false;
    let mut i: usize = 0;
    let ghost wide = widest(num as int);
    while i < CORNERS
        invariant
            i <= CORNERS,
            1 <= num <= SCALE_PARTS,
            wide == widest(num as int),
            comparable(far, wide),
            -far <= x <= far,
            -far <= y <= far,
            inside == odd_crossings(x as int, y as int, num as int, i as int),
            forall|k: int|
                0 <= k < i ==> !#[trigger] near(
                    x as int,
                    y as int,
                    corner(k, num as int),
                    corner(k + 1, num as int),
                    30 * num,
                ),
        decreases CORNERS - i,
    {
        let a: (i128, i128) = corner_at(i, num);
        let b: (i128, i128) = corner_at(i + 1, num);
        if is_near(x, y, a, b, 30 * num, Ghost(far), Ghost(wide)) {
            assert(near(
                x as int,
                y as int,
                corner(i as int, num as int),
                corner(i + 1, num as int),
                30 * num,
            ));
            return Some(255);
        }
        if is_crossed(x, y, a, b, Ghost(far), Ghost(wide)) {
            inside = !inside;
        }
        i = i + 1;
    }
    if inside {
        Some(17)
    } else {
        None
    }
}

/// Samples come in sixteenths, and none is brighter than white.
proof fn lemma_samples_bound(x: int, y: int, num: int, den: int, n: int)
    requires
        0 <= n <= 16,
    ensures
        0 <= samples(x, y, num, den, n).0 <= n,
        17 * samples(x, y, num, den, n).0 <= samples(x, y, num, den, n).1 <= 255 * samples(
            x,
            y,
            num,
            den,
            n,
        ).0,
    decreases n,
{
    if n > 0 {
        lemma_samples_bound(x, y, num, den, n - 1);
    }
}

/// What is covered of a pixel is some sixteenths of it, and its brightness lies
/// between that of the body and that of the outline.
pub proof fn lemma_shaded_range(x: int, y: int, num: int, den: int)
    ensures
        0 <= shaded(x, y, num, den).1 <= 16,
        shaded(x, y, num, den).1 > 0 ==> 17 <= shaded(x, y, num, den).0 <= 255,
{
    lemma_samples_bound(x, y, num, den, 16);
    let s = samples(x, y, num, den, 16);
    if s.0 > 0 {
        assert(17 <= (2 * s.1 + s.0) / (2 * s.0) <= 255) by (nonlinear_arith)
            requires
                s.0 > 0,
                17 * s.0 <= s.1 <= 255 * s.0,
        ;
    }
}

/// Bound on numerator times denominator of a scale.
pub const SCALE_PARTS: u32 = 0x8000;

/// The arrow on pixel `x`, `y` at its own size: brightness and covered sixteenths.
pub fn pixel(x: i32, y: i32) -> (r: ([u8; 3], u32))
    ensures
        r.0[0] == shaded(x as int, y as int, 1, 1).0,
        r.0[1] == r.0[0],
        r.0[2] == r.0[0],
        r.1 == shaded(x as int, y as int, 1, 1).1,
        r.1 <= 16,
{
    scaled_pixel(x, y, 1, 1)
}

/// The spots of every pixel can be compared with the corners of the arrow.
proof fn lemma_comparable(num: int, den: int)
    requires
        1 <= num,
        1 <= den,
        num * den <= SCALE_PARTS,
    ensures
        num <= SCALE_PARTS,
        den <= SCALE_PARTS,
        comparable(5 * den * 0x4_0000_0008, widest(num)),
{
    assert(num <= 0x8000 && den <= 0x8000) by (nonlinear_arith)
        requires
            1 <= num,
            1 <= den,
            num * den <= 0x8000,
    ;
    assert((5 * den * 0x4_0000_0008 + 1080 * num) * (1080 * num) <= 0x4000_0000_0000_0000) by (
    nonlinear_arith)
        requires
            1 <= num <= 0x8000,
            1 <= den <= 0x8000,
            num * den <= 0x8000,
    ;
}

/// The arrow on pixel `x`, `y` at the scale `num / den`: four-by-four coverage
/// sampling.
pub fn scaled_pixel(x: i32, y: i32, num: u32, den: u32) -> (r: ([u8; 3], u32))
    requires
        1 <= num,
        1 <= den,
        num * den <= SCALE_PARTS,
    ensures
        r.0[0] == shaded(x as int, y as int, num as int, den as int).0,
        r.0[1] == r.0[0],
        r.0[2] == r.0[0],
        r.1 == shaded(x as int, y as int, num as int, den as int).1,
        r.1 <= 16,
{
    let mut count: u32 = 0;
    let mut value: u32 = 0;
    let mut n: u32 = 0;
    let ghost far = 5 * den * 0x4_0000_0008;
    proof {
        lemma_comparable(num as int, den as int);
    }
    while n < 16
        invariant
            n <= 16,
            1 <= num <= SCALE_PARTS,
            1 <= den <= SCALE_PARTS,
            far == 5 * den * 0x4_0000_0008,
            comparable(far, widest(num as int)),
            (count as int, value as int) == samples(
                x as int,
                y as int,
                num as int,
                den as int,
                n as int,
            ),
            count <= n,
            value <= 255 * count,
        decreases 16 - n,
    {
        let d: i128 = 5 * den as i128;
        let ax: i128 = 8 * x as i128 + 2 * (n % 4) as i128 + 1;
        let ay: i128 = 8 * y as i128 + 2 * (n / 4) as i128 + 1;
        proof {
            lemma_mul_bound(d as int, ax as int, d as int, 0x4_0000_0008);
            lemma_mul_bound(d as int, ay as int, d as int, 0x4_0000_0008);
        }
        match sample(d * ax, d * ay, num as i128, Ghost(far)) {
            Some(v) => {
                value = value + v;
                count = count + 1;
            },
            None => {},
        }
        n = n + 1;
    }
    proof {
        lemma_samples_bound(x as int, y as int, num as int, den as int, 16);
        lemma_shaded_range(x as int, y as int, num as int, den as int);
    }
    if count == 0 {
        return ([0, 0, 0], 0);
    }
    let v: u32 = (2 * value + count) / (2 * count);
    ([v as u8, v as u8, v as u8], count)
}

} // verus!
