//! The colours of an indexed picture.
use vstd::prelude::*;

use crate::style::Rgb;

verus! {

/// The index that leaves a pixel as it was.
pub const TRANSPARENT_COLOR_INDEX: u8 = 255;

/// Number of colours.
pub const COLORS: usize = 256;

/// Number of colours of the theme at the start of the palette.
pub const BASE: usize = 16;

/// Number of colours of the cube that follows them.
pub const CUBE: usize = 216;

/// Number of greys after the cube.
pub const RAMP: usize = 24;

/// The palette of a theme: its sixteen colours, the cube, as much of the ramp as
/// there is room for, and black in the place of the transparent index.
pub open spec fn assembled(base16: Seq<Rgb>, cube: Seq<Rgb>, ramp: Seq<Rgb>) -> Seq<Rgb> {
    base16 + cube + ramp.subrange(0, 23) + seq![[0u8, 0u8, 0u8]]
}

/// The palette of a theme.
pub fn assemble_palette(base16: &Vec<Rgb>, cube: &Vec<Rgb>, ramp: &Vec<Rgb>) -> (out: Vec<Rgb>)
    requires
        base16@.len() == BASE,
        cube@.len() == CUBE,
        ramp@.len() == RAMP,
    ensures
        out@ == assembled(base16@, cube@, ramp@),
        out@.len() == COLORS,
{
    let mut out: Vec<Rgb> = Vec::new();
    let mut i: usize = 0;
    let ghost all = assembled(base16@, cube@, ramp@);
    while i < COLORS
        invariant
            i <= COLORS,
            base16@.len() == BASE,
            cube@.len() == CUBE,
            ramp@.len() == RAMP,
            all == assembled(base16@, cube@, ramp@),
            out@.len() == i,
            forall|k: int| 0 <= k < i ==> out@[k] == all[k],
        decreases COLORS - i,
    {
        let c: Rgb = if i < BASE {
            base16[i]
        } else if i < BASE + CUBE {
            cube[i - BASE]
        } else if i < TRANSPARENT_COLOR_INDEX as usize {
            ramp[i - BASE - CUBE]
        } else {
            [0u8, 0u8, 0u8]
        };
        out.push(c);
        i = i + 1;
    }
    assert(out@ =~= all);
    out
}

/// How far apart two colours are: the sum of the squares of the differences.
pub open spec fn distance(a: Rgb, b: Rgb) -> int {
    let dr = a[0] - b[0];
    let dg = a[1] - b[1];
    let db = a[2] - b[2];
    dr * dr + dg * dg + db * db
}

/// The first of the first `n` colours to which none of them is nearer.
pub open spec fn closest_of(color: Rgb, palette: Seq<Rgb>, n: int) -> int
    decreases n,
{
    if n <= 1 {
        0
    } else {
        let best = closest_of(color, palette, n - 1);
        if distance(color, palette[n - 1]) < distance(color, palette[best]) {
            n - 1
        } else {
            best
        }
    }
}

/// The index of the colour that stands for `color`.
pub open spec fn closest(color: Rgb, palette: Seq<Rgb>) -> u8 {
    closest_of(color, palette, 255) as u8
}

proof fn lemma_closest_of(color: Rgb, palette: Seq<Rgb>, n: int)
    requires
        1 <= n,
    ensures
        0 <= closest_of(color, palette, n) < n,
        forall|k: int|
            0 <= k < n ==> distance(color, palette[closest_of(color, palette, n)]) <= distance(
                color,
                #[trigger] palette[k],
            ),
        forall|k: int|
            0 <= k < closest_of(color, palette, n) ==> distance(
                color,
                palette[closest_of(color, palette, n)],
            ) < distance(color, #[trigger] palette[k]),
    decreases n,
{
    if n > 1 {
        lemma_closest_of(color, palette, n - 1);
    }
}

/// The colour chosen for `color` is the nearest there is, of equally near ones the
/// first, and never the transparent index.
pub proof fn lemma_closest(color: Rgb, palette: Seq<Rgb>)
    ensures
        closest(color, palette) < TRANSPARENT_COLOR_INDEX,
        forall|k: int|
            0 <= k < TRANSPARENT_COLOR_INDEX ==> distance(
                color,
                palette[closest(color, palette) as int],
            ) <= distance(color, #[trigger] palette[k]),
        forall|k: int|
            0 <= k < closest(color, palette) ==> distance(
                color,
                palette[closest(color, palette) as int],
            ) < distance(color, #[trigger] palette[k]),
{
    lemma_closest_of(color, palette, 255);
}

/// A colour of the palette stands for itself.
pub proof fn lemma_closest_exact(palette: Seq<Rgb>, k: int)
    requires
        0 <= k < TRANSPARENT_COLOR_INDEX,
    ensures
        palette[closest(palette[k], palette) as int] == palette[k],
{
    let c = palette[k];
    lemma_closest(c, palette);
    let d = palette[closest(c, palette) as int];
    assert(distance(c, palette[k]) == 0);
    assert(distance(c, d) <= 0);
    lemma_square(c[0] - d[0]);
    lemma_square(c[1] - d[1]);
    lemma_square(c[2] - d[2]);
    assert(d =~= c);
}

proof fn lemma_square(a: int)
    ensures
        a * a >= 0,
        a * a == 0 ==> a == 0,
{
    assert(a * a >= 0 && (a * a == 0 ==> a == 0)) by (nonlinear_arith);
}

/// The index of the colour that stands for `color`.
pub fn find_closest_color(color: Rgb, palette: &Vec<Rgb>) -> (r: u8)
    requires
        palette@.len() == COLORS,
    ensures
        r == closest(color, palette@),
        r < TRANSPARENT_COLOR_INDEX,
{
    let mut best: usize = 0;
    let mut nearest: i32 = color_distance(color, palette[0]);
    let mut i: usize = 1;
    while i < TRANSPARENT_COLOR_INDEX as usize
        invariant
            1 <= i <= 255,
            palette@.len() == COLORS,
            best == closest_of(color, palette@, i as int),
            best < i,
            nearest == distance(color, palette@[best as int]),
        decreases 255 - i,
    {
        let d: i32 = color_distance(color, palette[i]);
        if d < nearest {
            nearest = d;
            best = i;
        }
        i = i + 1;
    }
    best as u8
}

fn color_distance(a: Rgb, b: Rgb) -> (r: i32)
    ensures
        r == distance(a, b),
{
    let dr: i32 = a[0] as i32 - b[0] as i32;
    let dg: i32 = a[1] as i32 - b[1] as i32;
    let db: i32 = a[2] as i32 - b[2] as i32;
    assert(-65025 <= dr * dr <= 65025) by (nonlinear_arith)
        requires
            -255 <= dr <= 255,
    ;
    assert(-65025 <= dg * dg <= 65025) by (nonlinear_arith)
        requires
            -255 <= dg <= 255,
    ;
    assert(-65025 <= db * db <= 65025) by (nonlinear_arith)
        requires
            -255 <= db <= 255,
    ;
    dr * dr + dg * dg + db * db
}

/// The palette as one row of bytes.
pub open spec fn flattened(palette: Seq<Rgb>) -> Seq<u8> {
    Seq::new(3 * palette.len(), |i: int| palette[i / 3][i % 3])
}

/// The palette as one row of bytes: red, green and blue of each colour in turn.
pub fn flatten_palette(palette: &Vec<Rgb>) -> (out: Vec<u8>)
    requires
        palette@.len() == COLORS,
    ensures
        out@ == flattened(palette@),
{
    let mut out: Vec<u8> = Vec::new();
    let mut i: usize = 0;
    while i < COLORS
        invariant
            i <= COLORS,
            palette@.len() == COLORS,
            out@.len() == 3 * i,
            forall|k: int| 0 <= k < 3 * i ==> out@[k] == palette@[k / 3][k % 3],
        decreases COLORS - i,
    {
        let c: Rgb = palette[i];
        out.push(c[0]);
        out.push(c[1]);
        out.push(c[2]);
        i = i + 1;
    }
    assert(out@ =~= flattened(palette@));
    out
}

} // verus!
