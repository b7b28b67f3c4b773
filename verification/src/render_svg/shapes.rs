//! Box-drawing and block characters as vector shapes.
use vstd::prelude::*;
use vstd::string::*;

use crate::single;
use crate::single::{format_shortest, round_single, Measure, ONE};
use crate::text::to_chars;

verus! {

/// Number of characters that have a shape.
pub const SHAPE_COUNT: usize = 93;

/// The characters that have a shape, each with the markup of the shape. A letter
/// or digit in braces stands for a length of the cell: see [`length_of`].
pub const SHAPES: [(char, &'static str); 93] = [
    ('─', "<path d=\"M 0 {v} H {w}\" fill=\"none\" stroke-width=\"{l}\" stroke-linecap=\"butt\"/>"),
    ('━', "<path d=\"M 0 {v} H {w}\" fill=\"none\" stroke-width=\"{b}\" stroke-linecap=\"butt\"/>"),
    ('│', "<path d=\"M {u} 0 V {h}\" fill=\"none\" stroke-width=\"{l}\" stroke-linecap=\"butt\"/>"),
    ('┃', "<path d=\"M {u} 0 V {h}\" fill=\"none\" stroke-width=\"{b}\" stroke-linecap=\"butt\"/>"),
    ('┄', "<path d=\"M 0 {v} H {w}\" fill=\"none\" stroke-width=\"{l}\" stroke-dasharray=\"3,3\" stroke-linecap=\"butt\"/>"),
    ('┅', "<path d=\"M 0 {v} H {w}\" fill=\"none\" stroke-width=\"{b}\" stroke-dasharray=\"3,3\" stroke-linecap=\"butt\"/>"),
    ('┆', "<path d=\"M {u} 0 V {h}\" fill=\"none\" stroke-width=\"{l}\" stroke-dasharray=\"3,3\" stroke-linecap=\"butt\"/>"),
    ('┇', "<path d=\"M {u} 0 V {h}\" fill=\"none\" stroke-width=\"{b}\" stroke-dasharray=\"3,3\" stroke-linecap=\"butt\"/>"),
    ('┈', "<path d=\"M 0 {v} H {w}\" fill=\"none\" stroke-width=\"{l}\" stroke-dasharray=\"2,2\" stroke-linecap=\"butt\"/>"),
    ('┉', "<path d=\"M 0 {v} H {w}\" fill=\"none\" stroke-width=\"{b}\" stroke-dasharray=\"2,2\" stroke-linecap=\"butt\"/>"),
    ('┊', "<path d=\"M {u} 0 V {h}\" fill=\"none\" stroke-width=\"{l}\" stroke-dasharray=\"2,2\" stroke-linecap=\"butt\"/>"),
    ('┋', "<path d=\"M {u} 0 V {h}\" fill=\"none\" stroke-width=\"{b}\" stroke-dasharray=\"2,2\" stroke-linecap=\"butt\"/>"),
    ('┌', "<path d=\"M {w} {v} H {u} V {h}\" fill=\"none\" stroke-width=\"{l}\" stroke-linejoin=\"miter\"/>"),
    ('┐', "<path d=\"M 0 {v} H {u} V {h}\" fill=\"none\" stroke-width=\"{l}\" stroke-linejoin=\"miter\"/>"),
    ('└', "<path d=\"M {w} {v} H {u} V 0\" fill=\"none\" stroke-width=\"{l}\" stroke-linejoin=\"miter\"/>"),
    ('┘', "<path d=\"M 0 {v} H {u} V 0\" fill=\"none\" stroke-width=\"{l}\" stroke-linejoin=\"miter\"/>"),
    ('┏', "<path d=\"M {w} {v} H {u} V {h}\" fill=\"none\" stroke-width=\"{b}\" stroke-linejoin=\"miter\"/>"),
    ('┓', "<path d=\"M 0 {v} H {u} V {h}\" fill=\"none\" stroke-width=\"{b}\" stroke-linejoin=\"miter\"/>"),
    ('┗', "<path d=\"M {w} {v} H {u} V 0\" fill=\"none\" stroke-width=\"{b}\" stroke-linejoin=\"miter\"/>"),
    ('┛', "<path d=\"M 0 {v} H {u} V 0\" fill=\"none\" stroke-width=\"{b}\" stroke-linejoin=\"miter\"/>"),
    ('┍', "<path d=\"M {w} {v} H {u}\" fill=\"none\" stroke-width=\"{b}\"/>\n               <path d=\"M {u} {v} V {h}\" fill=\"none\" stroke-width=\"{l}\"/>"),
    ('┎', "<path d=\"M {w} {v} H {u}\" fill=\"none\" stroke-width=\"{l}\"/>\n               <path d=\"M {u} {v} V {h}\" fill=\"none\" stroke-width=\"{b}\"/>"),
    ('┑', "<path d=\"M 0 {v} H {u}\" fill=\"none\" stroke-width=\"{b}\"/>\n               <path d=\"M {u} {v} V {h}\" fill=\"none\" stroke-width=\"{l}\"/>"),
    ('┒', "<path d=\"M 0 {v} H {u}\" fill=\"none\" stroke-width=\"{l}\"/>\n               <path d=\"M {u} {v} V {h}\" fill=\"none\" stroke-width=\"{b}\"/>"),
    ('┕', "<path d=\"M {w} {v} H {u}\" fill=\"none\" stroke-width=\"{b}\"/>\n               <path d=\"M {u} {v} V 0\" fill=\"none\" stroke-width=\"{l}\"/>"),
    ('┖', "<path d=\"M {w} {v} H {u}\" fill=\"none\" stroke-width=\"{l}\"/>\n               <path d=\"M {u} {v} V 0\" fill=\"none\" stroke-width=\"{b}\"/>"),
    ('┙', "<path d=\"M 0 {v} H {u}\" fill=\"none\" stroke-width=\"{b}\"/>\n               <path d=\"M {u} {v} V 0\" fill=\"none\" stroke-width=\"{l}\"/>"),
    ('┚', "<path d=\"M 0 {v} H {u}\" fill=\"none\" stroke-width=\"{l}\"/>\n               <path d=\"M {u} {v} V 0\" fill=\"none\" stroke-width=\"{b}\"/>"),
    ('╭', "<path d=\"M {w} {v} H {r} Q {u} {v} {u} {t} V {h}\" fill=\"none\" stroke-width=\"{l}\" stroke-linejoin=\"round\"/>"),
    ('╮', "<path d=\"M 0 {v} H {q} Q {u} {v} {u} {t} V {h}\" fill=\"none\" stroke-width=\"{l}\" stroke-linejoin=\"round\"/>"),
    ('╯', "<path d=\"M 0 {v} H {q} Q {u} {v} {u} {s} V 0\" fill=\"none\" stroke-width=\"{l}\" stroke-linejoin=\"round\"/>"),
    ('╰', "<path d=\"M {w} {v} H {r} Q {u} {v} {u} {s} V 0\" fill=\"none\" stroke-width=\"{l}\" stroke-linejoin=\"round\"/>"),
    ('├', "<path d=\"M {u} 0 V {h} M {u} {v} H {w}\" fill=\"none\" stroke-width=\"{l}\"/>"),
    ('┤', "<path d=\"M {u} 0 V {h} M {u} {v} H 0\" fill=\"none\" stroke-width=\"{l}\"/>"),
    ('┬', "<path d=\"M 0 {v} H {w} M {u} {v} V {h}\" fill=\"none\" stroke-width=\"{l}\"/>"),
    ('┴', "<path d=\"M 0 {v} H {w} M {u} {v} V 0\" fill=\"none\" stroke-width=\"{l}\"/>"),
    ('┼', "<path d=\"M 0 {v} H {w} M {u} 0 V {h}\" fill=\"none\" stroke-width=\"{l}\"/>"),
    ('┣', "<path d=\"M {u} 0 V {h} M {u} {v} H {w}\" fill=\"none\" stroke-width=\"{b}\"/>"),
    ('┫', "<path d=\"M {u} 0 V {h} M {u} {v} H 0\" fill=\"none\" stroke-width=\"{b}\"/>"),
    ('┳', "<path d=\"M 0 {v} H {w} M {u} {v} V {h}\" fill=\"none\" stroke-width=\"{b}\"/>"),
    ('┻', "<path d=\"M 0 {v} H {w} M {u} {v} V 0\" fill=\"none\" stroke-width=\"{b}\"/>"),
    ('╋', "<path d=\"M 0 {v} H {w} M {u} 0 V {h}\" fill=\"none\" stroke-width=\"{b}\"/>"),
    ('┠', "<path d=\"M {u} 0 V {h}\" fill=\"none\" stroke-width=\"{b}\"/>\n               <path d=\"M {u} {v} H {w}\" fill=\"none\" stroke-width=\"{l}\"/>"),
    ('┨', "<path d=\"M {u} 0 V {h}\" fill=\"none\" stroke-width=\"{b}\"/>\n               <path d=\"M {u} {v} H 0\" fill=\"none\" stroke-width=\"{l}\"/>"),
    ('┰', "<path d=\"M 0 {v} H {w}\" fill=\"none\" stroke-width=\"{b}\"/>\n               <path d=\"M {u} {v} V {h}\" fill=\"none\" stroke-width=\"{l}\"/>"),
    ('┸', "<path d=\"M 0 {v} H {w}\" fill=\"none\" stroke-width=\"{b}\"/>\n               <path d=\"M {u} {v} V 0\" fill=\"none\" stroke-width=\"{l}\"/>"),
    ('┝', "<path d=\"M {u} 0 V {h}\" fill=\"none\" stroke-width=\"{l}\"/>\n               <path d=\"M {u} {v} H {w}\" fill=\"none\" stroke-width=\"{b}\"/>"),
    ('┥', "<path d=\"M {u} 0 V {h}\" fill=\"none\" stroke-width=\"{l}\"/>\n               <path d=\"M {u} {v} H 0\" fill=\"none\" stroke-width=\"{b}\"/>"),
    ('┯', "<path d=\"M 0 {v} H {w}\" fill=\"none\" stroke-width=\"{l}\"/>\n               <path d=\"M {u} {v} V {h}\" fill=\"none\" stroke-width=\"{b}\"/>"),
    ('┷', "<path d=\"M 0 {v} H {w}\" fill=\"none\" stroke-width=\"{l}\"/>\n               <path d=\"M {u} {v} V 0\" fill=\"none\" stroke-width=\"{b}\"/>"),
    ('═', "<path d=\"M 0 {o} H {w} M 0 {p} H {w}\" fill=\"none\" stroke-width=\"{l}\"/>"),
    ('║', "<path d=\"M {m} 0 V {h} M {n} 0 V {h}\" fill=\"none\" stroke-width=\"{l}\"/>"),
    ('╔', "<path d=\"M {w} {o} H {m} V {h}\" fill=\"none\" stroke-width=\"{l}\"/>\n               <path d=\"M {w} {p} H {n} V {h}\" fill=\"none\" stroke-width=\"{l}\"/>"),
    ('╗', "<path d=\"M 0 {o} H {n} V {h}\" fill=\"none\" stroke-width=\"{l}\"/>\n               <path d=\"M 0 {p} H {m} V {h}\" fill=\"none\" stroke-width=\"{l}\"/>"),
    ('╚', "<path d=\"M {w} {p} H {m} V 0\" fill=\"none\" stroke-width=\"{l}\"/>\n               <path d=\"M {w} {o} H {n} V 0\" fill=\"none\" stroke-width=\"{l}\"/>"),
    ('╝', "<path d=\"M 0 {p} H {n} V 0\" fill=\"none\" stroke-width=\"{l}\"/>\n               <path d=\"M 0 {o} H {m} V 0\" fill=\"none\" stroke-width=\"{l}\"/>"),
    ('╠', "<path d=\"M {m} 0 V {h}\" fill=\"none\" stroke-width=\"{l}\"/>\n               <path d=\"M {n} 0 V {o} H {w}\" fill=\"none\" stroke-width=\"{l}\"/>\n               <path d=\"M {n} {h} V {p} H {w}\" fill=\"none\" stroke-width=\"{l}\"/>"),
    ('╣', "<path d=\"M {n} 0 V {h}\" fill=\"none\" stroke-width=\"{l}\"/>\n               <path d=\"M {m} 0 V {o} H 0\" fill=\"none\" stroke-width=\"{l}\"/>\n               <path d=\"M {m} {h} V {p} H 0\" fill=\"none\" stroke-width=\"{l}\"/>"),
    ('╦', "<path d=\"M 0 {o} H {w}\" fill=\"none\" stroke-width=\"{l}\"/>\n               <path d=\"M 0 {p} H {m} V {h}\" fill=\"none\" stroke-width=\"{l}\"/>\n               <path d=\"M {w} {p} H {n} V {h}\" fill=\"none\" stroke-width=\"{l}\"/>"),
    ('╩', "<path d=\"M 0 {p} H {w}\" fill=\"none\" stroke-width=\"{l}\"/>\n               <path d=\"M 0 {o} H {m} V 0\" fill=\"none\" stroke-width=\"{l}\"/>\n               <path d=\"M {w} {o} H {n} V 0\" fill=\"none\" stroke-width=\"{l}\"/>"),
    ('╬', "<path d=\"M 0 {o} H {m} V 0\" fill=\"none\" stroke-width=\"{l}\"/>\n               <path d=\"M {w} {o} H {n} V 0\" fill=\"none\" stroke-width=\"{l}\"/>\n               <path d=\"M 0 {p} H {m} V {h}\" fill=\"none\" stroke-width=\"{l}\"/>\n               <path d=\"M {w} {p} H {n} V {h}\" fill=\"none\" stroke-width=\"{l}\"/>"),
    ('█', "<rect x=\"0\" y=\"0\" width=\"{w}\" height=\"{h}\" stroke=\"none\"/>"),
    ('▀', "<rect x=\"0\" y=\"0\" width=\"{w}\" height=\"{v}\" stroke=\"none\"/>"),
    ('▄', "<rect x=\"0\" y=\"{v}\" width=\"{w}\" height=\"{v}\" stroke=\"none\"/>"),
    ('▌', "<rect x=\"0\" y=\"0\" width=\"{u}\" height=\"{h}\" stroke=\"none\"/>"),
    ('▐', "<rect x=\"{u}\" y=\"0\" width=\"{u}\" height=\"{h}\" stroke=\"none\"/>"),
    (' ', "<rect x=\"0\" y=\"{H}\" width=\"{w}\" height=\"{A}\" stroke=\"none\"/>"),
    ('▂', "<rect x=\"0\" y=\"{I}\" width=\"{w}\" height=\"{B}\" stroke=\"none\"/>"),
    ('▃', "<rect x=\"0\" y=\"{J}\" width=\"{w}\" height=\"{C}\" stroke=\"none\"/>"),
    ('▅', "<rect x=\"0\" y=\"{L}\" width=\"{w}\" height=\"{E}\" stroke=\"none\"/>"),
    ('▆', "<rect x=\"0\" y=\"{M}\" width=\"{w}\" height=\"{F}\" stroke=\"none\"/>"),
    ('▇', "<rect x=\"0\" y=\"{N}\" width=\"{w}\" height=\"{G}\" stroke=\"none\"/>"),
    ('▏', "<rect x=\"0\" y=\"0\" width=\"{1}\" height=\"{h}\" stroke=\"none\"/>"),
    ('▎', "<rect x=\"0\" y=\"0\" width=\"{2}\" height=\"{h}\" stroke=\"none\"/>"),
    ('▍', "<rect x=\"0\" y=\"0\" width=\"{3}\" height=\"{h}\" stroke=\"none\"/>"),
    ('▋', "<rect x=\"0\" y=\"0\" width=\"{5}\" height=\"{h}\" stroke=\"none\"/>"),
    ('▊', "<rect x=\"0\" y=\"0\" width=\"{6}\" height=\"{h}\" stroke=\"none\"/>"),
    ('▉', "<rect x=\"0\" y=\"0\" width=\"{7}\" height=\"{h}\" stroke=\"none\"/>"),
    ('▔', "<rect x=\"0\" y=\"0\" width=\"{w}\" height=\"{A}\" stroke=\"none\"/>"),
    ('▕', "<rect x=\"{z}\" y=\"0\" width=\"{1}\" height=\"{h}\" stroke=\"none\"/>"),
    ('▖', "<rect x=\"0\" y=\"{v}\" width=\"{u}\" height=\"{v}\" stroke=\"none\"/>"),
    ('▗', "<rect x=\"{u}\" y=\"{v}\" width=\"{u}\" height=\"{v}\" stroke=\"none\"/>"),
    ('▘', "<rect x=\"0\" y=\"0\" width=\"{u}\" height=\"{v}\" stroke=\"none\"/>"),
    ('▝', "<rect x=\"{u}\" y=\"0\" width=\"{u}\" height=\"{v}\" stroke=\"none\"/>"),
    ('▙', "<rect x=\"0\" y=\"0\" width=\"{u}\" height=\"{v}\" stroke=\"none\"/>\n               <rect x=\"0\" y=\"{v}\" width=\"{w}\" height=\"{v}\" stroke=\"none\"/>"),
    ('▚', "<rect x=\"0\" y=\"0\" width=\"{u}\" height=\"{v}\" stroke=\"none\"/>\n               <rect x=\"{u}\" y=\"{v}\" width=\"{u}\" height=\"{v}\" stroke=\"none\"/>"),
    ('▛', "<rect x=\"0\" y=\"0\" width=\"{w}\" height=\"{v}\" stroke=\"none\"/>\n               <rect x=\"0\" y=\"{v}\" width=\"{u}\" height=\"{v}\" stroke=\"none\"/>"),
    ('▜', "<rect x=\"0\" y=\"0\" width=\"{w}\" height=\"{v}\" stroke=\"none\"/>\n               <rect x=\"{u}\" y=\"{v}\" width=\"{u}\" height=\"{v}\" stroke=\"none\"/>"),
    ('▞', "<rect x=\"{u}\" y=\"0\" width=\"{u}\" height=\"{v}\" stroke=\"none\"/>\n               <rect x=\"0\" y=\"{v}\" width=\"{u}\" height=\"{v}\" stroke=\"none\"/>"),
    ('▟', "<rect x=\"{u}\" y=\"0\" width=\"{u}\" height=\"{v}\" stroke=\"none\"/>\n               <rect x=\"0\" y=\"{v}\" width=\"{w}\" height=\"{v}\" stroke=\"none\"/>"),
    ('░', "<rect x=\"0\" y=\"0\" width=\"{w}\" height=\"{h}\" fill-opacity=\"0.25\" stroke=\"none\"/>"),
    ('▒', "<rect x=\"0\" y=\"0\" width=\"{w}\" height=\"{h}\" fill-opacity=\"0.5\" stroke=\"none\"/>"),
    ('▓', "<rect x=\"0\" y=\"0\" width=\"{w}\" height=\"{h}\" fill-opacity=\"0.75\" stroke=\"none\"/>"),
];

/// 0.08 in single precision.
pub const LIGHT_PART: i128 = 0x147A_E140_0000_0000;

/// 0.45 in single precision.
pub const RADIUS_PART: i128 = 0x7333_3300_0000_0000;

/// 1.2 in single precision.
pub const LEAST_GAP: i128 = 0x1_3333_3400_0000_0000;

/// Bound on the sides of a cell.
pub const CELL_LIMIT: u32 = 0xff_ffff;

/// The cell that a shape fills, and the widths of its lines.
#[derive(Debug, Clone, Copy)]
pub struct Geometry {
    /// Width of the cell in pixels.
    pub width: u32,
    /// Height of the cell in pixels.
    pub height: u32,
    /// Width of a light line.
    pub light: Measure,
    /// Width of a heavy line.
    pub heavy: Measure,
    /// Half the distance between the two lines of a double line.
    pub gap: Measure,
    /// Radius of a rounded corner.
    pub radius: Measure,
}

/// A twelfth of the cell or so, but at least one pixel.
pub open spec fn light_width(cell_w: u32) -> int {
    let w = single::single(cell_w * LIGHT_PART);
    if w < ONE {
        ONE as int
    } else {
        w
    }
}

/// Two and a half light lines.
pub open spec fn heavy_width(cell_w: u32) -> int {
    single::single(light_width(cell_w) * 5 / 2)
}

/// One and a half light lines, but at least 1.2 pixels.
pub open spec fn double_gap(cell_w: u32) -> int {
    let d = single::single(light_width(cell_w) * 3 / 2);
    if d < LEAST_GAP {
        LEAST_GAP as int
    } else {
        d
    }
}

/// 0.45 of the shorter side.
pub open spec fn corner_radius(cell_w: u32, cell_h: u32) -> int {
    let a = single::single(cell_w * RADIUS_PART);
    let b = single::single(cell_h * RADIUS_PART);
    if b < a {
        b
    } else {
        a
    }
}

impl Geometry {
    /// Whether the lengths are those of a cell of its size.
    pub open spec fn is_of_cell(self) -> bool {
        &&& self.width <= CELL_LIMIT
        &&& self.height <= CELL_LIMIT
        &&& self.light == light_width(self.width)
        &&& self.heavy == heavy_width(self.width)
        &&& self.gap == double_gap(self.width)
        &&& self.radius == corner_radius(self.width, self.height)
    }

    /// The lengths of a cell.
    pub fn of_cell(cell_w: u32, cell_h: u32) -> (g: Geometry)
        requires
            cell_w <= CELL_LIMIT,
            cell_h <= CELL_LIMIT,
        ensures
            g.is_of_cell(),
            g.width == cell_w,
            g.height == cell_h,
    {
        let mut light: Measure = round_single(cell_w as i128 * LIGHT_PART);
        if light < ONE {
            light = ONE;
        }
        let heavy: Measure = round_single(light * 5 / 2);
        let mut gap: Measure = round_single(light * 3 / 2);
        if gap < LEAST_GAP {
            gap = LEAST_GAP;
        }
        let mut radius: Measure = round_single(cell_w as i128 * RADIUS_PART);
        let b: Measure = round_single(cell_h as i128 * RADIUS_PART);
        if b < radius {
            radius = b;
        }
        Geometry { width: cell_w, height: cell_h, light, heavy, gap, radius }
    }
}

/// `n` eighths of a side.
pub open spec fn eighths(side: u32, n: int) -> int {
    single::single(n * side * ONE) / 8
}

/// The length a key of [`SHAPES`] stands for.
///
/// `w` and `h` are the sides of the cell, `u` and `v` the coordinates of its
/// centre, `l` and `b` the widths of a light and a heavy line. `m` and `n` are
/// the two columns of a double line, `o` and `p` its two rows. `q`, `r`, `s` and
/// `t` lie a radius left of, right of, above and below the centre. A digit is so
/// many eighths of the width, and `z` the width without one of them. `A` to `G`
/// are one to seven eighths of the height, `H` to `N` what they leave of it.
pub open spec fn length_of(g: Geometry, key: char) -> int {
    let u = g.width * ONE / 2;
    let v = g.height * ONE / 2;
    if key == 'w' {
        g.width * ONE
    } else if key == 'h' {
        g.height * ONE
    } else if key == 'u' {
        u
    } else if key == 'v' {
        v
    } else if key == 'l' {
        g.light as int
    } else if key == 'b' {
        g.heavy as int
    } else if key == 'm' {
        single::single(u - g.gap)
    } else if key == 'n' {
        single::single(u + g.gap)
    } else if key == 'o' {
        single::single(v - g.gap)
    } else if key == 'p' {
        single::single(v + g.gap)
    } else if key == 'q' {
        single::single(u - g.radius)
    } else if key == 'r' {
        single::single(u + g.radius)
    } else if key == 's' {
        single::single(v - g.radius)
    } else if key == 't' {
        single::single(v + g.radius)
    } else if key == 'z' {
        single::single(g.width * ONE - eighths(g.width, 1))
    } else if '1' <= key && key <= '7' {
        eighths(g.width, key as int - '0' as int)
    } else if 'A' <= key && key <= 'G' {
        eighths(g.height, key as int - 'A' as int + 1)
    } else if 'H' <= key && key <= 'N' {
        single::single(g.height * ONE - eighths(g.height, key as int - 'H' as int + 1))
    } else {
        0
    }
}

fn eighths_of(side: u32, n: u8) -> (r: Measure)
    requires
        side <= CELL_LIMIT,
        1 <= n <= 8,
    ensures
        r == eighths(side, n as int),
        0 <= r <= 0x200_0000 * ONE,
{
    assert(n as int * side as int <= 8 * 0xff_ffff) by (nonlinear_arith)
        requires
            1 <= n <= 8,
            side <= 0xff_ffff,
    ;
    let x: i128 = n as i128 * side as i128 * ONE;
    round_single(x) / 8
}

fn length(g: &Geometry, key: char) -> (r: Measure)
    requires
        g.is_of_cell(),
    ensures
        r == length_of(*g, key),
        -single::MEASURE_LIMIT <= r <= single::MEASURE_LIMIT,
{
    let w: i128 = g.width as i128 * ONE;
    let h: i128 = g.height as i128 * ONE;
    let u: i128 = w / 2;
    let v: i128 = h / 2;
    proof {
        single::lemma_single_bounds(g.width * LIGHT_PART);
        single::lemma_single_bounds(light_width(g.width) * 5 / 2);
        single::lemma_single_bounds(light_width(g.width) * 3 / 2);
        single::lemma_single_bounds(g.width * RADIUS_PART);
        single::lemma_single_bounds(g.height * RADIUS_PART);
    }
    if key == 'w' {
        w
    } else if key == 'h' {
        h
    } else if key == 'u' {
        u
    } else if key == 'v' {
        v
    } else if key == 'l' {
        g.light
    } else if key == 'b' {
        g.heavy
    } else if key == 'm' {
        round_single(u - g.gap)
    } else if key == 'n' {
        round_single(u + g.gap)
    } else if key == 'o' {
        round_single(v - g.gap)
    } else if key == 'p' {
        round_single(v + g.gap)
    } else if key == 'q' {
        round_single(u - g.radius)
    } else if key == 'r' {
        round_single(u + g.radius)
    } else if key == 's' {
        round_single(v - g.radius)
    } else if key == 't' {
        round_single(v + g.radius)
    } else if key == 'z' {
        round_single(w - eighths_of(g.width, 1))
    } else if '1' <= key && key <= '7' {
        eighths_of(g.width, (key as u32 - 48) as u8)
    } else if 'A' <= key && key <= 'G' {
        eighths_of(g.height, (key as u32 - 64) as u8)
    } else if 'H' <= key && key <= 'N' {
        round_single(h - eighths_of(g.height, (key as u32 - 71) as u8))
    } else {
        0
    }
}

/// The markup of the shape of `ch` from the place `i` of the table on.
pub open spec fn shape_from(ch: char, i: int) -> Option<Seq<char>>
    decreases SHAPE_COUNT - i,
{
    if i < 0 || i >= SHAPE_COUNT {
        None
    } else if SHAPES[i].0 == ch {
        Some(SHAPES[i].1@)
    } else {
        shape_from(ch, i + 1)
    }
}

/// The markup of the shape of `ch`, if it has one.
pub open spec fn shape_of(ch: char) -> Option<Seq<char>> {
    shape_from(ch, 0)
}

fn find_shape(ch: char) -> (r: Option<&'static str>)
    ensures
        match r {
            Some(s) => shape_of(ch) == Some(s@),
            None => shape_of(ch) is None,
        },
{
    let mut i: usize = 0;
    while i < SHAPE_COUNT
        invariant
            i <= SHAPE_COUNT,
            shape_of(ch) == shape_from(ch, i as int),
        decreases SHAPE_COUNT - i,
    {
        if SHAPES[i].0 == ch {
            return Some(SHAPES[i].1);
        }
        i = i + 1;
    }
    None
}

/// `t` with every key in braces replaced by its length.
pub open spec fn filled(t: Seq<char>, g: Geometry) -> Seq<char>
    decreases t.len(),
{
    if t.len() == 0 {
        t
    } else if t[0] == '{' && t.len() >= 3 {
        single::shortest_text(length_of(g, t[1])) + filled(t.skip(3), g)
    } else {
        seq![t[0]] + filled(t.skip(1), g)
    }
}

fn fill(t: &str, g: &Geometry) -> (out: String)
    requires
        g.is_of_cell(),
    ensures
        out@ == filled(t@, *g),
{
    let chars: Vec<char> = to_chars(t);
    let mut out: String = String::new();
    let mut i: usize = 0;
    assert(t@.skip(0) =~= t@);
    assert(out@ + filled(t@, *g) =~= filled(t@, *g));
    while i < chars.len()
        invariant
            g.is_of_cell(),
            chars@ == t@,
            i <= chars@.len(),
            out@ + filled(t@.skip(i as int), *g) == filled(t@, *g),
        decreases chars@.len() - i,
    {
        let ghost rest = t@.skip(i as int);
        let ghost before = out@;
        if chars[i] == '{' && chars.len() - i >= 3 {
            let piece: String = format_shortest(length(g, chars[i + 1]));
            out.append(piece.as_str());
            assert(rest.skip(3) =~= t@.skip(i + 3));
            assert(out@ + filled(rest.skip(3), *g) =~= before + filled(rest, *g));
            i = i + 3;
        } else {
            out.push(chars[i]);
            assert(rest.skip(1) =~= t@.skip(i + 1));
            assert(out@ + filled(rest.skip(1), *g) =~= before + filled(rest, *g));
            i = i + 1;
        }
    }
    assert(t@.skip(i as int) =~= Seq::empty());
    assert(out@ + Seq::<char>::empty() =~= out@);
    out
}

/// The shape of `ch` in a cell, if it has one.
pub open spec fn box_shape(ch: char, g: Geometry) -> Option<Seq<char>> {
    match shape_of(ch) {
        Some(t) => Some(filled(t, g)),
        None => None,
    }
}

/// The shape of `ch` in a cell, if it has one.
pub fn get_box_drawing_path(ch: char, g: &Geometry) -> (r: Option<String>)
    requires
        g.is_of_cell(),
    ensures
        match r {
            Some(s) => box_shape(ch, *g) == Some(s@),
            None => box_shape(ch, *g) is None,
        },
{
    match find_shape(ch) {
        Some(t) => Some(fill(t, g)),
        None => None,
    }
}

} // verus!
