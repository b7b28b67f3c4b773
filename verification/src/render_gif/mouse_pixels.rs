//! What the mouse makes of the pixels of a picture.
use vstd::prelude::*;

use crate::pointer;
use crate::recording::{MouseState, RawFrame};
use crate::render_gif::canvas;
use crate::render_gif::pixels;
use crate::render_gif::raster;
use crate::render_gif::raster::RasterSetup;
use crate::render_gif::stamp;
use crate::single::{Measure, ONE};
use crate::style::Rgb;

verus! {

/// The arrow at a distance from its tip: how bright it is, and how many sixteenths of the
/// pixel it covers. It is smaller while a button is pressed.
pub open spec fn arrow_at(dx: int, dy: int, state: MouseState) -> (int, int) {
    if state == MouseState::Clicking {
        pointer::shaded(dx, dy, 41, 50)
    } else {
        pointer::shaded(dx, dy, 1, 1)
    }
}

/// Whether a pixel lies in the box around the arrow whose tip is at a distance.
pub open spec fn in_arrow_box(dx: int, dy: int) -> bool {
    pointer::MIN <= dx < pointer::MIN + stamp::ARROW_W && pointer::MIN <= dy < pointer::MIN
        + stamp::ARROW_H
}

proof fn lemma_arrow_pixel(
    buf: Seq<u8>,
    p: stamp::Paint,
    cx: int,
    cy: int,
    state: MouseState,
    x: int,
    y: int,
)
    requires
        0 <= x < p.w,
        0 <= y,
        canvas::at(x, y, p.w as int) < buf.len(),
    ensures
        ({
            let i = canvas::at(x, y, p.w as int);
            let idx = stamp::pointed(buf, p, cx, cy, state == MouseState::Clicking)[i];
            let (shade, part) = arrow_at(x - cx, y - cy, state);
            &&& !in_arrow_box(x - cx, y - cy) || part == 0 ==> idx == buf[i]
            &&& in_arrow_box(x - cx, y - cy) && part == 16 ==> pixels::stands_for(
                idx,
                [shade as u8, shade as u8, shade as u8],
                p.colors,
            )
        }),
{
    let i = canvas::at(x, y, p.w as int);
    canvas::lemma_at(x, y, p.w as int);
    let pressed = state == MouseState::Clicking;
    let (w, h) = (stamp::ARROW_W as int, stamp::ARROW_H as int);
    let (dx, dy) = (x - cx, y - cy);
    if in_arrow_box(dx, dy) {
        let (a, b) = (dx - pointer::MIN, dy - pointer::MIN);
        let k = b * w + a;
        assert(0 <= k < w * h) by (nonlinear_arith)
            requires
                0 <= a < w,
                0 <= b < h,
                k == b * w + a,
        ;
        vstd::arithmetic::div_mod::lemma_fundamental_div_mod_converse(k, w, b, a);
        assert(stamp::arrow_shade(k, pressed) == arrow_at(dx, dy, state));
        let (shade, part) = arrow_at(dx, dy, state);
        if part == 16 {
            let color: Rgb = [shade as u8, shade as u8, shade as u8];
            assert(part * stamp::SIXTEENTH == ONE);
            pixels::lemma_full_opacity(
                color,
                canvas::seen(
                    buf[i],
                    canvas::earlier_at(p.earlier, i),
                    p.colors,
                    p.default_bg,
                ),
            );
            pixels::lemma_stands_for(color, p.colors);
        } else if part != 0 {
            pointer::lemma_shaded_range(dx, dy, 1, 1);
            pointer::lemma_shaded_range(dx, dy, 41, 50);
        }
    }
}

/// The mouse is drawn over everything else, its tip where the mouse is: a pixel that the
/// arrow covers wholly has its shade of grey. One that the arrow does not touch stays as
/// it was while the mouse moves; while a button is pressed or something is dragged it
/// does so too, outside of a ring of twelve pixels around the tip.
pub proof fn lemma_mouse_drawn(
    setup: RasterSetup,
    f: RawFrame,
    earlier: Option<Seq<u8>>,
    buf: Seq<u8>,
    m: (Measure, Measure, MouseState),
    x: int,
    y: int,
)
    requires
        f.mouse_cursor == Some(m),
        0 <= x < setup.layout.canvas_w,
        0 <= y,
        canvas::at(x, y, setup.layout.canvas_w as int) < buf.len(),
    ensures
        ({
            let i = canvas::at(x, y, setup.layout.canvas_w as int);
            let idx = raster::with_mouse(setup, f, earlier, buf)[i];
            let (dx, dy) = (x - setup.mouse_x(m), y - setup.mouse_y(m));
            let (shade, part) = arrow_at(dx, dy, m.2);
            let touched = in_arrow_box(dx, dy) && part > 0;
            &&& in_arrow_box(dx, dy) && part == 16 ==> pixels::stands_for(
                idx,
                [shade as u8, shade as u8, shade as u8],
                setup.colors@,
            )
            &&& m.2 == MouseState::Moving && !touched ==> idx == buf[i]
            &&& !touched && pixels::square(dx) + pixels::square(dy) > 144 ==> idx == buf[i]
        }),
{
    let p = setup.paint(earlier, f.default_bg);
    let (cx, cy) = (setup.mouse_x(m), setup.mouse_y(m));
    let (dx, dy) = (x - cx, y - cy);
    pointer::lemma_shaded_range(dx, dy, 1, 1);
    pointer::lemma_shaded_range(dx, dy, 41, 50);
    canvas::lemma_at(x, y, p.w as int);
    let ground = match m.2 {
        MouseState::Clicking => stamp::rippled(buf, p, cx, cy, stamp::CLICK_OPACITY as int),
        MouseState::Dragging => stamp::rippled(buf, p, cx, cy, stamp::DRAG_OPACITY as int),
        MouseState::Moving => buf,
    };
    assert(ground.len() == buf.len());
    lemma_arrow_pixel(ground, p, cx, cy, m.2, x, y);
    if pixels::square(dx) + pixels::square(dy) > 144 {
        lemma_ring(buf, p, cx, cy, stamp::CLICK_OPACITY as int, x, y);
        lemma_ring(buf, p, cx, cy, stamp::DRAG_OPACITY as int, x, y);
    }
}

/// A ring leaves what is outside of it alone.
proof fn lemma_ring(
    buf: Seq<u8>,
    p: stamp::Paint,
    cx: int,
    cy: int,
    opacity: int,
    x: int,
    y: int,
)
    requires
        0 <= x < p.w,
        0 <= y,
        canvas::at(x, y, p.w as int) < buf.len(),
        pixels::square(x - cx) + pixels::square(y - cy) > 144,
    ensures
        stamp::rippled(buf, p, cx, cy, opacity)[canvas::at(x, y, p.w as int)] == buf[canvas::at(
            x,
            y,
            p.w as int,
        )],
{
    canvas::lemma_at(x, y, p.w as int);
    let (dx, dy) = (x - cx, y - cy);
    let side = 25int;
    if -12 <= dx <= 12 && -12 <= dy <= 12 {
        let (a, b) = (dx + 12, dy + 12);
        let k = b * side + a;
        vstd::arithmetic::div_mod::lemma_fundamental_div_mod_converse(k, side, b, a);
        assert(0 <= k < 625);
    }
}

} // verus!
