//! What holds of the files that are made: their colours and pixels, how long their
//! pictures last, and what keeps them from being made.
use vstd::prelude::*;

use crate::error::RenderError;
use crate::recording;
use crate::recording::{CellSnap, RawFrame};
use crate::render_gif::movie;
use crate::render_gif::palette;
use crate::render_gif::raster;
use crate::render_gif::raster::{GlyphSheet, RasterSetup};
use crate::render_gif::stream;
use crate::render_gif::stream::{GlyphLookup, StreamState};
use crate::style::Rgb;

verus! {

/// The palette holds the sixteen colours of the theme, then the cube, then the ramp, each
/// in order, as far as there is room before its last place.
pub proof fn lemma_palette(base16: Seq<Rgb>, cube: Seq<Rgb>, ramp: Seq<Rgb>, k: int)
    requires
        base16.len() == 16,
        cube.len() == 216,
        ramp.len() == 24,
        0 <= k < 255,
    ensures
        palette::assembled(base16, cube, ramp).len() == 256,
        palette::assembled(base16, cube, ramp)[k] == (if k < 16 {
            base16[k]
        } else if k < 232 {
            cube[k - 16]
        } else {
            ramp[k - 232]
        }),
{
}

/// The palette is written colour by colour: red, green and blue of each.
pub proof fn lemma_palette_bytes(colors: Seq<Rgb>, k: int)
    requires
        0 <= k < colors.len(),
    ensures
        palette::flattened(colors).len() == 3 * colors.len(),
        palette::flattened(colors)[3 * k] == colors[k][0],
        palette::flattened(colors)[3 * k + 1] == colors[k][1],
        palette::flattened(colors)[3 * k + 2] == colors[k][2],
{
}

/// A picture of a single frame has, for each pixel, red, green and blue of its colour in
/// the palette.
pub proof fn lemma_pixel_bytes(setup: RasterSetup, f: RawFrame, sheet: GlyphSheet, i: int, k: int)
    requires
        0 <= k < 3,
        0 <= i < raster::rasterized(setup, f, None, sheet, None, stream::blank(setup)).len(),
    ensures
        ({
            let drawn = raster::rasterized(setup, f, None, sheet, None, stream::blank(setup));
            let bytes = movie::frame_pixels(setup, f, sheet);
            &&& bytes.len() == 3 * drawn.len()
            &&& drawn[i] < 255 ==> bytes[3 * i + k] == setup.colors@[drawn[i] as int][k]
        }),
{
    assert((3 * i + k) / 3 == i && (3 * i + k) % 3 == k);
}

/// A character lacks a glyph exactly if some cell has it and the fonts were found to have
/// none for it in the style of that cell; the character that is told is such a one.
pub proof fn lemma_lacking(lookups: Seq<GlyphLookup>, cells: Seq<CellSnap>, k: int)
    requires
        0 <= k,
    ensures
        match stream::lacking(lookups, cells, k) {
            Some(c) => exists|i: int, j: int|
                k <= i < cells.len() && 0 <= j < cells[i].text@.len() && #[trigger] cells[i].text@[j]
                    == c && unfound(lookups, cells[i].flags, c),
            None => forall|i: int, j: int|
                k <= i < cells.len() && 0 <= j < cells[i].text@.len() ==> !unfound(
                    lookups,
                    cells[i].flags,
                    #[trigger] cells[i].text@[j],
                ),
        },
    decreases cells.len() - k,
{
    if k < cells.len() {
        let t = cells[k]@.text;
        let flags = cells[k]@.flags;
        lemma_lacking_char(lookups, flags, t, 0);
        match stream::lacking_char(lookups, flags, t, 0) {
            Some(c) => {
                let j = choose|j: int|
                    0 <= j < t.len() && #[trigger] t[j] == c && unfound(lookups, flags, c);
                assert(cells[k].text@[j] == c);
            },
            None => {
                lemma_lacking(lookups, cells, k + 1);
            },
        }
    }
}

/// Whether the fonts were found to have no glyph for a character in a style.
pub open spec fn unfound(lookups: Seq<GlyphLookup>, flags: u8, c: char) -> bool {
    exists|i: int|
        0 <= i < lookups.len() && !(#[trigger] lookups[i]).found && lookups[i].flags == flags
            && lookups[i].ch == c
}

proof fn lemma_lacking_char(lookups: Seq<GlyphLookup>, flags: u8, t: Seq<char>, k: int)
    requires
        0 <= k,
    ensures
        match stream::lacking_char(lookups, flags, t, k) {
            Some(c) => exists|j: int|
                k <= j < t.len() && #[trigger] t[j] == c && unfound(lookups, flags, c),
            None => forall|j: int|
                k <= j < t.len() ==> !unfound(lookups, flags, #[trigger] t[j]),
        },
    decreases t.len() - k,
{
    if k < t.len() {
        assert(stream::lacks(lookups, flags, t[k]) == unfound(lookups, flags, t[k]));
        if !stream::lacks(lookups, flags, t[k]) {
            lemma_lacking_char(lookups, flags, t, k + 1);
        }
    }
}

/// What keeps frames from being rendered is the first frame that is missing, or a
/// character without a glyph in a frame before it; where nothing does, all frames are
/// there.
pub proof fn lemma_obstacle(
    frames: Seq<Option<RawFrame>>,
    lookups: Option<Seq<GlyphLookup>>,
    setup: RasterSetup,
    sheets: Seq<GlyphSheet>,
    i: int,
)
    requires
        0 <= i <= frames.len() <= usize::MAX,
    ensures
        match movie::obstacle(frames, lookups, setup, sheets, i) {
            Some(RenderError::FrameMissing(n)) => i <= n < frames.len() && frames[n as int] is None
                && forall|k: int| i <= k < n ==> (#[trigger] frames[k]) is Some,
            Some(RenderError::GlyphMissing(c)) => lookups is Some && exists|n: int|
                i <= n < frames.len() && (#[trigger] frames[n]) is Some && stream::lacking(
                    lookups->0,
                    frames[n]->0.cells@,
                    0,
                ) == Some(c) && forall|k: int| i <= k <= n ==> (#[trigger] frames[k]) is Some,
            None => forall|k: int| i <= k < frames.len() ==> (#[trigger] frames[k]) is Some,
        },
    decreases frames.len() - i,
{
    if i < frames.len() {
        match frames[i] {
            None => {},
            Some(f) => {
                let present = Seq::new(i as nat, |k: int| frames[k]->0);
                let s = movie::played(setup, present, sheets, i).0;
                if !stream::repeats(s, f) && lookups is Some && stream::lacking(
                    lookups->0,
                    f.cells@,
                    0,
                ) is Some {
                    assert(frames[i]->0 == f);
                } else {
                    lemma_obstacle(frames, lookups, setup, sheets, i + 1);
                    match movie::obstacle(frames, lookups, setup, sheets, i + 1) {
                        Some(RenderError::GlyphMissing(c)) => {
                            let n = choose|n: int|
                                i + 1 <= n < frames.len() && (#[trigger] frames[n]) is Some
                                    && stream::lacking(
                                    lookups->0,
                                    frames[n]->0.cells@,
                                    0,
                                ) == Some(c) && forall|k: int|
                                    i + 1 <= k <= n ==> (#[trigger] frames[k]) is Some;
                            assert forall|k: int| i <= k <= n implies (
                            #[trigger] frames[k]) is Some by {}
                        },
                        _ => {},
                    }
                }
            },
        }
    }
}

/// A picture lasts as long as it should, to the nearest hundredth of a second and at least
/// one. It has the size of the canvas, and the pixels that were drawn for it.
pub proof fn lemma_picture_lasts(setup: RasterSetup, indices: Seq<u8>, ms: int)
    requires
        0 <= ms <= 655_354,
        setup.layout.canvas_w <= 0xffff,
        setup.layout.canvas_h <= 0xffff,
    ensures
        ({
            let p = stream::picture(setup, indices, ms);
            &&& p.delay >= 1
            &&& ms >= 5 ==> 10 * p.delay - 5 <= ms < 10 * p.delay + 5
            &&& p.width == setup.layout.canvas_w && p.height == setup.layout.canvas_h
            &&& p.indices == indices
            &&& p.transparent == 255
        }),
{
}

/// The last picture is the one that waits. It lasts until the last frame that was seen,
/// but no less than a thirtieth of a second.
pub proof fn lemma_last_picture(setup: RasterSetup, s: StreamState, buf: Seq<u8>, t: u32)
    requires
        s.pending == Some((buf, t)),
        t <= s.last_seen_t_ms,
        s.last_seen_t_ms - t <= 655_354,
    ensures
        stream::last_picture(setup, s) matches Some(p) && {
            let ms = s.last_seen_t_ms - t;
            &&& p.indices == buf
            &&& ms >= 33 ==> 10 * p.delay - 5 <= ms < 10 * p.delay + 5
            &&& ms < 33 ==> p.delay == 3
        },
{
}

/// A frame that looks like the one drawn last makes no picture, and is seen to last; any
/// other ends the picture that waits, which lasted from its own time until then, and
/// waits in its place.
pub proof fn lemma_frame_streamed(
    setup: RasterSetup,
    s: StreamState,
    f: RawFrame,
    sheet: GlyphSheet,
    p: RawFrame,
    buf: Seq<u8>,
    t: u32,
)
    requires
        s.prev == Some(p),
        s.pending == Some((buf, t)),
        t <= f.t_ms,
        f.t_ms - t <= 655_354,
    ensures
        ({
            let after = stream::stream_after(setup, s, f, sheet);
            let out = stream::picture_before(setup, s, f);
            &&& after.last_seen_t_ms == f.t_ms
            &&& recording::alike(f, p) ==> out is None && after.prev == s.prev && after.pending
                == s.pending
            &&& !recording::alike(f, p) ==> {
                &&& out matches Some(g) && g.indices == buf && (f.t_ms - t >= 5 ==> 10 * g.delay - 5
                    <= f.t_ms - t < 10 * g.delay + 5)
                &&& after.prev == Some(f)
                &&& after.pending matches Some(w) && w.1 == f.t_ms
                &&& after.written == s.written + 1
            }
        }),
{
}

} // verus!
