//! A whole recording as pictures, a single frame as a picture, and the comment at
//! the end of a GIF file.
use vstd::prelude::*;
use vstd::string::*;

use crate::error::RenderError;
use crate::recording::{CellSnap, RawFrame, Recording};
use crate::render_gif::palette::{COLORS, TRANSPARENT_COLOR_INDEX};
use crate::render_gif::raster;
use crate::render_gif::raster::{rasterize_raw_frame_idx, GlyphSheet, RasterSetup};
use crate::render_gif::stream;
use crate::render_gif::stream::{
    blank_canvas, find_lacking, GifFrame, GifFrameView, GifStream, GlyphLookup,
    StreamState,
};
use crate::style::Rgb;
use crate::text;
use crate::text::{push_decimal, to_chars};

verus! {

/// The stream and its pictures after the first `n` frames.
pub open spec fn played(
    setup: RasterSetup,
    frames: Seq<RawFrame>,
    sheets: Seq<GlyphSheet>,
    n: int,
) -> (StreamState, Seq<GifFrameView>)
    decreases n,
{
    if n <= 0 {
        (
            StreamState {
                earlier: None,
                prev: None,
                pending: None,
                last_seen_t_ms: 0,
                written: 0,
            },
            Seq::empty(),
        )
    } else {
        let (s, out) = played(setup, frames, sheets, n - 1);
        (
            stream::stream_after(setup, s, frames[n - 1], sheets[n - 1]),
            match stream::picture_before(setup, s, frames[n - 1]) {
                Some(g) => out.push(g),
                None => out,
            },
        )
    }
}

/// All pictures of a recording.
pub open spec fn movie(
    setup: RasterSetup,
    frames: Seq<RawFrame>,
    sheets: Seq<GlyphSheet>,
) -> Seq<GifFrameView> {
    let (s, out) = played(setup, frames, sheets, frames.len() as int);
    match stream::last_picture(setup, s) {
        Some(g) => out.push(g),
        None => out,
    }
}

/// Views of pictures.
pub open spec fn pictures(v: Seq<GifFrame>) -> Seq<GifFrameView> {
    Seq::new(v.len(), |i: int| v[i]@)
}

/// Times of those of the first `n` frames that are drawn: the ones that do not
/// look like the one drawn before them.
pub open spec fn drawn_times(frames: Seq<RawFrame>, n: int) -> (Option<RawFrame>, Seq<u32>)
    decreases n,
{
    if n <= 0 {
        (None, Seq::empty())
    } else {
        let (prev, times) = drawn_times(frames, n - 1);
        let f = frames[n - 1];
        if prev matches Some(p) && crate::recording::alike(f, p) {
            (prev, times)
        } else {
            (Some(f), times.push(f.t_ms))
        }
    }
}

/// Each picture but the last lasts until the next frame that is drawn.
pub proof fn lemma_pictures_last(
    setup: RasterSetup,
    frames: Seq<RawFrame>,
    sheets: Seq<GlyphSheet>,
    n: int,
)
    requires
        0 <= n <= frames.len(),
    ensures
        ({
            let (s, out) = played(setup, frames, sheets, n);
            let (prev, times) = drawn_times(frames, n);
            &&& s.prev == prev
            &&& s.written == out.len()
            &&& (prev is None <==> times.len() == 0)
            &&& (s.pending is None <==> times.len() == 0)
            &&& times.len() > 0 ==> out.len() == times.len() - 1 && (s.pending->0).1
                == times[times.len() - 1]
            &&& times.len() == 0 ==> out.len() == 0
            &&& forall|k: int|
                0 <= k < out.len() ==> (#[trigger] out[k]).delay == stream::gif_delay(
                    stream::since(times[k + 1], times[k]),
                )
        }),
    decreases n,
{
    if n > 0 {
        lemma_pictures_last(setup, frames, sheets, n - 1);
    }
}

/// The movie has one picture for each frame that is drawn.
pub proof fn lemma_movie_length(
    setup: RasterSetup,
    frames: Seq<RawFrame>,
    sheets: Seq<GlyphSheet>,
)
    ensures
        movie(setup, frames, sheets).len() == drawn_times(frames, frames.len() as int).1.len(),
{
    lemma_pictures_last(setup, frames, sheets, frames.len() as int);
}

/// What keeps frames from being rendered.
pub open spec fn obstacle(
    frames: Seq<Option<RawFrame>>,
    lookups: Option<Seq<GlyphLookup>>,
    setup: RasterSetup,
    sheets: Seq<GlyphSheet>,
    i: int,
) -> Option<RenderError>
    decreases frames.len() - i,
{
    if i < 0 || i >= frames.len() {
        None
    } else {
        match frames[i] {
            None => Some(RenderError::FrameMissing(i as usize)),
            Some(f) => {
                let present = Seq::new(i as nat, |k: int| frames[k]->0);
                let s = played(setup, present, sheets, i).0;
                if !stream::repeats(s, f) && lookups is Some && stream::lacking(
                    lookups->0,
                    f.cells@,
                    0,
                ) is Some {
                    Some(RenderError::GlyphMissing(stream::lacking(lookups->0, f.cells@, 0)->0))
                } else {
                    obstacle(frames, lookups, setup, sheets, i + 1)
                }
            },
        }
    }
}

/// Views of optional lookups.
pub open spec fn lookups_view(v: Option<&Vec<GlyphLookup>>) -> Option<Seq<GlyphLookup>> {
    match v {
        Some(x) => Some(x@),
        None => None,
    }
}

/// Whether the lookups, if there are any, hold every character of the cells.
pub open spec fn lookups_cover(v: Option<&Vec<GlyphLookup>>, cells: Seq<CellSnap>) -> bool {
    lookups_view(v) matches Some(l) ==> stream::looked_up(l, cells)
}

/// The frames that are there.
pub open spec fn kept(frames: Seq<Option<RawFrame>>, n: int) -> Seq<RawFrame> {
    Seq::new(n as nat, |k: int| frames[k]->0)
}

proof fn lemma_played_prefix(
    setup: RasterSetup,
    a: Seq<RawFrame>,
    b: Seq<RawFrame>,
    sheets: Seq<GlyphSheet>,
    n: int,
)
    requires
        forall|k: int| 0 <= k < n ==> a[k] == b[k],
    ensures
        played(setup, a, sheets, n) == played(setup, b, sheets, n),
    decreases n,
{
    if n > 0 {
        lemma_played_prefix(setup, a, b, sheets, n - 1);
    }
}

/// The pictures of a recording. With `lookups`, every character that is drawn
/// needs a glyph.
pub fn render_gif(
    rec: Recording,
    setup: RasterSetup,
    sheets: &Vec<GlyphSheet>,
    lookups: Option<&Vec<GlyphLookup>>,
) -> (r: Result<Vec<GifFrame>, RenderError>)
    requires
        setup.fits(),
        sheets@.len() == rec.frames@.len(),
        forall|i: int|
            0 <= i < rec.frames@.len() ==> (#[trigger] rec.frames@[i] matches Some(f)
                ==> stream::frame_fits(setup, f, sheets@[i]) && lookups_cover(lookups, f.cells@)),
    ensures
        match r {
            Ok(v) => obstacle(rec.frames@, lookups_view(lookups), setup, sheets@, 0) is None
                && pictures(v@) == movie(
                setup,
                kept(rec.frames@, rec.frames@.len() as int),
                sheets@,
            ),
            Err(e) => obstacle(rec.frames@, lookups_view(lookups), setup, sheets@, 0) == Some(e),
        },
{
    let ghost all = rec.frames@;
    let ghost looked = lookups_view(lookups);
    let mut rest: Vec<Option<RawFrame>> = rec.frames;
    let total: usize = rest.len();
    let ghost set = setup;
    let mut gif: GifStream = GifStream::new(setup);
    let mut out: Vec<GifFrame> = Vec::new();
    let mut i: usize = 0;
    assert(all.skip(0) =~= all);
    assert(pictures(out@) =~= Seq::<GifFrameView>::empty());
    while rest.len() > 0
        invariant
            set == setup,
            all == rec.frames@,
            all.len() == total,
            i + rest@.len() == total,
            rest@ == all.skip(i as int),
            sheets@.len() == total,
            set.fits(),
            looked == lookups_view(lookups),
            forall|k: int|
                0 <= k < all.len() ==> (#[trigger] all[k] matches Some(f) ==> stream::frame_fits(
                    set,
                    f,
                    sheets@[k],
                ) && lookups_cover(lookups, f.cells@)),
            gif.wf(),
            gif.spec_setup() == set,
            gif@ == played(set, kept(all, i as int), sheets@, i as int).0,
            pictures(out@) == played(set, kept(all, i as int), sheets@, i as int).1,
            gif@.written <= i,
            obstacle(all, looked, set, sheets@, 0) == obstacle(all, looked, set, sheets@, i as int),
        decreases rest@.len(),
    {
        assert(rest@[0] == all[i as int]);
        let next: Option<RawFrame> = rest.remove(0);
        assert(rest@ =~= all.skip(i + 1));
        match next {
            None => {
                return Err(RenderError::FrameMissing(i));
            },
            Some(frame) => {
                assert(stream::frame_fits(set, frame, sheets@[i as int]));
                assert(kept(all, i as int) =~= Seq::new(i as nat, |k: int| all[k]->0));
                if gif.needs(&frame) {
                    match lookups {
                        Some(l) => {
                            match find_lacking(l, &frame.cells) {
                                Some(c) => {
                                    return Err(RenderError::GlyphMissing(c));
                                },
                                None => {},
                            }
                        },
                        None => {},
                    }
                }
                let ghost before = out@;
                let ghost state = gif@;
                proof {
                    lemma_played_prefix(
                        set,
                        kept(all, i + 1),
                        kept(all, i as int),
                        sheets@,
                        i as int,
                    );
                    assert(kept(all, i + 1)[i as int] == frame);
                }
                match gif.push(frame, &sheets[i]) {
                    Some(g) => {
                        out.push(g);
                        assert(pictures(out@) =~= pictures(before).push(g@));
                    },
                    None => {},
                }
                proof {
                    assert(gif@ == played(set, kept(all, i + 1), sheets@, i + 1).0);
                    assert(pictures(out@) == played(set, kept(all, i + 1), sheets@, i + 1).1);
                }
            },
        }
        i = i + 1;
    }
    let ghost before = out@;
    match gif.finish().0 {
        Some(g) => {
            out.push(g);
            assert(pictures(out@) =~= pictures(before).push(g@));
        },
        None => {},
    }
    Ok(out)
}

/// The colours of a picture as bytes, `default_bg` where it has none.
pub open spec fn rgb_of(indices: Seq<u8>, colors: Seq<Rgb>, default_bg: Rgb) -> Seq<u8> {
    Seq::new(
        3 * indices.len(),
        |k: int|
            if indices[k / 3] == TRANSPARENT_COLOR_INDEX {
                default_bg[k % 3]
            } else {
                colors[indices[k / 3] as int][k % 3]
            },
    )
}

fn rgb_bytes(indices: &Vec<u8>, colors: &Vec<Rgb>, default_bg: Rgb) -> (out: Vec<u8>)
    requires
        colors@.len() == COLORS,
    ensures
        out@ == rgb_of(indices@, colors@, default_bg),
{
    let ghost all = rgb_of(indices@, colors@, default_bg);
    let mut out: Vec<u8> = Vec::new();
    let mut i: usize = 0;
    while i < indices.len()
        invariant
            colors@.len() == COLORS,
            all == rgb_of(indices@, colors@, default_bg),
            i <= indices@.len(),
            out@.len() == 3 * i,
            forall|k: int| 0 <= k < 3 * i ==> out@[k] == all[k],
        decreases indices@.len() - i,
    {
        let c: Rgb = if indices[i] == TRANSPARENT_COLOR_INDEX {
            default_bg
        } else {
            colors[indices[i] as usize]
        };
        out.push(c[0]);
        out.push(c[1]);
        out.push(c[2]);
        proof {
            assert((3 * i) / 3 == i && (3 * i) % 3 == 0);
            assert((3 * i + 1) / 3 == i && (3 * i + 1) % 3 == 1);
            assert((3 * i + 2) / 3 == i && (3 * i + 2) % 3 == 2);
        }
        i = i + 1;
    }
    assert(out@ =~= all);
    out
}

/// A single frame as rows of red, green and blue. With `lookups`, every character
/// needs a glyph.
pub fn render_png_frame(
    frame: &RawFrame,
    setup: &RasterSetup,
    sheet: &GlyphSheet,
    lookups: Option<&Vec<GlyphLookup>>,
) -> (r: Result<Vec<u8>, RenderError>)
    requires
        setup.fits(),
        setup.grid_fits(frame),
        setup.mouse_fits(frame.mouse_cursor),
        raster::sheet_fits(*sheet, *frame),
        lookups_cover(lookups, frame.cells@),
    ensures
        match r {
            Ok(v) => (lookups_view(lookups) matches Some(l) ==> stream::lacking(
                l,
                frame.cells@,
                0,
            ) is None) && v@ == rgb_of(
                raster::rasterized(*setup, *frame, None, *sheet, None, stream::blank(*setup)),
                setup.colors@,
                frame.default_bg,
            ) && v@.len() == 3 * (setup.layout.canvas_w * setup.layout.canvas_h),
            Err(e) => lookups_view(lookups) matches Some(l) && stream::lacking(l, frame.cells@, 0)
                is Some && e == RenderError::GlyphMissing(stream::lacking(l, frame.cells@, 0)->0),
        },
{
    match lookups {
        Some(l) => {
            match find_lacking(l, &frame.cells) {
                Some(c) => {
                    return Err(RenderError::GlyphMissing(c));
                },
                None => {},
            }
        },
        None => {},
    }
    let mut buf: Vec<u8> = blank_canvas(setup);
    rasterize_raw_frame_idx(setup, frame, None, sheet, None, &mut buf);
    Ok(rgb_bytes(&buf, &setup.colors, frame.default_bg))
}

/// The number under which `lodepng` reports that there is not enough memory.
pub const OUT_OF_MEMORY: u32 = 83;

/// What `lodepng::encode24` makes of rows of red, green and blue where memory suffices:
/// a file, or an error by its number.
pub uninterp spec fn png_of(pixels: Seq<u8>, w: u32, h: u32) -> Result<Seq<u8>, u32>;

/// A PNG file made by `lodepng::encode24`, or the number of its error. Both are functions
/// of the pixels and the size, unless memory runs out, which has a number of its own. A
/// file begins with the eight bytes that mark a PNG file. There is none of a picture
/// without pixels. That decoding the file gives the pixels back is not stated.
#[verifier::external_body]
fn encode_png(pixels: &Vec<u8>, w: u32, h: u32) -> (r: Result<Vec<u8>, u32>)
    requires
        pixels@.len() == 3 * (w * h),
    ensures
        w == 0 || h == 0 ==> r is Err,
        match r {
            Ok(b) => {
                &&& png_of(pixels@, w, h) == Ok::<Seq<u8>, u32>(b@)
                &&& b@.len() >= 8
                &&& b@.take(8) == seq![137u8, 80, 78, 71, 13, 10, 26, 10]
            },
            Err(code) => code != OUT_OF_MEMORY ==> png_of(pixels@, w, h) == Err::<Seq<u8>, u32>(
                code,
            ),
        },
{
    match lodepng::encode24(pixels, w as usize, h as usize) {
        Ok(b) => Ok(b),
        Err(e) => Err(lodepng::ErrorCode::from(e).0),
    }
}

/// Why a frame is not made into a PNG file.
#[derive(Debug, Clone, Copy, PartialEq, Eq)]
pub enum PngError {
    /// No embedded font has a glyph for the character.
    GlyphMissing(char),
    /// There is not enough memory to encode the picture.
    OutOfMemory,
    /// The picture cannot be encoded; the number says why.
    Encoding(u32),
}

/// What becomes of a picture that was encoded.
pub fn png_outcome(encoded: Result<Vec<u8>, u32>) -> (r: Result<Vec<u8>, PngError>)
    ensures
        match encoded {
            Ok(b) => r == Ok::<Vec<u8>, PngError>(b),
            Err(code) => if code == OUT_OF_MEMORY {
                r == Err::<Vec<u8>, PngError>(PngError::OutOfMemory)
            } else {
                r == Err::<Vec<u8>, PngError>(PngError::Encoding(code))
            },
        },
{
    match encoded {
        Ok(b) => Ok(b),
        Err(code) => if code == OUT_OF_MEMORY {
            Err(PngError::OutOfMemory)
        } else {
            Err(PngError::Encoding(code))
        },
    }
}

/// The pixels of a single frame.
pub open spec fn frame_pixels(setup: RasterSetup, frame: RawFrame, sheet: GlyphSheet) -> Seq<u8> {
    rgb_of(
        raster::rasterized(setup, frame, None, sheet, None, stream::blank(setup)),
        setup.colors@,
        frame.default_bg,
    )
}

/// A single frame as a PNG file. With `lookups`, every character needs a glyph.
pub fn png_file(
    frame: &RawFrame,
    setup: &RasterSetup,
    sheet: &GlyphSheet,
    lookups: Option<&Vec<GlyphLookup>>,
) -> (r: Result<Vec<u8>, PngError>)
    requires
        setup.fits(),
        setup.grid_fits(frame),
        setup.mouse_fits(frame.mouse_cursor),
        raster::sheet_fits(*sheet, *frame),
        lookups_cover(lookups, frame.cells@),
    ensures
        (lookups_view(lookups) matches Some(l) && stream::lacking(l, frame.cells@, 0) is Some)
            == (r matches Err(PngError::GlyphMissing(_))),
        match r {
            Err(PngError::GlyphMissing(c)) => lookups_view(lookups) matches Some(l)
                && stream::lacking(l, frame.cells@, 0) == Some(c),
            Err(PngError::OutOfMemory) => true,
            Err(PngError::Encoding(code)) => code != OUT_OF_MEMORY && png_of(
                frame_pixels(*setup, *frame, *sheet),
                setup.layout.canvas_w,
                setup.layout.canvas_h,
            ) == Err::<Seq<u8>, u32>(code),
            Ok(b) => png_of(
                frame_pixels(*setup, *frame, *sheet),
                setup.layout.canvas_w,
                setup.layout.canvas_h,
            ) == Ok::<Seq<u8>, u32>(b@),
        },
{
    match render_png_frame(frame, setup, sheet, lookups) {
        Err(RenderError::GlyphMissing(c)) => Err(PngError::GlyphMissing(c)),
        Err(RenderError::FrameMissing(_)) => {
            assert(false);
            Err(PngError::OutOfMemory)
        },
        Ok(rgb) => png_outcome(encode_png(&rgb, setup.layout.canvas_w, setup.layout.canvas_h)),
    }
}

/// The comment of a file.
pub open spec fn comment_text(elapsed_ms: u128, frames: u128) -> Seq<char> {
    "Created by evp | elapsed_ms="@ + text::decimal(elapsed_ms as nat) + " frames="@
        + text::decimal(frames as nat)
}

/// At most 255 characters as bytes.
pub open spec fn comment_bytes(t: Seq<char>) -> Seq<u8> {
    Seq::new(
        if t.len() <= 255 {
            t.len()
        } else {
            255
        },
        |i: int| t[i] as u8,
    )
}

/// A comment block: introducer, label, length, text and terminator.
pub open spec fn comment_block(t: Seq<char>) -> Seq<u8> {
    let b = comment_bytes(t);
    seq![0x21u8, 0xFEu8, b.len() as u8] + b + seq![0x00u8]
}

/// Put a comment before the trailer of a GIF file; what does not end in a trailer
/// is left alone.
pub fn append_comment(data: &mut Vec<u8>, elapsed_ms: u128, frames: u128)
    ensures
        final(data)@ == (if old(data)@.len() > 0 && old(data)@[old(data)@.len() - 1] == 0x3B {
            old(data)@.drop_last() + comment_block(comment_text(elapsed_ms, frames)) + seq![0x3Bu8]
        } else {
            old(data)@
        }),
{
    let n: usize = data.len();
    if n == 0 || data[n - 1] != 0x3B {
        return ;
    }
    let ghost before = data@;
    let mut t: String = "Created by evp | elapsed_ms=".to_string();
    push_decimal(&mut t, elapsed_ms);
    t.append(" frames=");
    push_decimal(&mut t, frames);
    let chars: Vec<char> = to_chars(t.as_str());
    let ghost b = comment_bytes(chars@);
    let len: usize = if chars.len() <= 255 {
        chars.len()
    } else {
        255
    };
    let _ = data.pop();
    data.push(0x21);
    data.push(0xFE);
    data.push(len as u8);
    let ghost head = data@;
    let mut i: usize = 0;
    while i < len
        invariant
            i <= len,
            len <= chars@.len(),
            b == comment_bytes(chars@),
            b.len() == len,
            data@ == head + b.take(i as int),
        decreases len - i,
    {
        let c: u8 = chars[i] as u8;
        data.push(c);
        assert(data@ =~= head + b.take(i + 1));
        i = i + 1;
    }
    assert(b.take(len as int) =~= b);
    data.push(0x00);
    data.push(0x3B);
    assert(data@ =~= before.drop_last() + comment_block(chars@) + seq![0x3Bu8]);
}

} // verus!
