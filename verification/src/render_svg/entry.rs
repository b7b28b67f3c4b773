//! Rendering a recording or a single frame.
use vstd::prelude::*;
use vstd::string::*;
use vstd::utf8;

use std::io::Write;

use flate2::write::GzEncoder;
use flate2::Compression;

use crate::error::RenderError;
use crate::recording;
use crate::recording::{RawFrame, Recording};
use crate::render_svg::document::SvgDoc;
use crate::render_svg::fonts;
use crate::render_svg::fonts::StyleError;
use crate::render_svg::render;
use crate::render_svg::render::{render_from_frames, RenderInput};
use crate::text;
use crate::text::{is_same_but_case, to_chars};
use crate::viewport;

verus! {

/// Whether `out` is the document of the frames.
pub open spec fn is_svg_of(out: Seq<char>, frames: Seq<RawFrame>, input: RenderInput) -> bool {
    if frames.len() == 0 {
        out == render::empty_document(input.build, input.layout)
    } else {
        let shown = render::shown_scenes(frames, input.opts.is_screenshot);
        exists|doc: SvgDoc|
            #[trigger] render::is_document_of(
                doc,
                shown,
                input,
                render::total_millis(shown[shown.len() - 1].t_ms, input.cfg) as u32,
            ) && out == doc.svg()
    }
}

/// The glyph for want of which the frames cannot be rendered.
pub open spec fn missing_glyph(frames: Seq<RawFrame>, input: RenderInput) -> Option<char> {
    if frames.len() > 0 && input.opts.no_system_fonts {
        fonts::missing_from(input.book.uses@, 0)
    } else {
        None
    }
}

/// Whether frames can be rendered on the canvas around their grid.
pub open spec fn renderable(frames: Seq<RawFrame>, input: RenderInput) -> bool {
    &&& viewport::canvas_exists(input.cfg, input.cfg.cols, input.cfg.rows)
    &&& input.layout == viewport::canvas_of(input.cfg, input.cfg.cols, input.cfg.rows)
    &&& frames.len() > 0 ==> input.fits(
        render::shown_scenes(frames, input.opts.is_screenshot),
    )
}

/// The recording as an animated SVG document. `input` describes the grid of the
/// recording and the canvas around it.
pub fn render_svg_to_string(rec: Recording, input: &RenderInput) -> (r: Result<
    String,
    RenderError,
>)
    requires
        input.cfg == rec.spec_viewport(),
        recording::missing_frame(rec.frames@, 0) is None ==> renderable(
            recording::present_frames(rec.frames@),
            *input,
        ),
    ensures
        match r {
            Ok(out) => recording::missing_frame(rec.frames@, 0) is None && missing_glyph(
                recording::present_frames(rec.frames@),
                *input,
            ) is None && is_svg_of(out@, recording::present_frames(rec.frames@), *input),
            Err(RenderError::FrameMissing(i)) => recording::missing_frame(rec.frames@, 0) == Some(
                i as int,
            ),
            Err(RenderError::GlyphMissing(c)) => recording::missing_frame(rec.frames@, 0) is None
                && missing_glyph(recording::present_frames(rec.frames@), *input) == Some(c),
        },
{
    match rec.take_frames() {
        Err(i) => Err(RenderError::FrameMissing(i)),
        Ok(frames) => match render_from_frames(frames, input) {
            Ok(out) => Ok(out),
            Err(StyleError::GlyphMissing(c)) => Err(RenderError::GlyphMissing(c)),
        },
    }
}

/// A single frame as an SVG document.
pub fn render_svg_frame_to_string(frame: RawFrame, input: &RenderInput) -> (r: Result<
    String,
    StyleError,
>)
    requires
        renderable(seq![frame], *input),
    ensures
        match r {
            Ok(out) => missing_glyph(seq![frame], *input) is None && is_svg_of(
                out@,
                seq![frame],
                *input,
            ),
            Err(StyleError::GlyphMissing(c)) => missing_glyph(seq![frame], *input) == Some(c),
        },
{
    let mut frames: Vec<RawFrame> = Vec::new();
    frames.push(frame);
    assert(frames@ =~= seq![frame]);
    render_from_frames(frames, input)
}

/// Whether a file with this extension holds a compressed document.
pub fn is_svgz(extension: &str) -> (r: bool)
    ensures
        r == text::same_but_case(extension@, "svgz"@),
{
    let chars: Vec<char> = to_chars(extension);
    is_same_but_case(&chars, "svgz")
}

/// What `flate2::write::GzEncoder` makes of `data` at its best level, or nothing if
/// it fails.
pub uninterp spec fn gzipped(data: Seq<u8>) -> Option<Seq<u8>>;

/// `data` compressed by `flate2::write::GzEncoder` at the level `Compression::best`.
/// The header it writes has neither a name nor a time, so the result is a function of
/// the data. It begins with the two bytes that mark a gzip file and has a header of
/// ten bytes and a trailer of eight. That decompressing gives the data back is not
/// stated.
#[verifier::external_body]
fn gzip(data: &[u8]) -> (r: Option<Vec<u8>>)
    ensures
        r is Some == gzipped(data@) is Some,
        r matches Some(b) ==> {
            &&& gzipped(data@) == Some(b@)
            &&& b@.len() >= 18
            &&& b@[0] == 0x1f
            &&& b@[1] == 0x8b
        },
{
    let mut encoder = GzEncoder::new(Vec::new(), Compression::best());
    encoder.write_all(data).ok()?;
    encoder.finish().ok()
}

/// What a file with this extension holds: the document, compressed if the extension
/// asks for it. Nothing if it cannot be compressed.
pub fn file_bytes(document: &str, extension: &str) -> (r: Option<Vec<u8>>)
    ensures
        !text::same_but_case(extension@, "svgz"@) ==> {
            &&& r is Some
            &&& (r->0)@ == utf8::encode_utf8(document@)
        },
        text::same_but_case(extension@, "svgz"@) ==> {
            &&& r is Some == gzipped(utf8::encode_utf8(document@)) is Some
            &&& r matches Some(b) ==> {
                &&& gzipped(utf8::encode_utf8(document@)) == Some(b@)
                &&& b@[0] == 0x1f
                &&& b@[1] == 0x8b
            }
        },
{
    if is_svgz(extension) {
        gzip(document.as_bytes())
    } else {
        Some(document.as_bytes_vec())
    }
}

} // verus!
