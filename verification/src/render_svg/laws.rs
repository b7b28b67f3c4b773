//! What a document shows, said of the cells of the frames it was made from.
use vstd::prelude::*;
use vstd::string::*;

use crate::recording::{CellSnap, RawFrame};
use crate::render_svg::cells;
use crate::render_svg::document::SvgDoc;
use crate::render_svg::elements;
use crate::render_svg::elements::Glyph;
use crate::render_svg::layout;
use crate::render_svg::render;
use crate::render_svg::render::RenderInput;
use crate::style::Rgb;
use crate::style_flags;

verus! {

/// Whether a cell has one of the attributes of text.
pub open spec fn has(cell: CellSnap, flag: u8) -> bool {
    cell.flags & flag != 0
}

/// Whether text is in the colour that a cell gives it: the foreground, or, where the
/// colours are inverted, the background; half way between the two, where it is dim.
pub open spec fn in_text_color(c: Rgb, cell: CellSnap) -> bool {
    if has(cell, style_flags::DIM) {
        forall|k: int| 0 <= k < 3 ==> (#[trigger] c[k]) == (cell.fg[k] + cell.bg[k]) / 2
    } else if has(cell, style_flags::INVERSE) {
        c == cell.bg
    } else {
        c == cell.fg
    }
}

/// Whether a character looks as its cell says: its colour, and each attribute.
pub open spec fn looks_like(g: Glyph, cell: CellSnap) -> bool {
    &&& in_text_color(g.look.fg, cell)
    &&& g.look.bold == has(cell, style_flags::BOLD)
    &&& g.look.italic == has(cell, style_flags::ITALIC)
    &&& g.look.underline == has(cell, style_flags::UNDERLINE)
    &&& g.look.strikethrough == has(cell, style_flags::STRIKETHROUGH)
}

/// Whether a character is in a document, on the line `y` at the moment `t`, looking as a
/// cell says.
pub open spec fn shown(doc: SvgDoc, t: u32, y: u32, c: char, cell: CellSnap) -> bool {
    exists|g: Glyph|
        #[trigger] elements::text_shows(doc.lines(), t, y, g) && g.c == c && looks_like(g, cell)
}

/// Whether frame `n` is the one on screen at the moment `t`, in a document of frames that
/// ends at `total_ms`.
pub open spec fn on_screen(frames: Seq<RawFrame>, n: int, t: u32, total_ms: u32) -> bool {
    &&& 0 <= n < frames.len()
    &&& frames[n].t_ms <= t < total_ms
    &&& n + 1 < frames.len() ==> t < frames[n + 1].t_ms
}

/// Whether a document is one of these frames, in full.
pub open spec fn documents(
    doc: SvgDoc,
    frames: Seq<RawFrame>,
    input: RenderInput,
    total_ms: u32,
) -> bool {
    &&& input.fits(frames)
    &&& total_ms == render::total_millis(frames[frames.len() - 1].t_ms, input.cfg)
    &&& render::is_document_of(doc, frames, input, total_ms)
    &&& frames[0].cols > 0
}

proof fn lemma_looks_like(g: Glyph, f: RawFrame, i: int)
    requires
        0 <= i < f.cells@.len(),
        g.look == layout::cell_look(cells::frame_visuals(f)[i]),
    ensures
        looks_like(g, f.cells@[i]),
{
    cells::lemma_painted_colors(f.cells@[i]@);
}

proof fn lemma_shown(doc: SvgDoc, t: u32, y: u32, g: Glyph, cell: CellSnap)
    requires
        elements::text_shows(doc.lines(), t, y, g),
        looks_like(g, cell),
    ensures
        shown(doc, t, y, g.c, cell),
{
}

/// Every character of every cell is in the document while its frame is on screen: on the
/// line of its row, in the colour of its cell, which is the background of the cell where
/// its colours are inverted and the foreground where they are not, and bold, italic,
/// underlined and struck out exactly as the cell is.
pub proof fn lemma_document_shows_cell(
    doc: SvgDoc,
    frames: Seq<RawFrame>,
    input: RenderInput,
    total_ms: u32,
    n: int,
    t: u32,
    i: int,
    k: int,
)
    requires
        documents(doc, frames, input, total_ms),
        on_screen(frames, n, t, total_ms),
        0 <= i < frames[0].cells@.len(),
        0 <= k < frames[n].cells@[i].text@.len(),
    ensures
        ({
            let cell = frames[n].cells@[i];
            let row = (i / frames[0].cols as int) as u16;
            shown(doc, t, input.placement().line(row), cell.text@[k], cell)
        }),
{
    let p = input.placement();
    let cols = frames[0].cols as int;
    let row = (i / cols) as u16;
    let col = (i % cols) as u16;
    let seen = cells::frame_visuals(frames[n])[i];
    assert(frames[n].cells@.len() >= frames[0].cells@.len());
    let places = p.char_places(col, seen.text);
    assert(seen.text == frames[n].cells@[i].text@);
    let g = Glyph { x: places[k], c: seen.text[k], look: layout::cell_look(seen) };
    lemma_looks_like(g, frames[n], i);
    render::lemma_document_shows_frames(doc, frames, input, total_ms, n, t, p.line(row), g);
    assert(layout::cell_shows(p, col, cells::frame_visuals(frames[n])[i], g));
    lemma_shown(doc, t, p.line(row), g, frames[n].cells@[i]);
}

/// A document shows no character, but for spaces, that is not in a cell of the frame on
/// screen, on the line of its row and looking as the cell says.
pub proof fn lemma_document_shows_only_cells(
    doc: SvgDoc,
    frames: Seq<RawFrame>,
    input: RenderInput,
    total_ms: u32,
    n: int,
    t: u32,
    y: u32,
    g: Glyph,
)
    requires
        documents(doc, frames, input, total_ms),
        on_screen(frames, n, t, total_ms),
        elements::text_shows(doc.lines(), t, y, g),
    ensures
        exists|i: int|
            {
                &&& 0 <= i < frames[0].cells@.len()
                &&& input.placement().line((i / frames[0].cols as int) as u16) == y
                &&& looks_like(g, #[trigger] frames[n].cells@[i])
                &&& g.c == ' ' || frames[n].cells@[i].text@.contains(g.c)
            },
{
    let p = input.placement();
    let cols = frames[0].cols as int;
    render::lemma_document_shows_frames(doc, frames, input, total_ms, n, t, y, g);
    let i = choose|i: int|
        0 <= i < cells::cell_count(frames) && p.line((i / cols) as u16) == y && layout::cell_shows(
            p,
            (i % cols) as u16,
            #[trigger] cells::frame_visuals(frames[n])[i],
            g,
        );
    let seen = cells::frame_visuals(frames[n])[i];
    assert(frames[n].cells@.len() >= frames[0].cells@.len());
    let k = choose|k: int|
        0 <= k < seen.text.len() && #[trigger] p.char_places((i % cols) as u16, seen.text)[k]
            == g.x && seen.text[k] == g.c;
    lemma_looks_like(g, frames[n], i);
    reveal_strlit(" ");
    if g.c != ' ' {
        assert(seen.text == frames[n].cells@[i].text@);
        assert(frames[n].cells@[i].text@[k] == g.c);
    }
}

/// A pixel of a cell is covered with the background of the cell, or, where its colours
/// are inverted, with its foreground, while its frame is on screen: with that and nothing
/// else, and where that is the default background, with nothing.
pub proof fn lemma_document_covers_cell(
    doc: SvgDoc,
    frames: Seq<RawFrame>,
    input: RenderInput,
    total_ms: u32,
    n: int,
    t: u32,
    i: int,
    px: int,
    py: int,
    fill: Rgb,
)
    requires
        documents(doc, frames, input, total_ms),
        on_screen(frames, n, t, total_ms),
        forall|k: int|
            0 <= k < frames.len() ==> (#[trigger] frames[k]).default_bg == frames[0].default_bg,
        0 <= i < frames[0].cells@.len(),
        ({
            let (w, h) = (input.cfg.cell_w(), input.cfg.cell_h());
            let left = input.layout.content_x + (i % frames[0].cols as int) * w;
            let top = input.layout.content_y + (i / frames[0].cols as int) * h;
            left <= px < left + w && top <= py < top + h
        }),
    ensures
        ({
            let cell = frames[n].cells@[i];
            let behind = if has(cell, style_flags::INVERSE) {
                cell.fg
            } else {
                cell.bg
            };
            elements::rects_cover(doc.rects(), t, px, py, fill) == (fill == behind && fill
                != frames[n].default_bg)
        }),
{
    assert(frames[n].cells@.len() >= frames[0].cells@.len());
    cells::lemma_painted_colors(frames[n].cells@[i]@);
    render::lemma_document_colors_frames(
        doc,
        frames,
        input,
        total_ms,
        n,
        t,
        i,
        px,
        py,
        fill,
    );
}

/// A pixel on the line that a cell's text stands on is covered with the colour of the
/// text while a frame is on screen in which the cell is underlined, and with nothing
/// while it is not.
pub proof fn lemma_document_underlines_cell(
    doc: SvgDoc,
    frames: Seq<RawFrame>,
    input: RenderInput,
    total_ms: u32,
    n: int,
    t: u32,
    i: int,
    px: int,
)
    requires
        documents(doc, frames, input, total_ms),
        on_screen(frames, n, t, total_ms),
        0 <= i < frames[0].cells@.len(),
        frames[n].cells@[i].text@.len() > 0,
        ({
            let w = input.cfg.cell_w();
            let left = input.layout.content_x + (i % frames[0].cols as int) * w;
            left <= px < left + w
        }),
    ensures
        ({
            let cell = frames[n].cells@[i];
            let p = input.placement();
            let y = p.content_y + (i / frames[0].cols as int) * p.cell_h + p.metrics.baseline;
            &&& has(cell, style_flags::UNDERLINE) ==> exists|fill: Rgb|
                #[trigger] elements::rects_cover(doc.strokes(), t, px, y, fill)
            &&& forall|fill: Rgb|
                #[trigger] elements::rects_cover(doc.strokes(), t, px, y, fill) ==> has(
                    cell,
                    style_flags::UNDERLINE,
                ) && in_text_color(fill, cell)
        }),
{
    let cell = frames[n].cells@[i];
    let p = input.placement();
    let y = p.content_y + (i / frames[0].cols as int) * p.cell_h + p.metrics.baseline;
    let seen = cells::frame_visuals(frames[n])[i];
    assert(frames[n].cells@.len() >= frames[0].cells@.len());
    cells::lemma_painted_colors(cell@);
    render::lemma_document_underlines_frames(
        doc,
        frames,
        input,
        total_ms,
        n,
        t,
        i,
        px,
        seen.fg,
    );
    assert forall|fill: Rgb| #[trigger]
        elements::rects_cover(doc.strokes(), t, px, y, fill) implies has(
        cell,
        style_flags::UNDERLINE,
    ) && in_text_color(fill, cell) by {
        render::lemma_document_underlines_frames(
            doc,
            frames,
            input,
            total_ms,
            n,
            t,
            i,
            px,
            fill,
        );
    }
}

} // verus!
