//! What the pixels of a GIF are, said of the cells of the frame they belong to.
use vstd::prelude::*;

use crate::recording::RawFrame;
use crate::render_gif::canvas;
use crate::render_gif::movie;
use crate::render_gif::palette;
use crate::render_gif::raster;
use crate::render_gif::raster::{GlyphSheet, RasterSetup};
use crate::render_gif::stamp::{GlyphBlit, Paint};
use crate::render_gif::stream;
use crate::render_gif::view;
use crate::render_svg::cells;
use crate::single::ONE;
use crate::style::Rgb;
use crate::style_flags;

verus! {

pub open spec fn square(a: int) -> int {
    a * a
}

/// The sum of the squares by which two colours differ in red, green and blue.
pub open spec fn difference(a: Rgb, b: Rgb) -> int {
    square(a[0] - b[0]) + square(a[1] - b[1]) + square(a[2] - b[2])
}

/// Whether a colour of the palette, and not the transparent one, is the one closest to
/// `color`: no other differs less, and none before it as little.
pub open spec fn stands_for(idx: u8, color: Rgb, colors: Seq<Rgb>) -> bool {
    &&& idx < 255
    &&& forall|k: int|
        0 <= k < 255 ==> difference(color, colors[idx as int]) <= difference(
            color,
            #[trigger] colors[k],
        )
    &&& forall|k: int|
        0 <= k < idx ==> difference(color, colors[idx as int]) < difference(
            color,
            #[trigger] colors[k],
        )
}

/// The colour chosen for a colour is the closest one of the palette.
pub proof fn lemma_stands_for(color: Rgb, colors: Seq<Rgb>)
    ensures
        stands_for(palette::closest(color, colors), color, colors),
{
    palette::lemma_closest(color, colors);
    assert forall|k: int| difference(color, #[trigger] colors[k]) == palette::distance(
        color,
        colors[k],
    ) by {}
}

/// Whether a colour is that of the text of the cell at `col`, `row`: where the cursor
/// stands on it, the colour that goes with the cursor or else the default background;
/// elsewhere the foreground, or the background where the colours are inverted, and half
/// way between the two where the text is dim.
pub open spec fn is_text_color(c: Rgb, f: RawFrame, col: int, row: int) -> bool {
    let cell = f.cells@[row * f.cols + col];
    if f.cursor == Some((col as u16, row as u16)) {
        match f.cursor_accent {
            Some(accent) => c == accent,
            None => c == f.default_bg,
        }
    } else if cell.flags & style_flags::DIM != 0 {
        forall|k: int| 0 <= k < 3 ==> (#[trigger] c[k]) == (cell.fg[k] + cell.bg[k]) / 2
    } else if cell.flags & style_flags::INVERSE != 0 {
        c == cell.bg
    } else {
        c == cell.fg
    }
}

/// Whether a colour is that behind the text of the cell at `col`, `row`: where the cursor
/// stands on it, that of the cursor or else the default foreground; elsewhere the
/// background, or the foreground where the colours are inverted.
pub open spec fn is_ground_color(c: Rgb, f: RawFrame, col: int, row: int) -> bool {
    let cell = f.cells@[row * f.cols + col];
    if f.cursor == Some((col as u16, row as u16)) {
        match f.cursor_color {
            Some(color) => c == color,
            None => c == f.default_fg,
        }
    } else if cell.flags & style_flags::INVERSE != 0 {
        c == cell.fg
    } else {
        c == cell.bg
    }
}

proof fn lemma_colors_of_cell(f: RawFrame, col: int, row: int)
    ensures
        is_text_color(raster::drawn_colors(f, col, row).0, f, col, row),
        is_ground_color(raster::drawn_colors(f, col, row).1, f, col, row),
{
    cells::lemma_painted_colors(f.cell(col, row));
}

/// Whether the mouse, with all that is drawn around it, stays away from a pixel.
pub open spec fn mouse_away(setup: RasterSetup, f: RawFrame, x: int, y: int) -> bool {
    f.mouse_cursor matches Some(m) ==> {
        let dx = x - setup.mouse_x(m);
        let dy = y - setup.mouse_y(m);
        dx <= -48 || 48 <= dx || dy <= -48 || 48 <= dy
    }
}

/// Where the line under a text is drawn: in the last row of pixels but one.
pub open spec fn on_underline(setup: RasterSetup, row: int, y: int) -> bool {
    y == setup.layout.content_y + row * setup.cell_h() + (if setup.cell_h() >= 2 {
        setup.cell_h() - 2
    } else {
        0
    })
}

/// How much of a pixel a glyph covers, if it reaches it.
pub open spec fn covers(g: GlyphBlit, x: int, y: int, part: int) -> bool {
    &&& view::reaches(g, x, y)
    &&& g.coverage@[(y - g.top) * g.width + (x - g.left)] == part
}

/// Whether a pixel is wholly covered by one of the glyphs, and by no part of one that is
/// drawn after it.
pub open spec fn covered(glyphs: Seq<GlyphBlit>, x: int, y: int) -> bool {
    exists|j: int|
        0 <= j < glyphs.len() && covers(#[trigger] glyphs[j], x, y, ONE as int) && forall|k: int|
            j < k < glyphs.len() ==> !view::reaches(#[trigger] glyphs[k], x, y)
}

/// Whether none of the glyphs reaches a pixel.
pub open spec fn uncovered(glyphs: Seq<GlyphBlit>, x: int, y: int) -> bool {
    forall|k: int| 0 <= k < glyphs.len() ==> !view::reaches(#[trigger] glyphs[k], x, y)
}

pub(crate) proof fn lemma_full_opacity(color: Rgb, bg: Rgb)
    ensures
        canvas::mixed_rgb(color, bg, ONE as int) == color,
{
    canvas::lemma_mixed_ends(color[0], bg[0]);
    canvas::lemma_mixed_ends(color[1], bg[1]);
    canvas::lemma_mixed_ends(color[2], bg[2]);
    assert(canvas::mixed_rgb(color, bg, ONE as int) =~= color);
}

/// A pixel that a glyph covers wholly has the colour of the glyph.
proof fn lemma_lettered_covered(
    buf: Seq<u8>,
    p: Paint,
    glyphs: Seq<GlyphBlit>,
    color: Rgb,
    j: int,
    n: int,
    x: int,
    y: int,
)
    requires
        0 <= j < n <= glyphs.len(),
        0 <= x < p.w,
        0 <= y,
        canvas::at(x, y, p.w as int) < buf.len(),
        glyphs[j].wf(),
        covers(glyphs[j], x, y, ONE as int),
        forall|k: int| j < k < glyphs.len() ==> !view::reaches(#[trigger] glyphs[k], x, y),
    ensures
        raster::lettered(buf, p, glyphs, color, n)[canvas::at(x, y, p.w as int)]
            == palette::closest(color, p.colors),
    decreases n,
{
    let i = canvas::at(x, y, p.w as int);
    canvas::lemma_at(x, y, p.w as int);
    view::lemma_lettered_len(buf, p, glyphs, color, n - 1);
    let before = raster::lettered(buf, p, glyphs, color, n - 1);
    if j < n - 1 {
        lemma_lettered_covered(buf, p, glyphs, color, j, n - 1, x, y);
        assert(!view::reaches(glyphs[n - 1], x, y));
    } else {
        let g = glyphs[j];
        let (dx, dy) = (x - g.left, y - g.top);
        assert(0 <= dy * g.width + dx < g.width * g.height) by (nonlinear_arith)
            requires
                0 <= dx < g.width,
                0 <= dy < g.height,
        ;
        lemma_full_opacity(
            color,
            canvas::seen(
                before[i],
                canvas::earlier_at(p.earlier, i),
                p.colors,
                p.default_bg,
            ),
        );
    }
}

/// A pixel that one of the glyphs covers wholly has the colour of the glyphs.
pub(crate) proof fn lemma_glyphs_covered(
    buf: Seq<u8>,
    p: Paint,
    glyphs: Seq<GlyphBlit>,
    color: Rgb,
    x: int,
    y: int,
)
    requires
        0 <= x < p.w,
        0 <= y,
        canvas::at(x, y, p.w as int) < buf.len(),
        raster::glyphs_fit(glyphs),
        covered(glyphs, x, y),
    ensures
        raster::lettered(buf, p, glyphs, color, glyphs.len() as int)[canvas::at(x, y, p.w as int)]
            == palette::closest(color, p.colors),
{
    let j = choose|j: int|
        0 <= j < glyphs.len() && covers(#[trigger] glyphs[j], x, y, ONE as int) && forall|k: int|
            j < k < glyphs.len() ==> !view::reaches(#[trigger] glyphs[k], x, y);
    lemma_lettered_covered(buf, p, glyphs, color, j, glyphs.len() as int, x, y);
}

/// A mouse that stays away leaves a pixel alone.
proof fn lemma_mouse_leaves(
    setup: RasterSetup,
    f: RawFrame,
    buf: Seq<u8>,
    x: int,
    y: int,
)
    requires
        mouse_away(setup, f, x, y),
        0 <= x < setup.layout.canvas_w,
        0 <= y,
        canvas::at(x, y, setup.layout.canvas_w as int) < buf.len(),
    ensures
        raster::with_mouse(setup, f, None, buf)[canvas::at(x, y, setup.layout.canvas_w as int)]
            == buf[canvas::at(x, y, setup.layout.canvas_w as int)],
{
    canvas::lemma_at(x, y, setup.layout.canvas_w as int);
}

/// A pixel of a cell, away from the mouse, has the colour of the palette that is closest
/// to the colour it should have. That is the colour of the text where a glyph of the cell
/// covers it wholly, and on the line under a cell that is underlined. It is the colour
/// behind the text where neither a glyph nor such a line reaches it, and everywhere in a
/// cell without text.
pub proof fn lemma_cell_pixel(
    setup: RasterSetup,
    f: RawFrame,
    sheet: GlyphSheet,
    col: int,
    row: int,
    x: int,
    y: int,
)
    requires
        view::pixel_of_cell(setup, f, col, row, x, y),
        raster::sheet_fits(sheet, f),
        mouse_away(setup, f, x, y),
    ensures
        ({
            let cell = f.cells@[row * f.cols + col];
            let glyphs = sheet.cells@[row * f.cols + col]@;
            let idx = view::frame_pixel(setup, f, sheet, col, row, x, y);
            let lined = cell.flags & style_flags::UNDERLINE != 0 && on_underline(setup, row, y);
            &&& lined || (cell.text@.len() > 0 && covered(glyphs, x, y)) ==> exists|c: Rgb|
                #[trigger] is_text_color(c, f, col, row) && stands_for(idx, c, setup.colors@)
            &&& !lined && (cell.text@.len() == 0 || uncovered(glyphs, x, y)) ==> exists|c: Rgb|
                #[trigger] is_ground_color(c, f, col, row) && stands_for(idx, c, setup.colors@)
        }),
{
    let l = setup.layout;
    let w = l.canvas_w as int;
    let h = l.canvas_h as int;
    let cell = f.cells@[row * f.cols + col];
    let glyphs = sheet.cells@[row * f.cols + col]@;
    let lined = cell.flags & style_flags::UNDERLINE != 0 && on_underline(setup, row, y);
    view::lemma_cell_bounds(setup, f, col, row);
    let left = l.content_x + col * setup.cell_w();
    let top = l.content_y + row * setup.cell_h();
    canvas::lemma_on_canvas(x, y, w, h);
    let i = canvas::at(x, y, w);
    let colors = raster::drawn_colors(f, col, row);
    lemma_colors_of_cell(f, col, row);
    lemma_stands_for(colors.0, setup.colors@);
    lemma_stands_for(colors.1, setup.colors@);
    let buf = stream::blank(setup);
    assert(buf.len() == l.canvas_w * l.canvas_h) by {
        assert(0 <= l.canvas_w * l.canvas_h) by (nonlinear_arith);
    }
    let len = buf.len() as int;
    assert(canvas::at(left, y, w) + setup.cell_w() <= w * h) by (nonlinear_arith)
        requires
            canvas::at(left, y, w) == y * w + left,
            left + setup.cell_w() <= w,
            0 <= y < h,
            0 <= left,
    ;
    view::lemma_in_rows(len, w, left, top, setup.cell_w() as int, top + setup.cell_h(), x, y);
    let ground = canvas::filled_rect(
        buf,
        l.canvas_w,
        left as u32,
        top as u32,
        setup.cell_w(),
        setup.cell_h(),
        palette::closest(colors.1, setup.colors@),
    );
    assert(ground[i] == palette::closest(colors.1, setup.colors@));
    let p = setup.paint(None, f.default_bg);
    let n = glyphs.len() as int;
    view::lemma_lettered_len(ground, p, glyphs, colors.0, n);
    let text = if cell.text@.len() > 0 {
        raster::lettered(ground, p, glyphs, colors.0, n)
    } else {
        ground
    };
    assert(raster::glyphs_fit(glyphs));
    if cell.text@.len() > 0 {
        if uncovered(glyphs, x, y) {
            view::lemma_lettered_clear(ground, p, glyphs, colors.0, n, x, y);
        }
        if covered(glyphs, x, y) {
            lemma_glyphs_covered(ground, p, glyphs, colors.0, x, y);
        }
    }
    let under = top + (if setup.cell_h() >= 2 {
        setup.cell_h() - 2
    } else {
        0
    });
    view::lemma_in_rows(len, w, left, under, setup.cell_w() as int, under + 1, x, y);
    let drawn = raster::with_cell(setup, f, sheet.cells@, None, buf, col, row);
    lemma_mouse_leaves(setup, f, drawn, x, y);
    if lined {
        assert(drawn[i] == palette::closest(colors.0, setup.colors@));
    } else {
        assert(drawn[i] == text[i]);
    }
}

/// A cell whose colours are neither inverted nor dim, and on which the cursor does not
/// stand, has its own foreground where a glyph covers it wholly or its line is, and its
/// own background where neither a glyph nor a line reaches it, as far as the palette allows: when the
/// pictures of a recording are shown one after another, the pixels of each frame are so.
pub proof fn lemma_movie_shows_cell(
    setup: RasterSetup,
    frames: Seq<RawFrame>,
    sheets: Seq<GlyphSheet>,
    k: int,
    col: int,
    row: int,
    x: int,
    y: int,
)
    requires
        0 <= k < frames.len(),
        view::followed(setup, frames, sheets, col, row, x, y),
        mouse_away(setup, frames[k], x, y),
        frames[k].cursor != Some((col as u16, row as u16)),
        ({
            let cell = frames[k].cells@[row * frames[k].cols + col];
            &&& cell.flags & style_flags::INVERSE == 0
            &&& cell.flags & style_flags::DIM == 0
        }),
    ensures
        ({
            let cell = frames[k].cells@[row * frames[k].cols + col];
            let glyphs = sheets[k].cells@[row * frames[k].cols + col]@;
            let n = movie::drawn_times(frames, k + 1).1.len() as int;
            let shown = view::composed(setup, movie::movie(setup, frames, sheets), n);
            let idx = shown[canvas::at(x, y, setup.layout.canvas_w as int)];
            let lined = cell.flags & style_flags::UNDERLINE != 0 && on_underline(setup, row, y);
            &&& lined || (cell.text@.len() > 0 && covered(glyphs, x, y)) ==> stands_for(
                idx,
                cell.fg,
                setup.colors@,
            )
            &&& !lined && (cell.text@.len() == 0 || uncovered(glyphs, x, y)) ==> stands_for(
                idx,
                cell.bg,
                setup.colors@,
            )
        }),
{
    view::lemma_movie_seen(setup, frames, sheets, k, col, row, x, y);
    assert(view::pixel_of_cell(setup, frames[k], col, row, x, y));
    lemma_cell_pixel(setup, frames[k], sheets[k], col, row, x, y);
}

} // verus!
