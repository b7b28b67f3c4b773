//! Where the text of a document stands, and which characters it has.
use vstd::prelude::*;

use crate::exact;
use crate::recording::{CellSnap, RawFrame};
use crate::render_svg::cells;
use crate::render_svg::document::SvgDoc;
use crate::render_svg::elements;
use crate::render_svg::elements::Glyph;
use crate::render_svg::laws;
use crate::render_svg::layout;
use crate::render_svg::layout::Placement;
use crate::render_svg::metrics;
use crate::render_svg::render;
use crate::render_svg::render::RenderInput;
use crate::render_svg::tracks::PIXEL_LIMIT;
use crate::single;
use crate::single::{Measure, GRAIN, ONE};
use crate::viewport::ViewportConfig;

verus! {

/// Where the document's font has the size of the raster font, text stands as far below
/// the top of its cell as the font goes up, and below half of what the cell is higher
/// than a character. Box-drawing characters are stretched only in cells that are higher.
pub proof fn lemma_baseline(font_size: Measure, cfg: ViewportConfig)
    requires
        metrics::metrics_fit(font_size, cfg),
        font_size == cfg.font_size_px,
        cfg.char_height_px <= 0xffff,
        cfg.ascent_px <= 0xffff,
        cfg.cell_h() <= 0xffff,
    ensures
        ({
            let m = metrics::metrics_of(font_size, cfg);
            let spare = if cfg.cell_h() > cfg.char_height_px {
                cfg.cell_h() - cfg.char_height_px
            } else {
                0
            };
            &&& m.baseline == cfg.ascent_px + (spare + 1) / 2
            &&& spare == 0 && cfg.cell_h() == cfg.char_height_px ==> m.scale_y == ONE
        }),
{
    let g = (font_size as int / (GRAIN as int)) as nat;
    assert(g >= 1);
    exact::lemma_ratio_cancels(ONE as nat, g);
    assert(g * ONE == (ONE as nat) * g) by (nonlinear_arith);
    exact::lemma_wholes_exact(1);
    assert(single::single_ratio(ONE as nat, 1) == ONE) by {
        assert(1 * ONE == ONE);
    }
    assert(metrics::font_scale(font_size, cfg) == ONE);
    let (c, a, h) = (cfg.char_height_px as int, cfg.ascent_px as int, cfg.cell_h() as int);
    exact::lemma_wholes_exact(c);
    exact::lemma_wholes_exact(a);
    exact::lemma_wholes_exact(h - c);
    assert(metrics::char_height(font_size, cfg) == c * ONE);
    assert(metrics::ascent(font_size, cfg) == a * ONE);
    assert(h * ONE - c * ONE == (h - c) * ONE) by (nonlinear_arith);
    let e = if h > c {
        h - c
    } else {
        0
    };
    assert(metrics::extra_height(font_size, cfg) == e * ONE) by {
        if h <= c {
            assert((h - c) * ONE <= 0) by (nonlinear_arith)
                requires
                    h <= c,
            ;
        }
    }
    let n = (2 * a + e) as nat;
    exact::lemma_halves_exact(n);
    let half = 0x8000_0000_0000_0000int;
    assert(ONE == 2 * half);
    assert(a * ONE + e * ONE / 2 == n * ONE / 2) by (nonlinear_arith)
        requires
            n == 2 * a + e,
            ONE == 2 * half,
    ;
    assert(metrics::baseline_of(font_size, cfg) == (n + 1) / 2);
    if h == c {
        let k = (c * ONE / (GRAIN as int)) as nat;
        assert(k >= 1);
        exact::lemma_ratio_cancels(ONE as nat, k);
        assert(k * ONE == (ONE as nat) * k) by (nonlinear_arith);
    }
}

/// The text of a cell begins at its left edge, if letters are not spaced; box-drawing
/// characters always do.
pub proof fn lemma_text_begins(p: Placement, col: u16, t: Seq<char>)
    requires
        t.len() > 0,
        p.content_x + col * p.cell_w <= 0xff_ffff,
        p.metrics.offset_x == 0 || layout::has_box(t),
    ensures
        p.char_places(col, t)[0] == (p.content_x + col * p.cell_w) * ONE,
{
    let left = p.content_x + col * p.cell_w;
    assert(0 <= col * p.cell_w) by (nonlinear_arith);
    exact::lemma_wholes_exact(left);
    assert(left as u32 * ONE == left * ONE);
}

/// The first character of a cell is shown at the left edge of that cell, on the line of
/// its row, where letters are not spaced.
pub proof fn lemma_document_places_cell(
    doc: SvgDoc,
    frames: Seq<RawFrame>,
    input: RenderInput,
    total_ms: u32,
    n: int,
    t: u32,
    i: int,
)
    requires
        laws::documents(doc, frames, input, total_ms),
        laws::on_screen(frames, n, t, total_ms),
        0 <= i < frames[0].cells@.len(),
        frames[n].cells@[i].text@.len() > 0,
        input.placement().metrics.offset_x == 0,
    ensures
        ({
            let p = input.placement();
            let col = i % frames[0].cols as int;
            let row = i / frames[0].cols as int;
            let look = layout::cell_look(cells::frame_visuals(frames[n])[i]);
            elements::text_shows(
                doc.lines(),
                t,
                (p.content_y + row * p.cell_h + p.metrics.baseline) as u32,
                Glyph {
                    x: ((p.content_x + col * p.cell_w) * ONE) as i128,
                    c: frames[n].cells@[i].text@[0],
                    look,
                },
            )
        }),
{
    let p = input.placement();
    let cols = frames[0].cols as int;
    let rows = frames[0].rows as int;
    let col = i % cols;
    let row = i / cols;
    let seen = cells::frame_visuals(frames[n])[i];
    assert(frames[n].cells@.len() >= frames[0].cells@.len());
    assert(frames[0].wf());
    assert(0 <= row < rows) by (nonlinear_arith)
        requires
            0 <= i < cols * rows,
            cols > 0,
            row == i / cols,
    ;
    assert(0 <= col < cols);
    assert(0 <= col * p.cell_w <= cols * p.cell_w) by (nonlinear_arith)
        requires
            0 <= col < cols,
            0 <= p.cell_w,
    ;
    assert(p.content_x <= PIXEL_LIMIT);
    lemma_text_begins(p, col as u16, seen.text);
    let x = p.char_places(col as u16, seen.text)[0];
    let g = Glyph { x, c: seen.text[0], look: layout::cell_look(seen) };
    render::lemma_document_shows_frames(doc, frames, input, total_ms, n, t, p.line(row as u16), g);
    assert(layout::cell_shows(p, col as u16, cells::frame_visuals(frames[n])[i], g));
    assert(render::frame_shows(
        frames[n],
        cells::cell_count(frames),
        frames[0].cols,
        p,
        p.line(row as u16),
        g,
    ));
}

/// The characters that need a font are those of the cells, each with the attributes of
/// its cell.
pub proof fn lemma_chars_of_frames(frames: Seq<RawFrame>, flags: u8, c: char)
    ensures
        render::frames_chars(frames).contains((flags, c)) <==> exists|i: int|
            0 <= i < frames.len() && has_char((#[trigger] frames[i]).cells@, flags, c),
    decreases frames.len(),
{
    let all = render::frames_chars(frames);
    if frames.len() > 0 {
        let d = frames.drop_last();
        let before = render::frames_chars(d);
        let cells = frames.last().cells@;
        let last = render::cells_chars(cells, cells.len() as int);
        lemma_chars_of_frames(d, flags, c);
        lemma_chars_of_cells(cells, cells.len() as int, flags, c);
        assert(cells.take(cells.len() as int) =~= cells);
        lemma_contains_add(before, last, (flags, c));
        if before.contains((flags, c)) {
            let i = choose|i: int|
                0 <= i < d.len() && has_char((#[trigger] d[i]).cells@, flags, c);
            assert(frames[i] == d[i]);
        }
        if has_char(cells, flags, c) {
            assert(has_char(frames[frames.len() - 1].cells@, flags, c));
        }
        if exists|i: int|
            0 <= i < frames.len() && has_char((#[trigger] frames[i]).cells@, flags, c) {
            let i = choose|i: int|
                0 <= i < frames.len() && has_char((#[trigger] frames[i]).cells@, flags, c);
            if i < d.len() {
                assert(d[i] == frames[i]);
            }
        }
    }
}

/// Whether some cell with these attributes has a character.
pub open spec fn has_char(v: Seq<CellSnap>, flags: u8, c: char) -> bool {
    exists|k: int|
        0 <= k < v.len() && (#[trigger] v[k]).flags == flags && v[k].text@.contains(c)
}

proof fn lemma_chars_of_cells(v: Seq<CellSnap>, n: int, flags: u8, c: char)
    requires
        0 <= n <= v.len(),
    ensures
        render::cells_chars(v, n).contains((flags, c)) <==> has_char(v.take(n), flags, c),
    decreases n,
{
    if n > 0 {
        let before = render::cells_chars(v, n - 1);
        let t = v[n - 1].text@;
        let last = render::cell_chars(v[n - 1].flags, t);
        lemma_chars_of_cells(v, n - 1, flags, c);
        lemma_contains_add(before, last, (flags, c));
        if last.contains((flags, c)) {
            let i = choose|i: int| 0 <= i < last.len() && last[i] == (flags, c);
            assert(t[i] == c);
            assert(v.take(n)[n - 1].text@.contains(c));
        }
        if v[n - 1].flags == flags && t.contains(c) {
            let i = choose|i: int| 0 <= i < t.len() && t[i] == c;
            assert(last[i] == (flags, c));
        }
        if has_char(v.take(n - 1), flags, c) {
            let k = choose|k: int|
                0 <= k < v.take(n - 1).len() && (#[trigger] v.take(n - 1)[k]).flags == flags
                    && v.take(n - 1)[k].text@.contains(c);
            assert(v.take(n)[k] == v.take(n - 1)[k]);
        }
        if has_char(v.take(n), flags, c) {
            let k = choose|k: int|
                0 <= k < v.take(n).len() && (#[trigger] v.take(n)[k]).flags == flags && v.take(
                    n,
                )[k].text@.contains(c);
            if k < n - 1 {
                assert(v.take(n - 1)[k] == v.take(n)[k]);
            }
        }
    }
}

proof fn lemma_contains_add(a: Seq<(u8, char)>, b: Seq<(u8, char)>, x: (u8, char))
    ensures
        (a + b).contains(x) <==> a.contains(x) || b.contains(x),
{
    if a.contains(x) {
        let i = choose|i: int| 0 <= i < a.len() && a[i] == x;
        assert((a + b)[i] == x);
    }
    if b.contains(x) {
        let i = choose|i: int| 0 <= i < b.len() && b[i] == x;
        assert((a + b)[a.len() + i] == x);
    }
    if (a + b).contains(x) {
        let i = choose|i: int| 0 <= i < (a + b).len() && (a + b)[i] == x;
        if i < a.len() {
            assert(a[i] == x);
        } else {
            assert(b[i - a.len()] == x);
        }
    }
}

} // verus!
