//! What holds of drawn frames as a whole.
use vstd::prelude::*;

use crate::recording;
use crate::recording::{MouseState, RawFrame};
use crate::render_gif::canvas;
use crate::render_gif::palette;
use crate::render_gif::palette::TRANSPARENT_COLOR_INDEX;
use crate::render_gif::raster;
use crate::render_gif::raster::{GlyphSheet, RasterSetup};
use crate::render_gif::stamp;
use crate::render_gif::stamp::{GlyphBlit, Paint};
use crate::single::Measure;
use crate::style::Rgb;

verus! {

/// Whether every pixel has a colour.
pub open spec fn opaque_canvas(buf: Seq<u8>) -> bool {
    forall|i: int| 0 <= i < buf.len() ==> #[trigger] buf[i] != TRANSPARENT_COLOR_INDEX
}

proof fn lemma_stamped_opaque(
    buf: Seq<u8>,
    p: Paint,
    ink: Seq<Option<(Rgb, Measure)>>,
    left: int,
    top: int,
    width: int,
    height: int,
)
    requires
        opaque_canvas(buf),
    ensures
        opaque_canvas(stamp::stamped(buf, p, ink, left, top, width, height)),
        stamp::stamped(buf, p, ink, left, top, width, height).len() == buf.len(),
{
    let out = stamp::stamped(buf, p, ink, left, top, width, height);
    assert forall|i: int| 0 <= i < out.len() implies #[trigger] out[i]
        != TRANSPARENT_COLOR_INDEX by {
        assert(buf[i] != TRANSPARENT_COLOR_INDEX);
        match stamp::ink_at(ink, left, top, width, height, i % (p.w as int), i / (p.w as int)) {
            Some((color, alpha)) => {
                palette::lemma_closest(
                    canvas::mixed_rgb(
                        color,
                        canvas::seen(
                            buf[i],
                            canvas::earlier_at(p.earlier, i),
                            p.colors,
                            p.default_bg,
                        ),
                        alpha as int,
                    ),
                    p.colors,
                );
            },
            None => {},
        }
    }
}

proof fn lemma_lettered_opaque(buf: Seq<u8>, p: Paint, glyphs: Seq<GlyphBlit>, color: Rgb, n: int)
    requires
        opaque_canvas(buf),
    ensures
        opaque_canvas(raster::lettered(buf, p, glyphs, color, n)),
        raster::lettered(buf, p, glyphs, color, n).len() == buf.len(),
    decreases n,
{
    if n > 0 {
        lemma_lettered_opaque(buf, p, glyphs, color, n - 1);
        let g = glyphs[n - 1];
        lemma_stamped_opaque(
            raster::lettered(buf, p, glyphs, color, n - 1),
            p,
            stamp::glyph_ink(g.coverage@, color),
            g.left as int,
            g.top as int,
            g.width as int,
            g.height as int,
        );
    }
}

proof fn lemma_painted_opaque(buf: Seq<u8>, area: spec_fn(int) -> bool, color: Rgb, colors: Seq<Rgb>)
    requires
        opaque_canvas(buf),
    ensures
        opaque_canvas(canvas::painted(buf, area, palette::closest(color, colors))),
        canvas::painted(buf, area, palette::closest(color, colors)).len() == buf.len(),
{
    palette::lemma_closest(color, colors);
    let out = canvas::painted(buf, area, palette::closest(color, colors));
    assert forall|i: int| 0 <= i < out.len() implies #[trigger] out[i]
        != TRANSPARENT_COLOR_INDEX by {
        assert(buf[i] != TRANSPARENT_COLOR_INDEX);
    }
}

proof fn lemma_rect_opaque(
    buf: Seq<u8>,
    w: u32,
    x: u32,
    y: u32,
    width: u32,
    height: u32,
    color: Rgb,
    colors: Seq<Rgb>,
)
    requires
        opaque_canvas(buf),
    ensures
        opaque_canvas(
            canvas::filled_rect(buf, w, x, y, width, height, palette::closest(color, colors)),
        ),
        canvas::filled_rect(
            buf,
            w,
            x,
            y,
            width,
            height,
            palette::closest(color, colors),
        ).len() == buf.len(),
{
    lemma_painted_opaque(
        buf,
        canvas::rect_area(buf.len() as int, w, x, y, width, height),
        color,
        colors,
    );
}

proof fn lemma_dotted_opaque(setup: RasterSetup, buf: Seq<u8>, n: int)
    requires
        opaque_canvas(buf),
    ensures
        opaque_canvas(raster::dotted(setup, buf, n)),
        raster::dotted(setup, buf, n).len() == buf.len(),
    decreases n,
{
    if n > 0 {
        lemma_dotted_opaque(setup, buf, n - 1);
        let c = crate::render_svg::layout::bar_circles(
            setup.layout,
            setup.cfg.frame_style.window_bar,
        )[n - 1];
        let w = setup.layout.canvas_w;
        lemma_painted_opaque(
            raster::dotted(setup, buf, n - 1),
            |i: int| canvas::in_disc(w as int, c.cx as int, c.cy as int, c.r as int, i),
            c.fill->0,
            setup.colors@,
        );
    }
}

proof fn lemma_cells_opaque(
    setup: RasterSetup,
    curr: RawFrame,
    prev: Option<&RawFrame>,
    sheet: Seq<Vec<GlyphBlit>>,
    earlier: Option<Seq<u8>>,
    buf: Seq<u8>,
    n: int,
)
    requires
        opaque_canvas(buf),
    ensures
        opaque_canvas(raster::with_cells(setup, curr, prev, sheet, earlier, buf, n)),
        raster::with_cells(setup, curr, prev, sheet, earlier, buf, n).len() == buf.len(),
    decreases n,
{
    if n > 0 {
        lemma_cells_opaque(setup, curr, prev, sheet, earlier, buf, n - 1);
        let before = raster::with_cells(setup, curr, prev, sheet, earlier, buf, n - 1);
        let col = (n - 1) % (curr.cols as int);
        let row = (n - 1) / (curr.cols as int);
        let w = setup.layout.canvas_w;
        let x = (setup.layout.content_x + col * setup.cell_w()) as u32;
        let y = (setup.layout.content_y + row * setup.cell_h()) as u32;
        let colors = raster::drawn_colors(curr, col, row);
        let ground = canvas::filled_rect(
            before,
            w,
            x,
            y,
            setup.cell_w(),
            setup.cell_h(),
            palette::closest(colors.1, setup.colors@),
        );
        lemma_rect_opaque(before, w, x, y, setup.cell_w(), setup.cell_h(), colors.1, setup.colors@);
        let glyphs = sheet[row * curr.cols + col]@;
        let p = setup.paint(earlier, curr.default_bg);
        lemma_lettered_opaque(ground, p, glyphs, colors.0, glyphs.len() as int);
        let text = if curr.cell(col, row).text.len() > 0 {
            raster::lettered(ground, p, glyphs, colors.0, glyphs.len() as int)
        } else {
            ground
        };
        let uy = (y + (if setup.cell_h() >= 2 {
            setup.cell_h() - 2
        } else {
            0
        })) as u32;
        lemma_rect_opaque(text, w, x, uy, setup.cell_w(), 1, colors.0, setup.colors@);
    }
}

proof fn lemma_mouse_opaque(
    setup: RasterSetup,
    curr: RawFrame,
    earlier: Option<Seq<u8>>,
    buf: Seq<u8>,
)
    requires
        opaque_canvas(buf),
    ensures
        opaque_canvas(raster::with_mouse(setup, curr, earlier, buf)),
        raster::with_mouse(setup, curr, earlier, buf).len() == buf.len(),
{
    match curr.mouse_cursor {
        None => {},
        Some(m) => {
            let p = setup.paint(earlier, curr.default_bg);
            let x = setup.mouse_x(m);
            let y = setup.mouse_y(m);
            let r = stamp::RIPPLE_RADIUS;
            let opacity = match m.2 {
                MouseState::Clicking => stamp::CLICK_OPACITY as int,
                _ => stamp::DRAG_OPACITY as int,
            };
            lemma_stamped_opaque(
                buf,
                p,
                stamp::ripple_ink(r as int, stamp::RIPPLE_COLOR, opacity),
                x - r,
                y - r,
                2 * r + 1,
                2 * r + 1,
            );
            let ground = match m.2 {
                MouseState::Moving => buf,
                _ => stamp::rippled(buf, p, x, y, opacity),
            };
            lemma_stamped_opaque(
                ground,
                p,
                stamp::arrow_ink(m.2 == MouseState::Clicking),
                x + crate::pointer::MIN,
                y + crate::pointer::MIN,
                stamp::ARROW_W as int,
                stamp::ARROW_H as int,
            );
        },
    }
}

/// The first frame leaves no pixel without a colour.
pub proof fn lemma_first_frame_opaque(
    setup: RasterSetup,
    curr: RawFrame,
    sheet: GlyphSheet,
    earlier: Option<Seq<u8>>,
    buf: Seq<u8>,
)
    requires
        setup.fits(),
        buf.len() == setup.layout.canvas_w * setup.layout.canvas_h,
    ensures
        opaque_canvas(raster::rasterized(setup, curr, None, sheet, earlier, buf)),
{
    let l = setup.layout;
    let style = setup.cfg.frame_style;
    let w = l.canvas_w as int;
    let h = l.canvas_h as int;
    palette::lemma_closest(style.margin_fill, setup.colors@);
    let margin = canvas::filled_rect(
        buf,
        l.canvas_w,
        0,
        0,
        l.canvas_w,
        l.canvas_h,
        palette::closest(style.margin_fill, setup.colors@),
    );
    assert(opaque_canvas(margin)) by {
        assert forall|i: int| 0 <= i < margin.len() implies #[trigger] margin[i]
            != TRANSPARENT_COLOR_INDEX by {
            canvas::lemma_place(i, w, h);
            let row = i / w;
            assert(canvas::at(0, row, w) + w <= w * h) by (nonlinear_arith)
                requires
                    0 <= row < h,
                    0 < w,
                    canvas::at(0, row, w) == row * w + 0,
            ;
            assert(canvas::at(0, row, w) <= i < canvas::at(0, row, w) + w) by {
                assert(canvas::at(i % w, row, w) == i);
            }
            assert(canvas::in_rows(buf.len() as int, w, 0, 0, w, 0 + h, i));
        }
    }
    lemma_rect_opaque(
        margin,
        l.canvas_w,
        l.frame_x,
        l.frame_y,
        l.frame_w,
        l.frame_h,
        curr.default_bg,
        setup.colors@,
    );
    let ground = raster::prepared(setup, curr, None, buf);
    lemma_rect_opaque(
        ground,
        l.canvas_w,
        l.frame_x,
        l.frame_y,
        l.frame_w,
        l.bar_h,
        curr.default_bg,
        setup.colors@,
    );
    let blank = canvas::filled_rect(
        ground,
        l.canvas_w,
        l.frame_x,
        l.frame_y,
        l.frame_w,
        l.bar_h,
        palette::closest(curr.default_bg, setup.colors@),
    );
    lemma_dotted_opaque(setup, blank, 3);
    lemma_lettered_opaque(
        raster::dotted(setup, blank, 3),
        setup.paint(earlier, curr.default_bg),
        sheet.title@,
        raster::TITLE_COLOR,
        sheet.title@.len() as int,
    );
    let bar = if style.window_bar.spec_enabled() {
        raster::barred(setup, curr, sheet.title@, earlier, ground)
    } else {
        ground
    };
    assert(opaque_canvas(bar));
    lemma_cells_opaque(setup, curr, None, sheet.cells@, earlier, bar, curr.cols * curr.rows);
    let grid = raster::with_cells(
        setup,
        curr,
        None,
        sheet.cells@,
        earlier,
        bar,
        curr.cols * curr.rows,
    );
    lemma_mouse_opaque(setup, curr, earlier, grid);
    let mouse = raster::with_mouse(setup, curr, earlier, grid);
    let radius = style.border_radius_px;
    lemma_painted_opaque(
        mouse,
        |i: int|
            canvas::in_frame(i % w, i / w, l) && !canvas::inside_rounded(
                i % w,
                i / w,
                l,
                canvas::corner_radius(l, radius) as int,
            ),
        style.margin_fill,
        setup.colors@,
    );
}

/// Whether nothing moved between two frames without a mouse.
pub open spec fn still(curr: RawFrame, prev: RawFrame) -> bool {
    &&& curr.cols == prev.cols
    &&& curr.rows == prev.rows
    &&& curr.cursor == prev.cursor
    &&& curr.mouse_cursor is None
    &&& prev.mouse_cursor is None
    &&& recording::opt_text(curr.title) == recording::opt_text(prev.title)
    &&& curr.cells@.len() == prev.cells@.len()
    &&& forall|i: int| 0 <= i < curr.cells@.len() ==> (#[trigger] curr.cells@[i])@ == prev.cells@[i]@
}

proof fn lemma_no_cell_drawn(
    setup: RasterSetup,
    curr: RawFrame,
    prev: RawFrame,
    sheet: Seq<Vec<GlyphBlit>>,
    earlier: Option<Seq<u8>>,
    buf: Seq<u8>,
    n: int,
)
    requires
        still(curr, prev),
        curr.wf(),
        0 <= n <= curr.cols * curr.rows,
    ensures
        raster::with_cells(setup, curr, Some(&prev), sheet, earlier, buf, n) == buf,
    decreases n,
{
    if n > 0 {
        lemma_no_cell_drawn(setup, curr, prev, sheet, earlier, buf, n - 1);
        assert(curr.cols > 0) by (nonlinear_arith)
            requires
                0 < n <= curr.cols * curr.rows,
        ;
        let cols = curr.cols as int;
        canvas::lemma_place(n - 1, cols, curr.rows as int);
        let col = (n - 1) % cols;
        let row = (n - 1) / cols;
        assert(row * curr.cols + col == n - 1);
        assert(curr.cells@[n - 1]@ == prev.cells@[n - 1]@);
    }
}

/// A frame on which nothing moved draws nothing.
pub proof fn lemma_still_frame_draws_nothing(
    setup: RasterSetup,
    curr: RawFrame,
    prev: RawFrame,
    sheet: GlyphSheet,
    earlier: Option<Seq<u8>>,
    buf: Seq<u8>,
)
    requires
        still(curr, prev),
        curr.wf(),
    ensures
        raster::rasterized(setup, curr, Some(&prev), sheet, earlier, buf) == buf,
{
    assert(0 <= curr.cols * curr.rows) by (nonlinear_arith);
    lemma_no_cell_drawn(
        setup,
        curr,
        prev,
        sheet.cells@,
        earlier,
        buf,
        curr.cols * curr.rows,
    );
}

} // verus!
