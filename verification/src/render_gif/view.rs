//! What is seen of a GIF: each picture is laid over the ones before it.
use vstd::prelude::*;

use crate::recording;
use crate::recording::{MouseState, RawFrame};
use crate::render_gif::canvas;
use crate::render_gif::movie;
use crate::render_gif::palette;
use crate::render_gif::palette::TRANSPARENT_COLOR_INDEX;
use crate::render_gif::raster;
use crate::render_gif::raster::{GlyphSheet, RasterSetup};
use crate::render_gif::stamp;
use crate::render_gif::stamp::{GlyphBlit, Paint};
use crate::render_gif::stream;
use crate::render_gif::stream::GifFrameView;
use crate::render_svg::layout;
use crate::single::Measure;
use crate::style::Rgb;

verus! {

/// What is seen once a picture is laid over what was there.
pub open spec fn laid_over(below: Seq<u8>, picture: Seq<u8>) -> Seq<u8> {
    Seq::new(
        picture.len(),
        |i: int|
            if picture[i] == TRANSPARENT_COLOR_INDEX {
                below[i]
            } else {
                picture[i]
            },
    )
}

/// Whether a pixel lies in a cell.
pub open spec fn in_cell(setup: RasterSetup, col: int, row: int, x: int, y: int) -> bool {
    let left = setup.layout.content_x + col * setup.cell_w();
    let top = setup.layout.content_y + row * setup.cell_h();
    left <= x < left + setup.cell_w() && top <= y < top + setup.cell_h()
}

/// Whether a glyph reaches a pixel.
pub open spec fn reaches(g: GlyphBlit, x: int, y: int) -> bool {
    g.left <= x < g.left + g.width && g.top <= y < g.top + g.height
}

/// Whether no glyph of another cell reaches a pixel of the cell `k`.
pub open spec fn apart(sheet: Seq<Vec<GlyphBlit>>, k: int, x: int, y: int) -> bool {
    forall|i: int, j: int|
        0 <= i < sheet.len() && i != k && 0 <= j < sheet[i]@.len() ==> !reaches(
            #[trigger] sheet[i]@[j],
            x,
            y,
        )
}

/// Whether a pixel is clear of the window bar: it is below it, and neither a dot
/// nor the title reaches it.
pub open spec fn clear_of_bar(setup: RasterSetup, title: Seq<GlyphBlit>, x: int, y: int) -> bool {
    let l = setup.layout;
    let w = l.canvas_w as int;
    let dots = layout::bar_circles(l, setup.cfg.frame_style.window_bar);
    &&& l.frame_y + l.bar_h <= y
    &&& forall|k: int|
        0 <= k < 3 ==> !canvas::in_disc(
            w,
            (#[trigger] dots[k]).cx as int,
            dots[k].cy as int,
            dots[k].r as int,
            canvas::at(x, y, w),
        )
    &&& forall|j: int| 0 <= j < title.len() ==> !reaches(#[trigger] title[j], x, y)
}

/// Whether a pixel lies in a cell of a grid that is on the canvas, and within the
/// rounded corners of the frame.
pub open spec fn pixel_of_cell(
    setup: RasterSetup,
    f: RawFrame,
    col: int,
    row: int,
    x: int,
    y: int,
) -> bool {
    let l = setup.layout;
    &&& setup.fits()
    &&& setup.grid_fits(&f)
    &&& l.content_x + f.cols * setup.cell_w() <= l.canvas_w
    &&& l.content_y + f.rows * setup.cell_h() <= l.canvas_h
    &&& 0 <= col < f.cols
    &&& 0 <= row < f.rows
    &&& in_cell(setup, col, row, x, y)
    &&& canvas::in_frame(x, y, l)
    &&& canvas::inside_rounded(
        x,
        y,
        l,
        canvas::corner_radius(l, setup.cfg.frame_style.border_radius_px) as int,
    )
}

/// A pixel of a cell as a frame has it: the cell, and the mouse over it.
pub open spec fn frame_pixel(
    setup: RasterSetup,
    f: RawFrame,
    sheet: GlyphSheet,
    col: int,
    row: int,
    x: int,
    y: int,
) -> u8 {
    raster::with_mouse(
        setup,
        f,
        None,
        raster::with_cell(setup, f, sheet.cells@, None, stream::blank(setup), col, row),
    )[canvas::at(x, y, setup.layout.canvas_w as int)]
}

/// Whether two canvases have the same colour at a place.
spec fn agree(a: Seq<u8>, b: Seq<u8>, i: int) -> bool {
    a.len() == b.len() && 0 <= i < a.len() && a[i] == b[i] && a[i] != TRANSPARENT_COLOR_INDEX
}

proof fn lemma_stamped_agree(
    a: Seq<u8>,
    b: Seq<u8>,
    p: Paint,
    q: Paint,
    ink: Seq<Option<(Rgb, Measure)>>,
    left: int,
    top: int,
    width: int,
    height: int,
    i: int,
)
    requires
        agree(a, b, i),
        p.w == q.w,
        p.colors == q.colors,
    ensures
        agree(
            stamp::stamped(a, p, ink, left, top, width, height),
            stamp::stamped(b, q, ink, left, top, width, height),
            i,
        ),
{
    match stamp::ink_at(ink, left, top, width, height, i % (p.w as int), i / (p.w as int)) {
        Some((color, alpha)) => {
            palette::lemma_closest(
                canvas::mixed_rgb(color, p.colors[a[i] as int], alpha as int),
                p.colors,
            );
        },
        None => {},
    }
}

proof fn lemma_lettered_agree(
    a: Seq<u8>,
    b: Seq<u8>,
    p: Paint,
    q: Paint,
    glyphs: Seq<GlyphBlit>,
    color: Rgb,
    n: int,
    i: int,
)
    requires
        agree(a, b, i),
        p.w == q.w,
        p.colors == q.colors,
    ensures
        agree(
            raster::lettered(a, p, glyphs, color, n),
            raster::lettered(b, q, glyphs, color, n),
            i,
        ),
    decreases n,
{
    if n > 0 {
        lemma_lettered_agree(a, b, p, q, glyphs, color, n - 1, i);
        let g = glyphs[n - 1];
        lemma_stamped_agree(
            raster::lettered(a, p, glyphs, color, n - 1),
            raster::lettered(b, q, glyphs, color, n - 1),
            p,
            q,
            stamp::glyph_ink(g.coverage@, color),
            g.left as int,
            g.top as int,
            g.width as int,
            g.height as int,
            i,
        );
    }
}

/// Glyphs that do not reach a pixel leave it alone.
pub(crate) proof fn lemma_lettered_clear(
    buf: Seq<u8>,
    p: Paint,
    glyphs: Seq<GlyphBlit>,
    color: Rgb,
    n: int,
    x: int,
    y: int,
)
    requires
        0 <= n <= glyphs.len(),
        0 <= x < p.w,
        0 <= y,
        canvas::at(x, y, p.w as int) < buf.len(),
        forall|j: int| 0 <= j < glyphs.len() ==> !reaches(#[trigger] glyphs[j], x, y),
    ensures
        raster::lettered(buf, p, glyphs, color, n).len() == buf.len(),
        raster::lettered(buf, p, glyphs, color, n)[canvas::at(x, y, p.w as int)]
            == buf[canvas::at(x, y, p.w as int)],
    decreases n,
{
    if n > 0 {
        lemma_lettered_clear(buf, p, glyphs, color, n - 1, x, y);
        canvas::lemma_at(x, y, p.w as int);
        assert(!reaches(glyphs[n - 1], x, y));
    }
}

/// The stretches of a rectangle that does not pass the right edge are those of its
/// rows.
pub(crate) proof fn lemma_in_rows(
    len: int,
    w: int,
    left: int,
    top: int,
    width: int,
    end: int,
    x: int,
    y: int,
)
    requires
        0 <= left,
        left + width <= w,
        0 <= x < w,
        0 <= y,
    ensures
        canvas::in_rows(len, w, left, top, width, end, canvas::at(x, y, w)) == (top <= y < end
            && left <= x < left + width && canvas::at(left, y, w) + width <= len),
{
    let i = canvas::at(x, y, w);
    if canvas::in_rows(len, w, left, top, width, end, i) {
        let row = choose|row: int|
            top <= row < end && #[trigger] canvas::at(left, row, w) <= i < canvas::at(left, row, w)
                + width && canvas::at(left, row, w) + width <= len;
        assert(row == y) by (nonlinear_arith)
            requires
                row * w + left <= y * w + x < row * w + left + width,
                0 <= left,
                left + width <= w,
                0 <= x < w,
        ;
    }
    if top <= y < end && left <= x < left + width && canvas::at(left, y, w) + width <= len {
        assert(canvas::at(left, y, w) <= i < canvas::at(left, y, w) + width);
    }
}

/// Of places that lie side by side, only one holds a point.
proof fn lemma_one_place(origin: int, side: int, a: int, b: int, at: int)
    requires
        side > 0,
        origin + a * side <= at < origin + a * side + side,
        origin + b * side <= at < origin + b * side + side,
    ensures
        a == b,
{
    assert(a == b) by (nonlinear_arith)
        requires
            side > 0,
            origin + a * side <= at < origin + a * side + side,
            origin + b * side <= at < origin + b * side + side,
    ;
}

/// The bounds of a cell that lies on the canvas.
pub(crate) proof fn lemma_cell_bounds(setup: RasterSetup, f: RawFrame, col: int, row: int)
    requires
        setup.fits(),
        setup.grid_fits(&f),
        setup.layout.content_x + f.cols * setup.cell_w() <= setup.layout.canvas_w,
        setup.layout.content_y + f.rows * setup.cell_h() <= setup.layout.canvas_h,
        0 <= col < f.cols,
        0 <= row < f.rows,
    ensures
        0 <= col * setup.cell_w(),
        0 <= row * setup.cell_h(),
        setup.layout.content_x + col * setup.cell_w() + setup.cell_w() <= setup.layout.canvas_w,
        setup.layout.content_y + row * setup.cell_h() + setup.cell_h() <= setup.layout.canvas_h,
        0 <= row * f.cols + col < f.cells@.len(),
{
    let w = setup.cell_w() as int;
    let h = setup.cell_h() as int;
    assert(0 <= col * w && col * w + w <= f.cols * w) by (nonlinear_arith)
        requires
            0 <= col < f.cols,
            0 <= w,
    ;
    assert(0 <= row * h && row * h + h <= f.rows * h) by (nonlinear_arith)
        requires
            0 <= row < f.rows,
            0 <= h,
    ;
    canvas::lemma_on_canvas(col, row, f.cols as int, f.rows as int);
}

/// A pixel of a cell depends on nothing but the cell once the cell is drawn.
proof fn lemma_cell_drawn(
    setup: RasterSetup,
    f: RawFrame,
    sheet: Seq<Vec<GlyphBlit>>,
    ea: Option<Seq<u8>>,
    eb: Option<Seq<u8>>,
    a: Seq<u8>,
    b: Seq<u8>,
    col: int,
    row: int,
    x: int,
    y: int,
)
    requires
        pixel_of_cell(setup, f, col, row, x, y),
        a.len() == setup.layout.canvas_w * setup.layout.canvas_h,
        b.len() == a.len(),
    ensures
        agree(
            raster::with_cell(setup, f, sheet, ea, a, col, row),
            raster::with_cell(setup, f, sheet, eb, b, col, row),
            canvas::at(x, y, setup.layout.canvas_w as int),
        ),
        raster::with_cell(setup, f, sheet, ea, a, col, row).len() == a.len(),
{
    let l = setup.layout;
    let w = l.canvas_w as int;
    let h = l.canvas_h as int;
    lemma_cell_bounds(setup, f, col, row);
    let left = l.content_x + col * setup.cell_w();
    let top = l.content_y + row * setup.cell_h();
    canvas::lemma_on_canvas(x, y, w, h);
    let i = canvas::at(x, y, w);
    let colors = raster::drawn_colors(f, col, row);
    palette::lemma_closest(colors.1, setup.colors@);
    palette::lemma_closest(colors.0, setup.colors@);
    assert(canvas::at(left, y, w) + setup.cell_w() <= w * h) by (nonlinear_arith)
        requires
            canvas::at(left, y, w) == y * w + left,
            left + setup.cell_w() <= w,
            0 <= y < h,
            0 <= left,
    ;
    lemma_in_rows(
        a.len() as int,
        w,
        left,
        top,
        setup.cell_w() as int,
        top + setup.cell_h(),
        x,
        y,
    );
    let ground = palette::closest(colors.1, setup.colors@);
    let ga = canvas::filled_rect(
        a,
        l.canvas_w,
        left as u32,
        top as u32,
        setup.cell_w(),
        setup.cell_h(),
        ground,
    );
    let gb = canvas::filled_rect(
        b,
        l.canvas_w,
        left as u32,
        top as u32,
        setup.cell_w(),
        setup.cell_h(),
        ground,
    );
    assert(agree(ga, gb, i));
    let glyphs = sheet[row * f.cols + col]@;
    lemma_lettered_agree(
        ga,
        gb,
        setup.paint(ea, f.default_bg),
        setup.paint(eb, f.default_bg),
        glyphs,
        colors.0,
        glyphs.len() as int,
        i,
    );
    lemma_lettered_len(
        ga,
        setup.paint(ea, f.default_bg),
        glyphs,
        colors.0,
        glyphs.len() as int,
    );
}

/// Drawing another cell leaves a pixel alone.
proof fn lemma_other_cell_drawn(
    setup: RasterSetup,
    f: RawFrame,
    sheet: Seq<Vec<GlyphBlit>>,
    earlier: Option<Seq<u8>>,
    buf: Seq<u8>,
    col: int,
    row: int,
    c: int,
    r: int,
    x: int,
    y: int,
)
    requires
        pixel_of_cell(setup, f, col, row, x, y),
        buf.len() == setup.layout.canvas_w * setup.layout.canvas_h,
        sheet.len() == f.cells@.len(),
        0 <= c < f.cols,
        0 <= r < f.rows,
        r * f.cols + c != row * f.cols + col,
        apart(sheet, row * f.cols + col, x, y),
    ensures
        raster::with_cell(setup, f, sheet, earlier, buf, c, r).len() == buf.len(),
        raster::with_cell(setup, f, sheet, earlier, buf, c, r)[canvas::at(
            x,
            y,
            setup.layout.canvas_w as int,
        )] == buf[canvas::at(x, y, setup.layout.canvas_w as int)],
{
    let l = setup.layout;
    let w = l.canvas_w as int;
    let h = l.canvas_h as int;
    lemma_cell_bounds(setup, f, col, row);
    lemma_cell_bounds(setup, f, c, r);
    let left = l.content_x + c * setup.cell_w();
    let top = l.content_y + r * setup.cell_h();
    canvas::lemma_on_canvas(x, y, w, h);
    let i = canvas::at(x, y, w);
    let len = buf.len() as int;
    if left <= x < left + setup.cell_w() && top <= y < top + setup.cell_h() {
        lemma_one_place(l.content_x as int, setup.cell_w() as int, c, col, x);
        lemma_one_place(l.content_y as int, setup.cell_h() as int, r, row, y);
    }
    lemma_in_rows(len, w, left, top, setup.cell_w() as int, top + setup.cell_h(), x, y);
    let colors = raster::drawn_colors(f, c, r);
    let ground = canvas::filled_rect(
        buf,
        l.canvas_w,
        left as u32,
        top as u32,
        setup.cell_w(),
        setup.cell_h(),
        palette::closest(colors.1, setup.colors@),
    );
    assert(ground[i] == buf[i]);
    let k = r * f.cols + c;
    let glyphs = sheet[k]@;
    assert forall|j: int| 0 <= j < glyphs.len() implies !reaches(#[trigger] glyphs[j], x, y) by {
        assert(!reaches(sheet[k]@[j], x, y));
    }
    lemma_lettered_clear(
        ground,
        setup.paint(earlier, f.default_bg),
        glyphs,
        colors.0,
        glyphs.len() as int,
        x,
        y,
    );
    let uy = top + (if setup.cell_h() >= 2 {
        setup.cell_h() - 2
    } else {
        0
    });
    lemma_in_rows(len, w, left, uy, setup.cell_w() as int, uy + 1, x, y);
}

/// Of the first `n` cells, only the one of the pixel draws it, and only if it
/// changed.
proof fn lemma_cells_drawn(
    setup: RasterSetup,
    f: RawFrame,
    prev: Option<&RawFrame>,
    sheet: Seq<Vec<GlyphBlit>>,
    earlier: Option<Seq<u8>>,
    buf: Seq<u8>,
    n: int,
    col: int,
    row: int,
    x: int,
    y: int,
)
    requires
        pixel_of_cell(setup, f, col, row, x, y),
        buf.len() == setup.layout.canvas_w * setup.layout.canvas_h,
        sheet.len() == f.cells@.len(),
        apart(sheet, row * f.cols + col, x, y),
        0 <= n <= f.cols * f.rows,
    ensures
        raster::with_cells(setup, f, prev, sheet, earlier, buf, n).len() == buf.len(),
        row * f.cols + col < n && raster::cell_changed(setup, col, row, f, prev) ==> agree(
            raster::with_cells(setup, f, prev, sheet, earlier, buf, n),
            raster::with_cell(setup, f, sheet, None, stream::blank(setup), col, row),
            canvas::at(x, y, setup.layout.canvas_w as int),
        ),
        !(row * f.cols + col < n && raster::cell_changed(setup, col, row, f, prev))
            ==> raster::with_cells(setup, f, prev, sheet, earlier, buf, n)[canvas::at(
            x,
            y,
            setup.layout.canvas_w as int,
        )] == buf[canvas::at(x, y, setup.layout.canvas_w as int)],
    decreases n,
{
    if n > 0 {
        lemma_cells_drawn(setup, f, prev, sheet, earlier, buf, n - 1, col, row, x, y);
        let before = raster::with_cells(setup, f, prev, sheet, earlier, buf, n - 1);
        let cols = f.cols as int;
        canvas::lemma_place(n - 1, cols, f.rows as int);
        let c = (n - 1) % cols;
        let r = (n - 1) / cols;
        assert(r * f.cols + c == n - 1);
        if n - 1 == row * f.cols + col {
            canvas::lemma_on_canvas(col, row, cols, f.rows as int);
            lemma_cell_drawn(
                setup,
                f,
                sheet,
                earlier,
                None,
                before,
                stream::blank(setup),
                col,
                row,
                x,
                y,
            );
        } else {
            lemma_other_cell_drawn(
                setup,
                f,
                sheet,
                earlier,
                before,
                col,
                row,
                c,
                r,
                x,
                y,
            );
        }
    }
}

proof fn lemma_mouse_agree(
    setup: RasterSetup,
    f: RawFrame,
    ea: Option<Seq<u8>>,
    eb: Option<Seq<u8>>,
    a: Seq<u8>,
    b: Seq<u8>,
    i: int,
)
    requires
        agree(a, b, i),
    ensures
        agree(raster::with_mouse(setup, f, ea, a), raster::with_mouse(setup, f, eb, b), i),
{
    match f.mouse_cursor {
        None => {},
        Some(m) => {
            let p = setup.paint(ea, f.default_bg);
            let q = setup.paint(eb, f.default_bg);
            let x = setup.mouse_x(m);
            let y = setup.mouse_y(m);
            let r = stamp::RIPPLE_RADIUS;
            let opacity = match m.2 {
                MouseState::Clicking => stamp::CLICK_OPACITY as int,
                _ => stamp::DRAG_OPACITY as int,
            };
            lemma_stamped_agree(
                a,
                b,
                p,
                q,
                stamp::ripple_ink(r as int, stamp::RIPPLE_COLOR, opacity),
                x - r,
                y - r,
                2 * r + 1,
                2 * r + 1,
                i,
            );
            let (ga, gb) = match m.2 {
                MouseState::Moving => (a, b),
                _ => (stamp::rippled(a, p, x, y, opacity), stamp::rippled(b, q, x, y, opacity)),
            };
            lemma_stamped_agree(
                ga,
                gb,
                p,
                q,
                stamp::arrow_ink(m.2 == MouseState::Clicking),
                x + crate::pointer::MIN,
                y + crate::pointer::MIN,
                stamp::ARROW_W as int,
                stamp::ARROW_H as int,
                i,
            );
        },
    }
}

/// A mouse that is not over a cell leaves its pixels alone.
proof fn lemma_mouse_clear(
    setup: RasterSetup,
    f: RawFrame,
    earlier: Option<Seq<u8>>,
    buf: Seq<u8>,
    col: int,
    row: int,
    x: int,
    y: int,
)
    requires
        in_cell(setup, col, row, x, y),
        !raster::mouse_over(setup, col, row, f.mouse_cursor),
        0 <= x < setup.layout.canvas_w,
        0 <= y,
        canvas::at(x, y, setup.layout.canvas_w as int) < buf.len(),
    ensures
        raster::with_mouse(setup, f, earlier, buf).len() == buf.len(),
        raster::with_mouse(setup, f, earlier, buf)[canvas::at(
            x,
            y,
            setup.layout.canvas_w as int,
        )] == buf[canvas::at(x, y, setup.layout.canvas_w as int)],
{
    canvas::lemma_at(x, y, setup.layout.canvas_w as int);
}

/// Margin and padding are not in a cell.
proof fn lemma_restored_clear(
    setup: RasterSetup,
    f: RawFrame,
    buf: Seq<u8>,
    mouse: Option<(Measure, Measure, MouseState)>,
    col: int,
    row: int,
    x: int,
    y: int,
)
    requires
        pixel_of_cell(setup, f, col, row, x, y),
        buf.len() == setup.layout.canvas_w * setup.layout.canvas_h,
    ensures
        raster::restored(setup, f, buf, mouse).len() == buf.len(),
        raster::restored(setup, f, buf, mouse)[canvas::at(x, y, setup.layout.canvas_w as int)]
            == buf[canvas::at(x, y, setup.layout.canvas_w as int)],
{
    lemma_cell_bounds(setup, f, col, row);
    let w = setup.layout.canvas_w as int;
    canvas::lemma_on_canvas(x, y, w, setup.layout.canvas_h as int);
    let cw = setup.cell_w() as int;
    let ch = setup.cell_h() as int;
    assert(col * cw + cw <= f.cols * cw) by (nonlinear_arith)
        requires
            0 <= col < f.cols,
            0 <= cw,
    ;
    assert(row * ch + ch <= f.rows * ch) by (nonlinear_arith)
        requires
            0 <= row < f.rows,
            0 <= ch,
    ;
    assert(raster::in_cells(setup, f, x, y));
}

proof fn lemma_dotted_clear(setup: RasterSetup, buf: Seq<u8>, n: int, i: int)
    requires
        0 <= n <= 3,
        0 <= i < buf.len(),
        forall|k: int|
            0 <= k < 3 ==> !canvas::in_disc(
                setup.layout.canvas_w as int,
                (#[trigger] layout::bar_circles(
                    setup.layout,
                    setup.cfg.frame_style.window_bar,
                )[k]).cx as int,
                layout::bar_circles(setup.layout, setup.cfg.frame_style.window_bar)[k].cy as int,
                layout::bar_circles(setup.layout, setup.cfg.frame_style.window_bar)[k].r as int,
                i,
            ),
    ensures
        raster::dotted(setup, buf, n).len() == buf.len(),
        raster::dotted(setup, buf, n)[i] == buf[i],
    decreases n,
{
    if n > 0 {
        lemma_dotted_clear(setup, buf, n - 1, i);
        let c = layout::bar_circles(setup.layout, setup.cfg.frame_style.window_bar)[n - 1];
        assert(!canvas::in_disc(
            setup.layout.canvas_w as int,
            c.cx as int,
            c.cy as int,
            c.r as int,
            i,
        ));
    }
}

/// The window bar leaves a pixel alone that is clear of it.
proof fn lemma_bar_clear(
    setup: RasterSetup,
    f: RawFrame,
    title: Seq<GlyphBlit>,
    earlier: Option<Seq<u8>>,
    buf: Seq<u8>,
    x: int,
    y: int,
)
    requires
        setup.fits(),
        clear_of_bar(setup, title, x, y),
        0 <= x < setup.layout.canvas_w,
        0 <= y,
        canvas::at(x, y, setup.layout.canvas_w as int) < buf.len(),
    ensures
        raster::barred(setup, f, title, earlier, buf).len() == buf.len(),
        raster::barred(setup, f, title, earlier, buf)[canvas::at(
            x,
            y,
            setup.layout.canvas_w as int,
        )] == buf[canvas::at(x, y, setup.layout.canvas_w as int)],
{
    let l = setup.layout;
    let w = l.canvas_w as int;
    canvas::lemma_at(x, y, w);
    let i = canvas::at(x, y, w);
    lemma_in_rows(
        buf.len() as int,
        w,
        l.frame_x as int,
        l.frame_y as int,
        l.frame_w as int,
        l.frame_y + l.bar_h,
        x,
        y,
    );
    let blank = canvas::filled_rect(
        buf,
        l.canvas_w,
        l.frame_x,
        l.frame_y,
        l.frame_w,
        l.bar_h,
        palette::closest(f.default_bg, setup.colors@),
    );
    assert(blank[i] == buf[i]);
    lemma_dotted_clear(setup, blank, 3, i);
    lemma_lettered_clear(
        raster::dotted(setup, blank, 3),
        setup.paint(earlier, f.default_bg),
        title,
        raster::TITLE_COLOR,
        title.len() as int,
        x,
        y,
    );
}

/// The first picture shows every cell of the first frame.
pub proof fn lemma_first_frame_seen(
    setup: RasterSetup,
    f: RawFrame,
    sheet: GlyphSheet,
    earlier: Option<Seq<u8>>,
    buf: Seq<u8>,
    col: int,
    row: int,
    x: int,
    y: int,
)
    requires
        pixel_of_cell(setup, f, col, row, x, y),
        buf.len() == setup.layout.canvas_w * setup.layout.canvas_h,
        raster::sheet_fits(sheet, f),
        apart(sheet.cells@, row * f.cols + col, x, y),
    ensures
        raster::rasterized(setup, f, None, sheet, earlier, buf)[canvas::at(
            x,
            y,
            setup.layout.canvas_w as int,
        )] == frame_pixel(setup, f, sheet, col, row, x, y),
        frame_pixel(setup, f, sheet, col, row, x, y) != TRANSPARENT_COLOR_INDEX,
        raster::rasterized(setup, f, None, sheet, earlier, buf).len() == buf.len(),
{
    let l = setup.layout;
    let w = l.canvas_w as int;
    lemma_cell_bounds(setup, f, col, row);
    canvas::lemma_on_canvas(x, y, w, l.canvas_h as int);
    canvas::lemma_on_canvas(col, row, f.cols as int, f.rows as int);
    let i = canvas::at(x, y, w);
    let ground = raster::prepared(setup, f, None, buf);
    let bar = if setup.cfg.frame_style.window_bar.spec_enabled() {
        raster::barred(setup, f, sheet.title@, earlier, ground)
    } else {
        ground
    };
    lemma_barred_len(setup, f, sheet.title@, earlier, ground);
    assert(bar.len() == buf.len());
    let n = f.cols * f.rows;
    lemma_cells_drawn(setup, f, None, sheet.cells@, earlier, bar, n, col, row, x, y);
    let grid = raster::with_cells(setup, f, None, sheet.cells@, earlier, bar, n);
    let alone = raster::with_cell(setup, f, sheet.cells@, None, stream::blank(setup), col, row);
    assert(row * f.cols + col < n) by {
        assert(f.cells@.len() == n);
    }
    lemma_mouse_agree(setup, f, earlier, None, grid, alone, i);
}

proof fn lemma_dotted_len(setup: RasterSetup, buf: Seq<u8>, n: int)
    ensures
        raster::dotted(setup, buf, n).len() == buf.len(),
    decreases n,
{
    if n > 0 {
        lemma_dotted_len(setup, buf, n - 1);
    }
}

pub(crate) proof fn lemma_lettered_len(buf: Seq<u8>, p: Paint, glyphs: Seq<GlyphBlit>, color: Rgb, n: int)
    ensures
        raster::lettered(buf, p, glyphs, color, n).len() == buf.len(),
    decreases n,
{
    if n > 0 {
        lemma_lettered_len(buf, p, glyphs, color, n - 1);
    }
}

proof fn lemma_barred_len(
    setup: RasterSetup,
    f: RawFrame,
    title: Seq<GlyphBlit>,
    earlier: Option<Seq<u8>>,
    buf: Seq<u8>,
)
    ensures
        raster::barred(setup, f, title, earlier, buf).len() == buf.len(),
{
    let l = setup.layout;
    let blank = canvas::filled_rect(
        buf,
        l.canvas_w,
        l.frame_x,
        l.frame_y,
        l.frame_w,
        l.bar_h,
        palette::closest(f.default_bg, setup.colors@),
    );
    lemma_dotted_len(setup, blank, 3);
    lemma_lettered_len(
        raster::dotted(setup, blank, 3),
        setup.paint(earlier, f.default_bg),
        title,
        raster::TITLE_COLOR,
        title.len() as int,
    );
}

/// Whether two frames of one size have the same colours for the cursor.
pub open spec fn same_terminal(a: RawFrame, b: RawFrame) -> bool {
    &&& a.cols == b.cols
    &&& a.rows == b.rows
    &&& a.default_fg == b.default_fg
    &&& a.default_bg == b.default_bg
    &&& a.cursor_color == b.cursor_color
    &&& a.cursor_accent == b.cursor_accent
}

/// Pictures hold changes only, and yet every frame is seen whole: where a pixel of
/// a cell showed the frame before, it shows the frame once its picture is laid over
/// it. Glyphs of other cells and the window bar must not reach the pixel, and a cell
/// that keeps its text keeps its glyphs.
pub proof fn lemma_next_frame_seen(
    setup: RasterSetup,
    f: RawFrame,
    prev: RawFrame,
    sheet: GlyphSheet,
    prev_sheet: GlyphSheet,
    earlier: Option<Seq<u8>>,
    below: Seq<u8>,
    col: int,
    row: int,
    x: int,
    y: int,
)
    requires
        pixel_of_cell(setup, f, col, row, x, y),
        prev.wf(),
        same_terminal(f, prev),
        raster::sheet_fits(sheet, f),
        raster::sheet_fits(prev_sheet, prev),
        apart(sheet.cells@, row * f.cols + col, x, y),
        setup.cfg.frame_style.window_bar.spec_enabled() ==> clear_of_bar(
            setup,
            sheet.title@,
            x,
            y,
        ),
        f.cell(col, row) == prev.cell(col, row) ==> sheet.cells@[row * f.cols + col]@
            == prev_sheet.cells@[row * f.cols + col]@,
        below[canvas::at(x, y, setup.layout.canvas_w as int)] == frame_pixel(
            setup,
            prev,
            prev_sheet,
            col,
            row,
            x,
            y,
        ),
    ensures
        laid_over(
            below,
            raster::rasterized(setup, f, Some(&prev), sheet, earlier, stream::blank(setup)),
        )[canvas::at(x, y, setup.layout.canvas_w as int)] == frame_pixel(
            setup,
            f,
            sheet,
            col,
            row,
            x,
            y,
        ),
        raster::rasterized(setup, f, Some(&prev), sheet, earlier, stream::blank(setup)).len()
            == setup.layout.canvas_w * setup.layout.canvas_h,
{
    let l = setup.layout;
    let w = l.canvas_w as int;
    lemma_cell_bounds(setup, f, col, row);
    canvas::lemma_on_canvas(x, y, w, l.canvas_h as int);
    canvas::lemma_on_canvas(col, row, f.cols as int, f.rows as int);
    let i = canvas::at(x, y, w);
    let buf = stream::blank(setup);
    assert(buf.len() == l.canvas_w * l.canvas_h) by {
        assert(0 <= l.canvas_w * l.canvas_h) by (nonlinear_arith);
    }
    let one = raster::restored(setup, f, buf, f.mouse_cursor);
    lemma_restored_clear(setup, f, buf, f.mouse_cursor, col, row, x, y);
    lemma_restored_clear(setup, f, one, prev.mouse_cursor, col, row, x, y);
    let ground = raster::prepared(setup, f, Some(&prev), buf);
    assert(ground[i] == TRANSPARENT_COLOR_INDEX);
    let bar = if raster::bar_changed(setup, f, Some(&prev))
        && setup.cfg.frame_style.window_bar.spec_enabled() {
        raster::barred(setup, f, sheet.title@, earlier, ground)
    } else {
        ground
    };
    if setup.cfg.frame_style.window_bar.spec_enabled() {
        lemma_bar_clear(setup, f, sheet.title@, earlier, ground, x, y);
    }
    assert(bar.len() == buf.len() && bar[i] == TRANSPARENT_COLOR_INDEX);
    let n = f.cols * f.rows;
    assert(row * f.cols + col < n) by {
        assert(f.cells@.len() == n);
    }
    lemma_cells_drawn(setup, f, Some(&prev), sheet.cells@, earlier, bar, n, col, row, x, y);
    let grid = raster::with_cells(setup, f, Some(&prev), sheet.cells@, earlier, bar, n);
    let alone = raster::with_cell(setup, f, sheet.cells@, None, buf, col, row);
    let picture = raster::rasterized(setup, f, Some(&prev), sheet, earlier, buf);
    assert(picture == raster::with_mouse(setup, f, earlier, grid));
    if raster::cell_changed(setup, col, row, f, Some(&prev)) {
        lemma_mouse_agree(setup, f, earlier, None, grid, alone, i);
    } else {
        lemma_mouse_clear(setup, f, earlier, grid, col, row, x, y);
        assert(picture[i] == TRANSPARENT_COLOR_INDEX);
        lemma_cell_drawn(setup, f, sheet.cells@, None, None, buf, buf, col, row, x, y);
        lemma_mouse_clear(setup, f, None, alone, col, row, x, y);
        let was = raster::with_cell(setup, prev, prev_sheet.cells@, None, buf, col, row);
        assert(raster::drawn_colors(f, col, row) == raster::drawn_colors(prev, col, row));
        assert(was == alone);
        lemma_mouse_clear(setup, prev, None, was, col, row, x, y);
    }
}

/// What is seen once the first `n` pictures are laid over each other.
pub open spec fn composed(setup: RasterSetup, pictures: Seq<GifFrameView>, n: int) -> Seq<u8>
    decreases n,
{
    if n <= 0 {
        stream::blank(setup)
    } else {
        laid_over(composed(setup, pictures, n - 1), pictures[n - 1].indices)
    }
}

/// Whether a pixel of a cell can be followed through frames: their grids, colours
/// and glyphs go together, and nothing else reaches the pixel.
pub open spec fn followed(
    setup: RasterSetup,
    frames: Seq<RawFrame>,
    sheets: Seq<GlyphSheet>,
    col: int,
    row: int,
    x: int,
    y: int,
) -> bool {
    &&& sheets.len() == frames.len()
    &&& forall|k: int|
        0 <= k < frames.len() ==> {
            &&& pixel_of_cell(setup, #[trigger] frames[k], col, row, x, y)
            &&& same_terminal(frames[k], frames[0])
            &&& raster::sheet_fits(sheets[k], frames[k])
            &&& apart(sheets[k].cells@, row * frames[k].cols + col, x, y)
            &&& setup.cfg.frame_style.window_bar.spec_enabled() ==> clear_of_bar(
                setup,
                sheets[k].title@,
                x,
                y,
            )
        }
    &&& forall|j: int, k: int|
        0 <= j < frames.len() && 0 <= k < frames.len() && (#[trigger] frames[j]).cell(col, row) == (
        #[trigger] frames[k]).cell(col, row) ==> sheets[j].cells@[row * frames[j].cols + col]@
            == sheets[k].cells@[row * frames[k].cols + col]@
}

/// Frames that look alike have the same pixels.
proof fn lemma_alike_pixel(
    setup: RasterSetup,
    frames: Seq<RawFrame>,
    sheets: Seq<GlyphSheet>,
    col: int,
    row: int,
    x: int,
    y: int,
    a: int,
    b: int,
)
    requires
        followed(setup, frames, sheets, col, row, x, y),
        0 <= a < frames.len(),
        0 <= b < frames.len(),
        recording::alike(frames[a], frames[b]),
    ensures
        frame_pixel(setup, frames[a], sheets[a], col, row, x, y) == frame_pixel(
            setup,
            frames[b],
            sheets[b],
            col,
            row,
            x,
            y,
        ),
{
    let f = frames[a];
    let g = frames[b];
    assert(pixel_of_cell(setup, f, col, row, x, y) && pixel_of_cell(setup, g, col, row, x, y));
    lemma_cell_bounds(setup, f, col, row);
    let k = row * f.cols + col;
    assert(f.cells@[k]@ == g.cells@[k]@);
    assert(f.cell(col, row) == g.cell(col, row));
    assert(raster::drawn_colors(f, col, row) == raster::drawn_colors(g, col, row));
    let blank = stream::blank(setup);
    assert(raster::with_cell(setup, f, sheets[a].cells@, None, blank, col, row)
        == raster::with_cell(setup, g, sheets[b].cells@, None, blank, col, row));
}

/// After the first `n` frames, the pictures so far and the one that waits show the
/// frame drawn last, which looks like the frame `n - 1`.
proof fn lemma_played_seen(
    setup: RasterSetup,
    frames: Seq<RawFrame>,
    sheets: Seq<GlyphSheet>,
    n: int,
    col: int,
    row: int,
    x: int,
    y: int,
) -> (d: int)
    requires
        followed(setup, frames, sheets, col, row, x, y),
        1 <= n <= frames.len(),
    ensures
        ({
            let (s, out) = movie::played(setup, frames, sheets, n);
            &&& 0 <= d < n
            &&& s.prev == Some(frames[d])
            &&& d == n - 1 || recording::alike(frames[n - 1], frames[d])
            &&& s.pending is Some
            &&& (s.pending->0).0.len() == setup.layout.canvas_w * setup.layout.canvas_h
            &&& laid_over(
                composed(setup, out, out.len() as int),
                (s.pending->0).0,
            )[canvas::at(x, y, setup.layout.canvas_w as int)] == frame_pixel(
                setup,
                frames[d],
                sheets[d],
                col,
                row,
                x,
                y,
            )
        }),
    decreases n,
{
    let f = frames[n - 1];
    let w = setup.layout.canvas_w as int;
    let i = canvas::at(x, y, w);
    let blank = stream::blank(setup);
    assert(pixel_of_cell(setup, f, col, row, x, y));
    lemma_cell_bounds(setup, f, col, row);
    canvas::lemma_on_canvas(x, y, w, setup.layout.canvas_h as int);
    assert(blank.len() == setup.layout.canvas_w * setup.layout.canvas_h);
    let (s, out) = movie::played(setup, frames, sheets, n - 1);
    if n == 1 {
        lemma_first_frame_seen(setup, f, sheets[0], None, blank, col, row, x, y);
        0
    } else {
        let d = lemma_played_seen(setup, frames, sheets, n - 1, col, row, x, y);
        if stream::repeats(s, f) {
            d
        } else {
            let buf = (s.pending->0).0;
            let below = laid_over(composed(setup, out, out.len() as int), buf);
            let prev = frames[d];
            assert(pixel_of_cell(setup, prev, col, row, x, y));
            assert(same_terminal(f, frames[0]) && same_terminal(prev, frames[0]));
            assert(followed_pair(setup, frames, sheets, col, row, n - 1, d));
            lemma_next_frame_seen(
                setup,
                f,
                prev,
                sheets[n - 1],
                sheets[d],
                s.earlier,
                below,
                col,
                row,
                x,
                y,
            );
            let (t, more) = movie::played(setup, frames, sheets, n);
            assert(more.len() == out.len() + 1);
            assert(more[out.len() as int].indices == buf);
            lemma_composed_prefix(setup, out, more, out.len() as int);
            assert(composed(setup, more, more.len() as int) == below);
            n - 1
        }
    }
}

/// A cell that keeps its text keeps its glyphs.
spec fn followed_pair(
    setup: RasterSetup,
    frames: Seq<RawFrame>,
    sheets: Seq<GlyphSheet>,
    col: int,
    row: int,
    j: int,
    k: int,
) -> bool {
    frames[j].cell(col, row) == frames[k].cell(col, row) ==> sheets[j].cells@[row * frames[j].cols
        + col]@ == sheets[k].cells@[row * frames[k].cols + col]@
}

proof fn lemma_composed_prefix(
    setup: RasterSetup,
    a: Seq<GifFrameView>,
    b: Seq<GifFrameView>,
    n: int,
)
    requires
        forall|k: int| 0 <= k < n ==> a[k] == b[k],
    ensures
        composed(setup, a, n) == composed(setup, b, n),
    decreases n,
{
    if n > 0 {
        lemma_composed_prefix(setup, a, b, n - 1);
    }
}

/// Further frames leave the pictures so far as they are, and write down the one that
/// waits as it is.
proof fn lemma_played_on(
    setup: RasterSetup,
    frames: Seq<RawFrame>,
    sheets: Seq<GlyphSheet>,
    n: int,
    m: int,
)
    requires
        0 <= n <= m,
        movie::played(setup, frames, sheets, n).0.pending is Some,
    ensures
        ({
            let (s, out) = movie::played(setup, frames, sheets, n);
            let (t, more) = movie::played(setup, frames, sheets, m);
            &&& t.pending is Some
            &&& out.len() <= more.len()
            &&& forall|k: int| 0 <= k < out.len() ==> more[k] == out[k]
            &&& out.len() == more.len() ==> (t.pending->0).0 == (s.pending->0).0
            &&& out.len() < more.len() ==> more[out.len() as int].indices == (s.pending->0).0
        }),
    decreases m,
{
    if n < m {
        lemma_played_on(setup, frames, sheets, n, m - 1);
    }
}

/// The pictures of a recording show each of its frames: once the pictures up to that of
/// the last frame that was drawn, at or before the frame `k`, are laid over each other,
/// the frame `k` is seen. Up to the last frame, these are all pictures.
pub proof fn lemma_movie_seen(
    setup: RasterSetup,
    frames: Seq<RawFrame>,
    sheets: Seq<GlyphSheet>,
    k: int,
    col: int,
    row: int,
    x: int,
    y: int,
)
    requires
        0 <= k < frames.len(),
        followed(setup, frames, sheets, col, row, x, y),
    ensures
        ({
            let pictures = movie::movie(setup, frames, sheets);
            let n = movie::drawn_times(frames, k + 1).1.len() as int;
            &&& 0 < n <= pictures.len()
            &&& k == frames.len() - 1 ==> n == pictures.len()
            &&& composed(setup, pictures, n)[canvas::at(x, y, setup.layout.canvas_w as int)]
                == frame_pixel(setup, frames[k], sheets[k], col, row, x, y)
        }),
{
    let d = lemma_played_seen(setup, frames, sheets, k + 1, col, row, x, y);
    let (s, out) = movie::played(setup, frames, sheets, k + 1);
    let (t, more) = movie::played(setup, frames, sheets, frames.len() as int);
    let pictures = movie::movie(setup, frames, sheets);
    movie::lemma_pictures_last(setup, frames, sheets, k + 1);
    movie::lemma_movie_length(setup, frames, sheets);
    lemma_played_on(setup, frames, sheets, k + 1, frames.len() as int);
    assert(pictures.len() == more.len() + 1);
    assert forall|j: int| 0 <= j < out.len() implies out[j] == pictures[j] by {
        assert(more[j] == out[j]);
    }
    assert(pictures[out.len() as int].indices == (s.pending->0).0);
    lemma_composed_prefix(setup, out, pictures, out.len() as int);
    if d != k {
        lemma_alike_pixel(setup, frames, sheets, col, row, x, y, k, d);
    }
}

} // verus!
