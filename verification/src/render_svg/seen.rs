//! What lies over the grid of a document: cursor, mouse and title, said of the frames it
//! was made from.
use vstd::prelude::*;

use crate::recording::RawFrame;
use crate::render_svg::document;
use crate::render_svg::document::SvgDoc;
use crate::render_svg::elements;
use crate::render_svg::elements::{CursorRect, MouseSpan, TitleSegmentView};
use crate::render_svg::laws;
use crate::render_svg::layout;
use crate::render_svg::overlay;
use crate::render_svg::render::RenderInput;
use crate::render_svg::tracks;
use crate::render_svg::tracks::Hold;
use crate::single;
use crate::single::{Measure, ONE};
use crate::sort;
use crate::style::{Rgb, WindowBarStyle};
use crate::viewport::CanvasLayout;

verus! {

/// Whether a rectangle is that of a hold.
spec fn is_rect_of(
    r: CursorRect,
    s: Hold<(u16, u16, Rgb)>,
    x: u32,
    y: u32,
    w: u32,
    h: u32,
) -> bool {
    &&& r.x == (x + s.value.0 * w) as u32
    &&& r.y == (y + s.value.1 * h) as u32
    &&& r.w == w
    &&& r.h == h
    &&& r.fill == s.value.2
    &&& r.start_ms == s.start_ms
    &&& r.end_ms == s.end_ms
}

/// Each rectangle is that of a hold, and each hold that takes any time has one.
proof fn lemma_cursor_rects(v: Seq<Hold<(u16, u16, Rgb)>>, x: u32, y: u32, w: u32, h: u32)
    ensures
        ({
            let r = tracks::cursor_rects(v, x, y, w, h);
            &&& forall|i: int|
                0 <= i < r.len() ==> exists|k: int|
                    0 <= k < v.len() && is_rect_of(#[trigger] r[i], #[trigger] v[k], x, y, w, h)
            &&& forall|k: int|
                0 <= k < v.len() && (#[trigger] v[k]).start_ms != v[k].end_ms ==> exists|i: int|
                    0 <= i < r.len() && is_rect_of(#[trigger] r[i], v[k], x, y, w, h)
        }),
    decreases v.len(),
{
    let r = tracks::cursor_rects(v, x, y, w, h);
    if v.len() > 0 {
        let d = v.drop_last();
        let q = tracks::cursor_rects(d, x, y, w, h);
        lemma_cursor_rects(d, x, y, w, h);
        assert forall|i: int| 0 <= i < r.len() implies exists|k: int|
            0 <= k < v.len() && is_rect_of(#[trigger] r[i], #[trigger] v[k], x, y, w, h) by {
            if i < q.len() {
                assert(r[i] == q[i]);
                let k = choose|k: int|
                    0 <= k < d.len() && is_rect_of(q[i], #[trigger] d[k], x, y, w, h);
                assert(v[k] == d[k]);
            } else {
                assert(is_rect_of(r[i], v[v.len() - 1], x, y, w, h));
            }
        }
        assert forall|k: int|
            0 <= k < v.len() && (#[trigger] v[k]).start_ms != v[k].end_ms implies exists|i: int|
            0 <= i < r.len() && is_rect_of(#[trigger] r[i], v[k], x, y, w, h) by {
            if k < d.len() {
                assert(d[k] == v[k]);
                let i = choose|i: int|
                    0 <= i < q.len() && is_rect_of(#[trigger] q[i], d[k], x, y, w, h);
                assert(r[i] == q[i]);
            } else {
                assert(is_rect_of(r[q.len() as int], v[k], x, y, w, h));
            }
        }
    }
}

/// Whether a rectangle lies on the cell of the cursor of a frame, in the colour of the
/// cursor, or in the default foreground where it has none.
pub open spec fn is_cursor_of(r: CursorRect, f: RawFrame, input: RenderInput) -> bool {
    f.cursor matches Some((col, row)) && {
        &&& r.x == input.layout.content_x + col * input.cfg.cell_w()
        &&& r.y == input.layout.content_y + row * input.cfg.cell_h()
        &&& r.w == input.cfg.cell_w()
        &&& r.h == input.cfg.cell_h()
        &&& f.cursor_color matches Some(c) ==> r.fill == c
        &&& f.cursor_color is None ==> r.fill == f.default_fg
    }
}

/// A document shows the cursor where it was recorded: while a frame is on screen that has
/// one, it is on its cell and in its colour and nowhere else, and while one is on screen
/// that has none, there is none.
pub proof fn lemma_document_shows_cursor(
    doc: SvgDoc,
    frames: Seq<RawFrame>,
    input: RenderInput,
    total_ms: u32,
    n: int,
    t: u32,
)
    requires
        laws::documents(doc, frames, input, total_ms),
        laws::on_screen(frames, n, t, total_ms),
    ensures
        frames[n].cursor is Some ==> exists|i: int|
            0 <= i < doc.cursor_rects@.len() && (#[trigger] doc.cursor_rects@[i]).start_ms <= t
                < doc.cursor_rects@[i].end_ms && is_cursor_of(
                doc.cursor_rects@[i],
                frames[n],
                input,
            ),
        forall|i: int|
            0 <= i < doc.cursor_rects@.len() && (#[trigger] doc.cursor_rects@[i]).start_ms <= t
                < doc.cursor_rects@[i].end_ms ==> is_cursor_of(
                doc.cursor_rects@[i],
                frames[n],
                input,
            ),
{
    let s = tracks::cursors_of(frames);
    let v = tracks::holds(s, total_ms);
    let (x, y) = (input.layout.content_x, input.layout.content_y);
    let (w, h) = (input.cfg.cell_w(), input.cfg.cell_h());
    lemma_cursor_rects(v, x, y, w, h);
    assert forall|a: int, b: int| 0 <= a <= b < s.len() implies (#[trigger] s[a]).0 <= (
    #[trigger] s[b]).0 by {
        assert(frames[a].t_ms <= frames[b].t_ms);
    }
    assert(input.frame_fits(frames[n]));
    if let Some((col, row)) = frames[n].cursor {
        assert(0 <= col * w && 0 <= row * h) by (nonlinear_arith);
        let c = tracks::cursor_of(frames[n])->0;
        tracks::lemma_holds_follow(s, total_ms, n, t, c);
        let k = choose|k: int|
            0 <= k < v.len() && (#[trigger] v[k]).start_ms <= t < v[k].end_ms && v[k].value == c;
        let i = choose|i: int|
            0 <= i < doc.cursor_rects@.len() && is_rect_of(
                #[trigger] doc.cursor_rects@[i],
                v[k],
                x,
                y,
                w,
                h,
            );
        assert(doc.cursor_rects@[i].start_ms <= t < doc.cursor_rects@[i].end_ms);
    }
    assert forall|i: int|
        0 <= i < doc.cursor_rects@.len() && (#[trigger] doc.cursor_rects@[i]).start_ms <= t
            < doc.cursor_rects@[i].end_ms implies is_cursor_of(
        doc.cursor_rects@[i],
        frames[n],
        input,
    ) by {
        let k = choose|k: int|
            0 <= k < v.len() && is_rect_of(doc.cursor_rects@[i], #[trigger] v[k], x, y, w, h);
        tracks::lemma_holds_follow(s, total_ms, n, t, v[k].value);
        assert(tracks::holds_at(v, t, v[k].value));
        assert(s[n].1 == Some(v[k].value));
        assert(0 <= v[k].value.0 * w && 0 <= v[k].value.1 * h) by (nonlinear_arith);
    }
}

/// Whether a span is where the mouse of a frame is, in its state.
pub open spec fn is_mouse_of(m: MouseSpan, f: RawFrame, input: RenderInput) -> bool {
    f.mouse_cursor matches Some((col, row, state)) && {
        &&& m.cx == tracks::cell_middle(input.layout.content_x, col, input.cfg.cell_w())
        &&& m.cy == tracks::cell_middle(input.layout.content_y, row, input.cfg.cell_h())
        &&& m.state == state
    }
}

/// A document shows the mouse where it was recorded and in its state: while a frame is on
/// screen that has one there and nowhere else, and while one is on screen that has none,
/// not at all.
pub proof fn lemma_document_shows_mouse(
    doc: SvgDoc,
    frames: Seq<RawFrame>,
    input: RenderInput,
    total_ms: u32,
    n: int,
    t: u32,
)
    requires
        laws::documents(doc, frames, input, total_ms),
        laws::on_screen(frames, n, t, total_ms),
    ensures
        frames[n].mouse_cursor is Some ==> exists|i: int|
            0 <= i < doc.mouse_spans@.len() && (#[trigger] doc.mouse_spans@[i]).start_ms <= t
                < doc.mouse_spans@[i].end_ms && is_mouse_of(
                doc.mouse_spans@[i],
                frames[n],
                input,
            ),
        forall|i: int|
            0 <= i < doc.mouse_spans@.len() && (#[trigger] doc.mouse_spans@[i]).start_ms <= t
                < doc.mouse_spans@[i].end_ms ==> is_mouse_of(
                doc.mouse_spans@[i],
                frames[n],
                input,
            ),
{
    let s = tracks::mice_of(frames);
    let v = tracks::holds(s, total_ms);
    let (x, y) = (input.layout.content_x, input.layout.content_y);
    let (w, h) = (input.cfg.cell_w(), input.cfg.cell_h());
    assert forall|a: int, b: int| 0 <= a <= b < s.len() implies (#[trigger] s[a]).0 <= (
    #[trigger] s[b]).0 by {
        assert(frames[a].t_ms <= frames[b].t_ms);
    }
    assert(input.frame_fits(frames[n]));
    let spans = doc.mouse_spans@;
    if let Some(m) = frames[n].mouse_cursor {
        lemma_middle_fits(x, m.0, w);
        lemma_middle_fits(y, m.1, h);
        tracks::lemma_holds_follow(s, total_ms, n, t, m);
        let k = choose|k: int|
            0 <= k < v.len() && (#[trigger] v[k]).start_ms <= t < v[k].end_ms && v[k].value == m;
        assert(spans[k] == tracks::mouse_span(v[k], x, y, w, h));
        assert(spans[k].start_ms <= t < spans[k].end_ms);
    }
    assert forall|i: int|
        0 <= i < spans.len() && (#[trigger] spans[i]).start_ms <= t < spans[i].end_ms implies
        is_mouse_of(spans[i], frames[n], input) by {
        assert(spans[i] == tracks::mouse_span(v[i], x, y, w, h));
        tracks::lemma_holds_follow(s, total_ms, n, t, v[i].value);
        assert(tracks::holds_at(v, t, v[i].value));
        assert(s[n].1 == Some(v[i].value));
    }
}

/// The middle of a cell within bounds can be written down.
proof fn lemma_middle_fits(origin: u32, at: Measure, side: u32)
    requires
        tracks::middle_fits(origin, at, side),
    ensures
        i128::MIN <= tracks::cell_middle(origin, at, side) <= i128::MAX,
{
    single::lemma_whole_exact(origin);
    single::lemma_single_bounds(at * side);
    single::lemma_single_bounds(single::whole(origin) + single::single(at * side));
    single::lemma_single_bounds(
        single::single(single::whole(origin) + single::single(at * side)) + side * ONE / 2,
    );
}

/// A mouse on a cell points to its middle.
pub proof fn lemma_mouse_in_middle(origin: u32, col: u16, side: u32)
    requires
        2 * (origin + col * side) + side <= 0xff_ffff,
    ensures
        tracks::cell_middle(origin, (col * ONE) as i128, side) == (origin + col * side) * ONE
            + side * ONE / 2,
{
    let k = col * side;
    assert(0 <= k) by (nonlinear_arith)
        requires
            k == col * side,
    ;
    assert((col * ONE) * side == k * ONE) by (nonlinear_arith)
        requires
            k == col * side,
    ;
    single::lemma_whole_exact(origin);
    single::lemma_whole_exact(k as u32);
    single::lemma_whole_exact((origin + k) as u32);
    let h = (2 * (origin + k) + side) as nat;
    vstd::arithmetic::power2::lemma2_to64();
    vstd::arithmetic::power2::lemma2_to64_rest();
    single::lemma_single_shifted(h, 63);
    single::lemma_single_exact(h);
    let half = vstd::arithmetic::power2::pow2(63);
    assert(half * 2 == ONE);
    assert((origin + k) * ONE + side * ONE / 2 == h * half) by (nonlinear_arith)
        requires
            half * 2 == ONE,
            h == 2 * (origin + k) + side,
            side >= 0,
    ;
}

/// Whether a title stands at the moment `t`.
pub open spec fn titled(v: Seq<TitleSegmentView>, t: u32, title: Seq<char>) -> bool {
    exists|i: int|
        0 <= i < v.len() && (#[trigger] v[i]).start_ms <= t < v[i].end_ms && v[i].title == title
}

proof fn lemma_titled_add(
    a: Seq<TitleSegmentView>,
    b: Seq<TitleSegmentView>,
    t: u32,
    title: Seq<char>,
)
    ensures
        titled(a + b, t, title) == (titled(a, t, title) || titled(b, t, title)),
{
    let r = a + b;
    if titled(a, t, title) {
        let i = choose|i: int|
            0 <= i < a.len() && (#[trigger] a[i]).start_ms <= t < a[i].end_ms && a[i].title
                == title;
        assert(r[i] == a[i]);
    }
    if titled(b, t, title) {
        let i = choose|i: int|
            0 <= i < b.len() && (#[trigger] b[i]).start_ms <= t < b[i].end_ms && b[i].title
                == title;
        assert(r[a.len() + i] == b[i]);
    }
    if titled(r, t, title) {
        let i = choose|i: int|
            0 <= i < r.len() && (#[trigger] r[i]).start_ms <= t < r[i].end_ms && r[i].title
                == title;
        if i < a.len() {
            assert(a[i] == r[i]);
        } else {
            assert(b[i - a.len()] == r[i]);
        }
    }
}

proof fn lemma_title_piece(title: Option<Seq<char>>, start: u32, end: u32, t: u32, x: Seq<char>)
    ensures
        titled(tracks::title_piece(title, start, end), t, x) == (start <= t < end && title
            == Some(x) && x.len() > 0),
{
    let p = tracks::title_piece(title, start, end);
    if start <= t < end && title == Some(x) && x.len() > 0 {
        assert(p[0].start_ms <= t < p[0].end_ms);
    }
}

proof fn lemma_titles_after(frames: Seq<RawFrame>, n: int, t: u32, x: Seq<char>)
    requires
        1 <= n <= frames.len(),
        forall|i: int, j: int|
            0 <= i <= j < frames.len() ==> (#[trigger] frames[i]).t_ms <= (
            #[trigger] frames[j]).t_ms,
    ensures
        ({
            let (done, start) = tracks::titles_after(frames, n);
            &&& start <= frames[n - 1].t_ms
            &&& titled(done, t, x) ==> t < start
            &&& start <= t && t < frames[n - 1].t_ms ==> forall|k: int|
                0 <= k < n - 1 && frames[k].t_ms <= t && t < (#[trigger] frames[k + 1]).t_ms
                    ==> elements::clip_text(frames[k].title) == elements::clip_text(
                    frames[n - 1].title,
                )
            &&& t < start ==> forall|k: int|
                0 <= k < n - 1 && frames[k].t_ms <= t && t < (#[trigger] frames[k + 1]).t_ms
                    ==> titled(done, t, x) == (elements::clip_text(frames[k].title) == Some(x)
                    && x.len() > 0)
        }),
    decreases n,
{
    if n > 1 {
        lemma_titles_after(frames, n - 1, t, x);
        let (before, from) = tracks::titles_after(frames, n - 1);
        let (done, start) = tracks::titles_after(frames, n);
        let title = elements::clip_text(frames[n - 2].title);
        assert(frames[n - 2].t_ms <= frames[n - 1].t_ms);
        lemma_title_piece(title, from, frames[n - 1].t_ms, t, x);
        lemma_titled_add(before, tracks::title_piece(title, from, frames[n - 1].t_ms), t, x);
        assert forall|k: int|
            0 <= k < n - 1 && frames[k].t_ms <= t && t < (#[trigger] frames[k + 1]).t_ms implies (
        start <= t && t < frames[n - 1].t_ms ==> elements::clip_text(frames[k].title)
            == elements::clip_text(frames[n - 1].title)) && (t < start ==> titled(done, t, x) == (
        elements::clip_text(frames[k].title) == Some(x) && x.len() > 0)) by {
            if k < n - 2 {
                assert(frames[k + 1].t_ms <= frames[n - 2].t_ms);
            }
        }
    }
}

/// The title of a document is the one that the settings give it, all the time; or else,
/// while a frame is on screen, the title of that frame, unless that is empty.
pub proof fn lemma_document_titled(
    doc: SvgDoc,
    frames: Seq<RawFrame>,
    input: RenderInput,
    total_ms: u32,
    n: int,
    t: u32,
    title: Seq<char>,
)
    requires
        laws::documents(doc, frames, input, total_ms),
        laws::on_screen(frames, n, t, total_ms),
        t < document::timer_ms(doc.master_timer_dur),
    ensures
        input.opts.window_bar_title matches Some(own) ==> titled(
            sort::views(doc.title_segments@),
            t,
            title,
        ) == (own@ == title),
        input.opts.window_bar_title is None ==> titled(sort::views(doc.title_segments@), t, title)
            == ((frames[n].title matches Some(own) && own@ == title) && title.len() > 0),
{
    let v = sort::views(doc.title_segments@);
    let end = document::timer_ms(doc.master_timer_dur);
    let len = frames.len() as int;
    match input.opts.window_bar_title {
        Some(own) => {
            assert(v == seq![TitleSegmentView { title: own@, start_ms: 0, end_ms: end }]);
            assert(v[0].start_ms <= t < v[0].end_ms);
        },
        None => {
            let (done, start) = tracks::titles_after(frames, len);
            let last = elements::clip_text(frames.last().title);
            lemma_titles_after(frames, len, t, title);
            lemma_title_piece(last, start, end, t, title);
            lemma_titled_add(done, tracks::title_piece(last, start, end), t, title);
            if n < len - 1 {
                assert(frames[n].t_ms <= t && t < frames[n + 1].t_ms);
                assert(frames[n + 1].t_ms <= frames[len - 1].t_ms);
            }
        },
    }
}

/// In each interval between the moments at which cursors come and go, the rectangle of
/// their group is visible exactly if one of them lasts throughout, and it is on one of
/// those.
pub proof fn lemma_cursor_in_interval(v: Seq<CursorRect>, b: Seq<u32>, k: int)
    requires
        v.len() > 0,
        0 <= k,
    ensures
        ({
            let (x, y, shown) = overlay::cursor_state(v, b, k);
            &&& shown <==> exists|i: int|
                0 <= i < v.len() && (#[trigger] v[i]).start_ms <= b[k] && b[k + 1] <= v[i].end_ms
            &&& shown ==> exists|i: int|
                0 <= i < v.len() && (#[trigger] v[i]).start_ms <= b[k] && b[k + 1] <= v[i].end_ms
                    && v[i].x == x && v[i].y == y
        }),
{
    lemma_active_cursor(v, b[k], b[k + 1], 0);
}

proof fn lemma_active_cursor(v: Seq<CursorRect>, start: u32, end: u32, i: int)
    requires
        0 <= i,
    ensures
        match overlay::active_cursor(v, start, end, i) {
            Some(c) => exists|k: int|
                i <= k < v.len() && (#[trigger] v[k]).start_ms <= start && end <= v[k].end_ms && v[k]
                    == c,
            None => forall|k: int|
                i <= k < v.len() ==> !((#[trigger] v[k]).start_ms <= start && end <= v[k].end_ms),
        },
    decreases v.len() - i,
{
    if i < v.len() && !(v[i].start_ms <= start && end <= v[i].end_ms) {
        lemma_active_cursor(v, start, end, i + 1);
    }
}

/// In each interval between the moments at which the mouse changes, it is visible exactly
/// if one of its spans lasts throughout, and it has the place and the state of one of
/// those.
pub proof fn lemma_mouse_in_interval(v: Seq<MouseSpan>, b: Seq<u32>, k: int)
    requires
        0 <= k,
    ensures
        ({
            let (x, y, shown) = overlay::mouse_state(v, b, k);
            &&& shown is Some <==> exists|i: int|
                0 <= i < v.len() && (#[trigger] v[i]).start_ms <= b[k] && b[k + 1] <= v[i].end_ms
            &&& shown is Some ==> exists|i: int|
                0 <= i < v.len() && (#[trigger] v[i]).start_ms <= b[k] && b[k + 1] <= v[i].end_ms
                    && v[i].cx == x && v[i].cy == y && shown == Some(v[i].state)
        }),
{
    lemma_active_mouse(v, b[k], b[k + 1], 0);
}

proof fn lemma_active_mouse(v: Seq<MouseSpan>, start: u32, end: u32, i: int)
    requires
        0 <= i,
    ensures
        match overlay::active_mouse(v, start, end, i) {
            Some(c) => exists|k: int|
                i <= k < v.len() && (#[trigger] v[k]).start_ms <= start && end <= v[k].end_ms && v[k]
                    == c,
            None => forall|k: int|
                i <= k < v.len() ==> !((#[trigger] v[k]).start_ms <= start && end <= v[k].end_ms),
        },
    decreases v.len() - i,
{
    if i < v.len() && !(v[i].start_ms <= start && end <= v[i].end_ms) {
        lemma_active_mouse(v, start, end, i + 1);
    }
}

/// The window bar has three dots, red, yellow and green from left to right, in the middle
/// of its height and one gap apart. They begin one gap from the left edge of the frame,
/// or end one gap from its right edge, as the style of the bar says. A bar that is off
/// has none.
pub proof fn lemma_bar_dots(l: CanvasLayout, style: WindowBarStyle, i: int)
    requires
        layout::canvas_fits(l),
        0 <= i < 3,
        l.dot_radius * 6 + l.dot_gap * 4 <= l.frame_w,
    ensures
        ({
            let dots = layout::bar_circles(l, style);
            let (first, last) = (dots[0], dots[2]);
            &&& style == WindowBarStyle::Off ==> dots.len() == 0
            &&& style != WindowBarStyle::Off ==> {
                &&& dots.len() == 3
                &&& dots[i].r == l.dot_radius
                &&& 2 * (dots[i].cy - l.frame_y) <= l.bar_h <= 2 * (dots[i].cy - l.frame_y) + 1
                &&& dots[i].fill == Some(
                    if i == 0 {
                        [255u8, 95u8, 86u8]
                    } else if i == 1 {
                        [255u8, 189u8, 46u8]
                    } else {
                        [39u8, 201u8, 63u8]
                    },
                )
                &&& i < 2 ==> dots[i + 1].cx - l.dot_radius == dots[i].cx + l.dot_radius
                    + l.dot_gap
            }
            &&& style == WindowBarStyle::Left ==> first.cx - first.r == l.frame_x + l.dot_gap
            &&& style == WindowBarStyle::Right ==> last.cx + last.r + l.dot_gap == l.frame_x
                + l.frame_w
        }),
{
    let step = l.dot_radius * 2 + l.dot_gap;
    assert(0 * step == 0 && 1 * step == step && 2 * step == step + step) by (nonlinear_arith);
    assert(i == 0 || i == 1 || i == 2);
}

} // verus!
