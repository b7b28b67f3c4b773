//! Cursor, mouse and title over time: how long each keeps its value.
use vstd::prelude::*;
use vstd::string::*;

use crate::recording::{MouseState, RawFrame};
use crate::render_svg::elements;
use crate::render_svg::elements::{
    same_optional_text, CursorRect, MouseSpan, TitleSegment, TitleSegmentView,
};
use crate::render_svg::optimize::Same;
use crate::single;
use crate::single::{from_whole, round_single, Measure, ONE};
use crate::sort;
use crate::style::{same_rgb, Rgb};

verus! {

/// A value and the time during which something has it.
pub struct Hold<K> {
    pub value: K,
    pub start_ms: u32,
    pub end_ms: u32,
}

/// What is held after the first `n` entries of `s`, each the moment of a frame
/// and its value, and the holds that have ended.
pub open spec fn held_after<K>(s: Seq<(u32, Option<K>)>, n: int) -> (Seq<Hold<K>>, Option<(K, u32)>)
    decreases n,
{
    if n <= 0 {
        (Seq::empty(), None)
    } else {
        let (done, now) = held_after(s, n - 1);
        let (t, next) = s[n - 1];
        match (now, next) {
            (None, None) => (done, None),
            (None, Some(v)) => (done, Some((v, t))),
            (Some((u, start)), None) => (
                done.push(Hold { value: u, start_ms: start, end_ms: t }),
                None,
            ),
            (Some((u, start)), Some(v)) => if u == v {
                (done, now)
            } else {
                (done.push(Hold { value: u, start_ms: start, end_ms: t }), Some((v, t)))
            },
        }
    }
}

/// The holds of a recording that ends at `total_ms`.
pub open spec fn holds<K>(s: Seq<(u32, Option<K>)>, total_ms: u32) -> Seq<Hold<K>> {
    let (done, now) = held_after(s, s.len() as int);
    match now {
        None => done,
        Some((v, start)) => done.push(Hold { value: v, start_ms: start, end_ms: total_ms }),
    }
}

/// The spans during which a value is held.
pub fn follow<K: Same + Copy>(s: &Vec<(u32, Option<K>)>, total_ms: u32) -> (out: Vec<Hold<K>>)
    ensures
        out@ == holds(s@, total_ms),
{
    let mut out: Vec<Hold<K>> = Vec::new();
    let mut now: Option<(K, u32)> = None;
    let mut i: usize = 0;
    while i < s.len()
        invariant
            i <= s@.len(),
            (out@, now) == held_after(s@, i as int),
        decreases s@.len() - i,
    {
        let t: u32 = s[i].0;
        match (now, s[i].1) {
            (None, None) => {},
            (None, Some(v)) => {
                now = Some((v, t));
            },
            (Some((u, start)), None) => {
                out.push(Hold { value: u, start_ms: start, end_ms: t });
                now = None;
            },
            (Some((u, start)), Some(v)) => {
                if !u.same(&v) {
                    out.push(Hold { value: u, start_ms: start, end_ms: t });
                    now = Some((v, t));
                }
            },
        }
        i = i + 1;
    }
    match now {
        None => {},
        Some((v, start)) => {
            out.push(Hold { value: v, start_ms: start, end_ms: total_ms });
        },
    }
    out
}

/// Whether some hold has the value `v` at the moment `t`.
pub open spec fn holds_at<K>(h: Seq<Hold<K>>, t: u32, v: K) -> bool {
    exists|i: int|
        0 <= i < h.len() && (#[trigger] h[i]).start_ms <= t < h[i].end_ms && h[i].value == v
}

proof fn lemma_holds_push<K>(h: Seq<Hold<K>>, x: Hold<K>, t: u32, v: K)
    ensures
        holds_at(h.push(x), t, v) == (holds_at(h, t, v) || (x.start_ms <= t < x.end_ms && x.value
            == v)),
{
    let r = h.push(x);
    if holds_at(h, t, v) {
        let i = choose|i: int|
            0 <= i < h.len() && (#[trigger] h[i]).start_ms <= t < h[i].end_ms && h[i].value == v;
        assert(r[i] == h[i]);
    }
    if x.start_ms <= t < x.end_ms && x.value == v {
        assert(r[h.len() as int] == x);
    }
    if holds_at(r, t, v) {
        let i = choose|i: int|
            0 <= i < r.len() && (#[trigger] r[i]).start_ms <= t < r[i].end_ms && r[i].value == v;
        if i < h.len() {
            assert(h[i] == r[i]);
        }
    }
}

proof fn lemma_held_after<K>(s: Seq<(u32, Option<K>)>, n: int, t: u32, v: K)
    requires
        0 <= n <= s.len(),
        forall|a: int, b: int|
            0 <= a <= b < s.len() ==> (#[trigger] s[a]).0 <= (#[trigger] s[b]).0,
    ensures
        n > 0 ==> (held_after(s, n).1 matches Some((w, start)) ==> start <= s[n - 1].0),
        n > 0 ==> (match held_after(s, n).1 {
            Some((w, _)) => s[n - 1].1 == Some(w),
            None => s[n - 1].1 is None,
        }),
        holds_at(held_after(s, n).0, t, v) ==> n > 0 && t < s[n - 1].0 && (held_after(
            s,
            n,
        ).1 matches Some((_, start)) ==> t < start),
        forall|k: int|
            0 <= k < n - 1 && s[k].0 <= t && t < #[trigger] s[k + 1].0 ==> (match held_after(
                s,
                n,
            ).1 {
                Some((w, start)) => if t < start {
                    holds_at(held_after(s, n).0, t, v) == (s[k].1 == Some(v))
                } else {
                    s[k].1 == Some(w) && !holds_at(held_after(s, n).0, t, v)
                },
                None => holds_at(held_after(s, n).0, t, v) == (s[k].1 == Some(v)),
            }),
    decreases n,
{
    if n > 0 {
        lemma_held_after(s, n - 1, t, v);
        let (done, now) = held_after(s, n - 1);
        let (done2, now2) = held_after(s, n);
        if n > 1 {
            assert(s[n - 2].0 <= s[n - 1].0);
        }
        match now {
            Some((u, start)) => {
                lemma_holds_push(
                    done,
                    Hold { value: u, start_ms: start, end_ms: s[n - 1].0 },
                    t,
                    v,
                );
            },
            None => {},
        }
        assert forall|k: int|
            0 <= k < n - 1 && s[k].0 <= t && t < #[trigger] s[k + 1].0 implies (match now2 {
            Some((w, start)) => if t < start {
                holds_at(done2, t, v) == (s[k].1 == Some(v))
            } else {
                s[k].1 == Some(w) && !holds_at(done2, t, v)
            },
            None => holds_at(done2, t, v) == (s[k].1 == Some(v)),
        }) by {
            if k < n - 2 {
                assert(s[k + 1].0 <= s[n - 2].0);
            }
        }
    }
}

/// At every moment the holds have exactly the value of the frame that is on.
pub proof fn lemma_holds_follow<K>(
    s: Seq<(u32, Option<K>)>,
    total_ms: u32,
    n: int,
    t: u32,
    v: K,
)
    requires
        forall|a: int, b: int|
            0 <= a <= b < s.len() ==> (#[trigger] s[a]).0 <= (#[trigger] s[b]).0,
        0 <= n < s.len(),
        s[n].0 <= t < total_ms,
        n + 1 < s.len() ==> t < s[n + 1].0,
    ensures
        holds_at(holds(s, total_ms), t, v) == (s[n].1 == Some(v)),
{
    let len = s.len() as int;
    lemma_held_after(s, len, t, v);
    let (done, now) = held_after(s, len);
    if n < len - 1 {
        assert(s[n].0 <= t && t < s[n + 1].0);
    }
    match now {
        Some((w, start)) => {
            lemma_holds_push(done, Hold { value: w, start_ms: start, end_ms: total_ms }, t, v);
        },
        None => {},
    }
}

impl Same for (u16, u16, Rgb) {
    fn same(&self, other: &(u16, u16, Rgb)) -> (r: bool) {
        self.0 == other.0 && self.1 == other.1 && same_rgb(self.2, other.2)
    }
}

impl Same for (Measure, Measure, MouseState) {
    fn same(&self, other: &(Measure, Measure, MouseState)) -> (r: bool) {
        self.0 == other.0 && self.1 == other.1 && self.2 == other.2
    }
}

/// Column, row and colour of the cursor of a frame.
pub open spec fn cursor_of(f: RawFrame) -> Option<(u16, u16, Rgb)> {
    match f.cursor {
        Some((x, y)) => Some(
            (
                x,
                y,
                match f.cursor_color {
                    Some(c) => c,
                    None => f.default_fg,
                },
            ),
        ),
        None => None,
    }
}

pub open spec fn cursors_of(frames: Seq<RawFrame>) -> Seq<(u32, Option<(u16, u16, Rgb)>)> {
    Seq::new(frames.len(), |i: int| (frames[i].t_ms, cursor_of(frames[i])))
}

pub open spec fn mice_of(frames: Seq<RawFrame>) -> Seq<
    (u32, Option<(Measure, Measure, MouseState)>),
> {
    Seq::new(frames.len(), |i: int| (frames[i].t_ms, frames[i].mouse_cursor))
}

/// How long the cursor stays at each place.
pub fn build_cursor_holds(frames: &Vec<RawFrame>, total_ms: u32) -> (out: Vec<
    Hold<(u16, u16, Rgb)>,
>)
    ensures
        out@ == holds(cursors_of(frames@), total_ms),
{
    let mut s: Vec<(u32, Option<(u16, u16, Rgb)>)> = Vec::new();
    let mut i: usize = 0;
    while i < frames.len()
        invariant
            i <= frames@.len(),
            s@.len() == i,
            forall|k: int| 0 <= k < i ==> s@[k] == cursors_of(frames@)[k],
        decreases frames@.len() - i,
    {
        let cursor: Option<(u16, u16, Rgb)> = match frames[i].cursor {
            Some((x, y)) => match frames[i].cursor_color {
                Some(c) => Some((x, y, c)),
                None => Some((x, y, frames[i].default_fg)),
            },
            None => None,
        };
        s.push((frames[i].t_ms, cursor));
        i = i + 1;
    }
    assert(s@ =~= cursors_of(frames@));
    follow(&s, total_ms)
}

/// How long the mouse stays at each place in each state.
pub fn build_mouse_holds(frames: &Vec<RawFrame>, total_ms: u32) -> (out: Vec<
    Hold<(Measure, Measure, MouseState)>,
>)
    ensures
        out@ == holds(mice_of(frames@), total_ms),
{
    let mut s: Vec<(u32, Option<(Measure, Measure, MouseState)>)> = Vec::new();
    let mut i: usize = 0;
    while i < frames.len()
        invariant
            i <= frames@.len(),
            s@.len() == i,
            forall|k: int| 0 <= k < i ==> s@[k] == mice_of(frames@)[k],
        decreases frames@.len() - i,
    {
        s.push((frames[i].t_ms, frames[i].mouse_cursor));
        i = i + 1;
    }
    assert(s@ =~= mice_of(frames@));
    follow(&s, total_ms)
}

/// Bound on lengths of the canvas in pixels. Within it the places of a grid, and of the
/// text in it, are whole numbers that single precision holds.
pub const PIXEL_LIMIT: u32 = 0x40_0000;

/// The middle of the cell `at` along one side, `origin` being where the grid
/// starts and `side` the length of a cell.
pub open spec fn cell_middle(origin: u32, at: Measure, side: u32) -> int {
    single::single(
        single::single(single::whole(origin) + single::single(at * side)) + side * ONE / 2,
    )
}

/// Whether the middle of a cell can be computed.
pub open spec fn middle_fits(origin: u32, at: Measure, side: u32) -> bool {
    origin <= PIXEL_LIMIT && side <= PIXEL_LIMIT && -PIXEL_LIMIT * ONE <= at * side <= PIXEL_LIMIT
        * ONE
}

/// The middle of the cell `at`.
pub fn middle(origin: u32, at: Measure, side: u32) -> (r: Measure)
    requires
        middle_fits(origin, at, side),
        side > 0,
    ensures
        r == cell_middle(origin, at, side),
        -single::MEASURE_LIMIT <= r <= single::MEASURE_LIMIT,
{
    proof {
        single::lemma_whole_exact(origin);
    }
    let o: Measure = from_whole(origin);
    let a: Measure = round_single(at * side as i128);
    let b: Measure = round_single(o + a);
    round_single(b + side as i128 * ONE / 2)
}

/// A place of the mouse in pixels.
pub open spec fn mouse_span(
    h: Hold<(Measure, Measure, MouseState)>,
    content_x: u32,
    content_y: u32,
    cell_w: u32,
    cell_h: u32,
) -> MouseSpan {
    MouseSpan {
        cx: cell_middle(content_x, h.value.0, cell_w) as i128,
        cy: cell_middle(content_y, h.value.1, cell_h) as i128,
        state: h.value.2,
        start_ms: h.start_ms,
        end_ms: h.end_ms,
    }
}

pub open spec fn mouse_spans(
    h: Seq<Hold<(Measure, Measure, MouseState)>>,
    content_x: u32,
    content_y: u32,
    cell_w: u32,
    cell_h: u32,
) -> Seq<MouseSpan> {
    Seq::new(h.len(), |i: int| mouse_span(h[i], content_x, content_y, cell_w, cell_h))
}

/// Whether every place of the mouse can be computed.
pub open spec fn mice_fit(
    h: Seq<Hold<(Measure, Measure, MouseState)>>,
    content_x: u32,
    content_y: u32,
    cell_w: u32,
    cell_h: u32,
) -> bool {
    &&& cell_w > 0
    &&& cell_h > 0
    &&& forall|i: int|
        0 <= i < h.len() ==> middle_fits(content_x, (#[trigger] h[i]).value.0, cell_w)
            && middle_fits(content_y, h[i].value.1, cell_h)
}

/// The places of the mouse in pixels.
pub fn place_mouse(
    h: &Vec<Hold<(Measure, Measure, MouseState)>>,
    content_x: u32,
    content_y: u32,
    cell_w: u32,
    cell_h: u32,
) -> (out: Vec<MouseSpan>)
    requires
        mice_fit(h@, content_x, content_y, cell_w, cell_h),
    ensures
        out@ == mouse_spans(h@, content_x, content_y, cell_w, cell_h),
        forall|i: int|
            0 <= i < out@.len() ==> -single::MEASURE_LIMIT <= (#[trigger] out@[i]).cx
                <= single::MEASURE_LIMIT && -single::MEASURE_LIMIT <= out@[i].cy
                <= single::MEASURE_LIMIT,
{
    let mut out: Vec<MouseSpan> = Vec::new();
    let mut i: usize = 0;
    while i < h.len()
        invariant
            mice_fit(h@, content_x, content_y, cell_w, cell_h),
            i <= h@.len(),
            out@.len() == i,
            forall|k: int|
                0 <= k < i ==> out@[k] == mouse_spans(
                    h@,
                    content_x,
                    content_y,
                    cell_w,
                    cell_h,
                )[k],
            forall|k: int|
                0 <= k < i ==> -single::MEASURE_LIMIT <= (#[trigger] out@[k]).cx
                    <= single::MEASURE_LIMIT && -single::MEASURE_LIMIT <= out@[k].cy
                    <= single::MEASURE_LIMIT,
        decreases h@.len() - i,
    {
        assert(middle_fits(content_x, h@[i as int].value.0, cell_w));
        let s: MouseSpan = MouseSpan {
            cx: middle(content_x, h[i].value.0, cell_w),
            cy: middle(content_y, h[i].value.1, cell_h),
            state: h[i].value.2,
            start_ms: h[i].start_ms,
            end_ms: h[i].end_ms,
        };
        out.push(s);
        i = i + 1;
    }
    assert(out@ =~= mouse_spans(h@, content_x, content_y, cell_w, cell_h));
    out
}

/// The cursors of the holds that take any time.
pub open spec fn cursor_rects(
    h: Seq<Hold<(u16, u16, Rgb)>>,
    content_x: u32,
    content_y: u32,
    cell_w: u32,
    cell_h: u32,
) -> Seq<CursorRect>
    decreases h.len(),
{
    if h.len() == 0 {
        Seq::empty()
    } else {
        let before = cursor_rects(h.drop_last(), content_x, content_y, cell_w, cell_h);
        let s = h.last();
        if s.start_ms == s.end_ms {
            before
        } else {
            before.push(
                CursorRect {
                    x: (content_x + s.value.0 * cell_w) as u32,
                    y: (content_y + s.value.1 * cell_h) as u32,
                    w: cell_w,
                    h: cell_h,
                    fill: s.value.2,
                    start_ms: s.start_ms,
                    end_ms: s.end_ms,
                },
            )
        }
    }
}

/// Whether the place of every cursor fits.
pub open spec fn cursors_fit(
    h: Seq<Hold<(u16, u16, Rgb)>>,
    content_x: u32,
    content_y: u32,
    cell_w: u32,
    cell_h: u32,
) -> bool {
    forall|i: int|
        0 <= i < h.len() ==> content_x + (#[trigger] h[i]).value.0 * cell_w <= u32::MAX && content_y
            + h[i].value.1 * cell_h <= u32::MAX
}

/// The cursors in pixels.
pub fn place_cursors(
    h: &Vec<Hold<(u16, u16, Rgb)>>,
    content_x: u32,
    content_y: u32,
    cell_w: u32,
    cell_h: u32,
) -> (out: Vec<CursorRect>)
    requires
        cursors_fit(h@, content_x, content_y, cell_w, cell_h),
    ensures
        out@ == cursor_rects(h@, content_x, content_y, cell_w, cell_h),
{
    let mut out: Vec<CursorRect> = Vec::new();
    let mut i: usize = 0;
    while i < h.len()
        invariant
            cursors_fit(h@, content_x, content_y, cell_w, cell_h),
            i <= h@.len(),
            out@ == cursor_rects(h@.take(i as int), content_x, content_y, cell_w, cell_h),
        decreases h@.len() - i,
    {
        assert(h@.take(i + 1).drop_last() =~= h@.take(i as int));
        assert(h@.take(i + 1).last() == h@[i as int]);
        let start: u32 = h[i].start_ms;
        let end: u32 = h[i].end_ms;
        if start != end {
            let v: (u16, u16, Rgb) = h[i].value;
            assert(content_x + h@[i as int].value.0 * cell_w <= u32::MAX);
            assert(0 <= v.0 * cell_w) by (nonlinear_arith);
            assert(0 <= v.1 * cell_h) by (nonlinear_arith);
            out.push(
                CursorRect {
                    x: content_x + v.0 as u32 * cell_w,
                    y: content_y + v.1 as u32 * cell_h,
                    w: cell_w,
                    h: cell_h,
                    fill: v.2,
                    start_ms: start,
                    end_ms: end,
                },
            );
        }
        i = i + 1;
    }
    assert(h@.take(h@.len() as int) =~= h@);
    out
}

/// The title of a segment, if there is one to show.
pub open spec fn title_piece(title: Option<Seq<char>>, start_ms: u32, end_ms: u32) -> Seq<
    TitleSegmentView,
> {
    match title {
        Some(t) => if t.len() > 0 {
            seq![TitleSegmentView { title: t, start_ms, end_ms }]
        } else {
            Seq::empty()
        },
        None => Seq::empty(),
    }
}

/// The segments that the first `n` frames have ended, and since when the present
/// title stands.
pub open spec fn titles_after(frames: Seq<RawFrame>, n: int) -> (Seq<TitleSegmentView>, u32)
    decreases n,
{
    if n <= 1 {
        (Seq::empty(), 0)
    } else {
        let (done, start) = titles_after(frames, n - 1);
        let before = elements::clip_text(frames[n - 2].title);
        let now = elements::clip_text(frames[n - 1].title);
        if before == now {
            (done, start)
        } else {
            (done + title_piece(before, start, frames[n - 1].t_ms), frames[n - 1].t_ms)
        }
    }
}

/// The titles of a recording: the given one throughout, or those of the frames.
pub open spec fn title_segments(
    frames: Seq<RawFrame>,
    custom: Option<Seq<char>>,
    total_ms: u32,
) -> Seq<TitleSegmentView> {
    match custom {
        Some(t) => seq![TitleSegmentView { title: t, start_ms: 0, end_ms: total_ms }],
        None => {
            let (done, start) = titles_after(frames, frames.len() as int);
            done + title_piece(elements::clip_text(frames.last().title), start, total_ms)
        },
    }
}

fn push_title(out: &mut Vec<TitleSegment>, title: &Option<String>, start_ms: u32, end_ms: u32)
    ensures
        sort::views(final(out)@) == sort::views(old(out)@) + title_piece(
            elements::clip_text(*title),
            start_ms,
            end_ms,
        ),
{
    match title {
        Some(t) => {
            let empty: bool = crate::text::same_text(t.as_str(), "");
            proof {
                reveal_strlit("");
                assert((t@ == ""@) == (t@.len() == 0)) by {
                    if t@.len() == 0 {
                        assert(t@ =~= ""@);
                    }
                }
            }
            if !empty {
                out.push(TitleSegment { title: t.clone(), start_ms, end_ms });
            }
        },
        None => {},
    }
    assert(sort::views(out@) =~= sort::views(old(out)@) + title_piece(
        elements::clip_text(*title),
        start_ms,
        end_ms,
    ));
}

/// The titles of a recording.
pub fn build_title_segments(
    frames: &Vec<RawFrame>,
    custom: &Option<String>,
    total_ms: u32,
) -> (out: Vec<TitleSegment>)
    requires
        frames@.len() > 0,
    ensures
        sort::views(out@) == title_segments(frames@, elements::clip_text(*custom), total_ms),
{
    let mut out: Vec<TitleSegment> = Vec::new();
    match custom {
        Some(t) => {
            out.push(TitleSegment { title: t.clone(), start_ms: 0, end_ms: total_ms });
            assert(sort::views(out@) =~= title_segments(
                frames@,
                elements::clip_text(*custom),
                total_ms,
            ));
            return out;
        },
        None => {},
    }
    let mut start_ms: u32 = 0;
    let mut i: usize = 1;
    assert(sort::views(out@) =~= titles_after(frames@, 1).0);
    while i < frames.len()
        invariant
            1 <= i <= frames@.len(),
            sort::views(out@) == titles_after(frames@, i as int).0,
            start_ms == titles_after(frames@, i as int).1,
        decreases frames@.len() - i,
    {
        if !same_optional_text(&frames[i - 1].title, &frames[i].title) {
            push_title(&mut out, &frames[i - 1].title, start_ms, frames[i].t_ms);
            start_ms = frames[i].t_ms;
        }
        i = i + 1;
    }
    let n: usize = frames.len();
    push_title(&mut out, &frames[n - 1].title, start_ms, total_ms);
    out
}

} // verus!
