//! The order in which the elements of a document are merged, and what that
//! leaves unchanged: at every moment the document shows the same characters and
//! the same backgrounds as the elements it was made from.
use vstd::prelude::*;
use vstd::string::*;

use crate::merge::Merge;
use crate::merge;
use crate::render_svg::elements;
use crate::render_svg::elements::{
    BgRect, BgRectView, Glyph, TSpan, TSpanView, TextElement, TextElementView, YAnimation,
    YAnimationView,
};
use crate::render_svg::optimize;
use crate::render_svg::optimize::{
    append_newlines_to_final_tspans, group_text_elements_by_row_and_time, group_text_elements_final,
    optimize_bg_rect_scroll, optimize_bg_rects, optimize_rows, optimize_tspans, ByBand, ByPlace,
    ByPlaceAndTime, ByRowAndMotion, ByRowAndTime, ByStart, Runs, SameBand, SameRowAndMotion,
    SameRowAndTime, ScrolledRect, ScrolledRow,
};
use crate::sort::Order;
use crate::sort;
use crate::style::Rgb;

verus! {

/// `f` applied to every item.
pub open spec fn each<V>(s: Seq<V>, f: spec_fn(V) -> V) -> Seq<V> {
    Seq::new(s.len(), |i: int| f(s[i]))
}

/// Whether every segment is on the line of the first one.
pub open spec fn is_level(s: Seq<(u32, u32)>) -> bool {
    forall|i: int| 0 <= i < s.len() ==> (#[trigger] s[i]).0 == s[0].0
}

/// No motion where the line never changes.
pub open spec fn settled(m: Option<YAnimationView>) -> Option<YAnimationView> {
    match m {
        Some(a) => if is_level(a.segments) {
            None
        } else {
            m
        },
        None => None,
    }
}

pub open spec fn settled_row(e: TextElementView) -> TextElementView {
    TextElementView { y_animation: settled(e.y_animation), ..e }
}

pub open spec fn settled_rect(r: BgRectView) -> BgRectView {
    BgRectView { y_animation: settled(r.y_animation), ..r }
}

/// The rows of a document, made of one row for each cell.
pub open spec fn arranged_text(v: Seq<TextElementView>) -> Seq<TextElementView> {
    last_rows(optimize::finally_grouped(optimize::scrolled_rows(first_rows(v))))
}

/// The backgrounds of a document, made of one rectangle for each cell.
pub open spec fn arranged_rects(v: Seq<BgRectView>) -> Seq<BgRectView> {
    each(
        optimize::scrolled_rects(optimize::banded_rects(v)),
        |r: BgRectView| settled_rect(r),
    )
}

/// A run that has one place for each character and does not end before it
/// begins.
pub open spec fn placed(s: TSpanView) -> bool {
    s.x_coords.len() == s.text.len() && s.x_coords.len() > 0 && s.start_ms <= s.end_ms
}

/// A placed run that does not change its style.
pub open spec fn plain(s: TSpanView) -> bool {
    placed(s) && s.style_history.len() == 0
}

/// A row whose runs last as long as it does.
pub open spec fn steady(e: TextElementView) -> bool {
    e.start_ms < e.end_ms && forall|i: int|
        0 <= i < e.tspans.len() ==> plain(#[trigger] e.tspans[i]) && e.tspans[i].start_ms
            == e.start_ms && e.tspans[i].end_ms == e.end_ms
}

/// A steady row that does not move.
pub open spec fn resting(e: TextElementView) -> bool {
    steady(e) && e.y_animation is None
}

/// A motion that starts on the line `y`.
pub open spec fn moves_from(m: Option<YAnimationView>, y: u32) -> bool {
    m matches Some(a) ==> a.segments.len() > 0 && a.segments[0].0 == y
}

/// A steady row, moving or not.
pub open spec fn moving(e: TextElementView) -> bool {
    steady(e) && moves_from(e.y_animation, e.y) && optimize::time_fits(
        e.start_ms,
        e.end_ms,
        e.y_animation,
    )
}

/// A row whose runs lie within its time.
pub open spec fn enclosing(e: TextElementView) -> bool {
    moves_from(e.y_animation, e.y) && forall|i: int|
        0 <= i < e.tspans.len() ==> plain(#[trigger] e.tspans[i]) && e.start_ms
            <= e.tspans[i].start_ms && e.tspans[i].end_ms <= e.end_ms
}

/// A row of placed runs.
pub open spec fn set_out(e: TextElementView) -> bool {
    moves_from(e.y_animation, e.y) && forall|i: int|
        0 <= i < e.tspans.len() ==> placed(#[trigger] e.tspans[i])
}

proof fn lemma_each<V>(
    s: Seq<V>,
    f: spec_fn(V) -> V,
    u: spec_fn(V) -> bool,
    w: spec_fn(V) -> bool,
    p: spec_fn(V) -> bool,
)
    requires
        merge::every(s, u),
        forall|a: V| #[trigger] u(a) ==> w(f(a)) && p(f(a)) == p(a),
    ensures
        merge::every(each(s, f), w),
        merge::some(each(s, f), p) == merge::some(s, p),
{
    let r = each(s, f);
    assert forall|i: int| 0 <= i < r.len() implies w(#[trigger] r[i]) by {
        assert(u(s[i]));
    }
    if merge::some(s, p) {
        let i = choose|i: int| 0 <= i < s.len() && p(#[trigger] s[i]);
        assert(u(s[i]));
        assert(p(r[i]));
    }
    if merge::some(r, p) {
        let i = choose|i: int| 0 <= i < r.len() && p(#[trigger] r[i]);
        assert(u(s[i]));
        assert(p(s[i]));
    }
}

/// A merged run shows a glyph at a moment exactly if one of its parts did.
pub proof fn lemma_runs_join(a: TSpanView, b: TSpanView, t: u32, g: Glyph)
    requires
        placed(a),
        plain(b),
        Runs::joins(a, b),
    ensures
        placed(Runs::join(a, b)),
        elements::span_shows(Runs::join(a, b), t, g) == (elements::span_shows(a, t, g)
            || elements::span_shows(b, t, g)),
{
    let j = Runs::join(a, b);
    if optimize::beside(a, b) {
        let n = a.x_coords.len() as int;
        if elements::span_shows(a, t, g) {
            let k = choose|k: int|
                0 <= k < a.x_coords.len() && k < a.text.len() && #[trigger] a.x_coords[k] == g.x
                    && a.text[k] == g.c;
            assert(j.x_coords[k] == g.x && j.text[k] == g.c);
        }
        if elements::span_shows(b, t, g) {
            let k = choose|k: int|
                0 <= k < b.x_coords.len() && k < b.text.len() && #[trigger] b.x_coords[k] == g.x
                    && b.text[k] == g.c;
            assert(j.x_coords[n + k] == g.x && j.text[n + k] == g.c);
        }
        if elements::span_shows(j, t, g) {
            let k = choose|k: int|
                0 <= k < j.x_coords.len() && k < j.text.len() && #[trigger] j.x_coords[k] == g.x
                    && j.text[k] == g.c;
            if k < n {
                assert(a.x_coords[k] == g.x && a.text[k] == g.c);
            } else {
                assert(b.x_coords[k - n] == g.x && b.text[k - n] == g.c);
            }
        }
    } else {
        let h = optimize::full_history(a);
        let first = optimize::first_keyframe(b);
        assert(h.push(first).drop_last() =~= h);
        assert(h.push(first).last() == first);
        if t < b.start_ms {
            assert(elements::history_look(h.push(first), t) == elements::history_look(h, t));
            if a.style_history.len() == 0 {
                assert(h.last() == optimize::first_keyframe(a));
            }
            assert(elements::look_at(j, t) == elements::look_at(a, t));
        } else {
            assert(elements::look_at(j, t) == elements::look_at(b, t));
        }
        assert(j.x_coords == a.x_coords && j.text == a.text);
    }
}

proof fn lemma_optimized_runs(v: Seq<TSpanView>, t: u32, g: Glyph)
    requires
        merge::every(v, |s: TSpanView| plain(s)),
    ensures
        merge::every(optimize::optimized_runs(v), |s: TSpanView| placed(s)),
        merge::some(optimize::optimized_runs(v), |s: TSpanView| elements::span_shows(s, t, g))
            == merge::some(v, |s: TSpanView| elements::span_shows(s, t, g)),
{
    let u = |s: TSpanView| plain(s);
    let w = |s: TSpanView| placed(s);
    let p = |s: TSpanView| elements::span_shows(s, t, g);
    let o = sort::sorted::<TSpan, ByPlaceAndTime>(v);
    merge::lemma_sorted_keeps::<TSpan, ByPlaceAndTime>(v, u);
    merge::lemma_sorted_keeps::<TSpan, ByPlaceAndTime>(v, p);
    assert forall|a: TSpanView, b: TSpanView|
        w(a) && u(b) && #[trigger] Runs::joins(a, b) implies w(Runs::join(a, b)) && p(
        Runs::join(a, b),
    ) == (p(a) || p(b)) by {
        lemma_runs_join(a, b, t, g);
    }
    merge::lemma_merged_keeps::<TSpan, Runs>(o, u, w, p);
    let m = merge::merged::<TSpan, Runs>(o);
    let f = |s: TSpanView| optimize::animated(s);
    lemma_each(m, f, w, w, p);
    assert(each(m, f) =~= optimize::all_animated(m));
}

/// Merging the runs of a row keeps what the row shows.
pub proof fn lemma_optimized_row_shows(e: TextElementView, t: u32, y: u32, g: Glyph)
    requires
        forall|i: int| 0 <= i < e.tspans.len() ==> plain(#[trigger] e.tspans[i]),
    ensures
        elements::row_shows(optimize::optimized_row(e), t, y, g) == elements::row_shows(e, t, y, g),
        forall|i: int|
            0 <= i < optimize::optimized_row(e).tspans.len() ==> placed(
                #[trigger] optimize::optimized_row(e).tspans[i],
            ),
{
    lemma_optimized_runs(e.tspans, t, g);
    let p = |s: TSpanView| elements::span_shows(s, t, g);
    let w = |s: TSpanView| placed(s);
    let r = optimize::optimized_row(e);
    assert forall|i: int| 0 <= i < r.tspans.len() implies placed(#[trigger] r.tspans[i]) by {
        assert(w(r.tspans[i]));
    }
    lemma_row_shows(e, t, y, g);
    lemma_row_shows(r, t, y, g);
}

proof fn lemma_row_shows(e: TextElementView, t: u32, y: u32, g: Glyph)
    ensures
        elements::row_shows(e, t, y, g) == (e.start_ms <= t < e.end_ms && elements::row_at(
            e.y,
            e.y_animation,
            t,
        ) == y && merge::some(e.tspans, |s: TSpanView| elements::span_shows(s, t, g))),
{
    let p = |s: TSpanView| elements::span_shows(s, t, g);
    if elements::row_shows(e, t, y, g) {
        let i = choose|i: int|
            0 <= i < e.tspans.len() && elements::span_shows(#[trigger] e.tspans[i], t, g);
        assert(p(e.tspans[i]));
    }
    if merge::some(e.tspans, p) {
        let i = choose|i: int| 0 <= i < e.tspans.len() && p(#[trigger] e.tspans[i]);
        assert(elements::span_shows(e.tspans[i], t, g));
    }
}

proof fn lemma_text_shows(v: Seq<TextElementView>, t: u32, y: u32, g: Glyph)
    ensures
        elements::text_shows(v, t, y, g) == merge::some(
            v,
            |e: TextElementView| elements::row_shows(e, t, y, g),
        ),
{
    let p = |e: TextElementView| elements::row_shows(e, t, y, g);
    if elements::text_shows(v, t, y, g) {
        let i = choose|i: int|
            0 <= i < v.len() && elements::row_shows(#[trigger] v[i], t, y, g);
        assert(p(v[i]));
    }
    if merge::some(v, p) {
        let i = choose|i: int| 0 <= i < v.len() && p(#[trigger] v[i]);
        assert(elements::row_shows(v[i], t, y, g));
    }
}

proof fn lemma_span_in_concat(
    a: Seq<TSpanView>,
    b: Seq<TSpanView>,
    p: spec_fn(TSpanView) -> bool,
)
    ensures
        merge::some(a + b, p) == (merge::some(a, p) || merge::some(b, p)),
{
    let r = a + b;
    if merge::some(a, p) {
        let i = choose|i: int| 0 <= i < a.len() && p(#[trigger] a[i]);
        assert(p(r[i]));
    }
    if merge::some(b, p) {
        let i = choose|i: int| 0 <= i < b.len() && p(#[trigger] b[i]);
        assert(p(r[a.len() + i]));
    }
    if merge::some(r, p) {
        let i = choose|i: int| 0 <= i < r.len() && p(#[trigger] r[i]);
        if i < a.len() {
            assert(p(a[i]));
        } else {
            assert(p(b[i - a.len()]));
        }
    }
}

/// A row made of two rows of the same line and time shows what the two showed.
pub proof fn lemma_same_time_join(a: TextElementView, b: TextElementView, t: u32, y: u32, g: Glyph)
    requires
        SameRowAndTime::joins(a, b),
        a.y_animation == b.y_animation,
    ensures
        elements::row_shows(SameRowAndTime::join(a, b), t, y, g) == (elements::row_shows(a, t, y, g)
            || elements::row_shows(b, t, y, g)),
{
    let j = SameRowAndTime::join(a, b);
    lemma_row_shows(a, t, y, g);
    lemma_row_shows(b, t, y, g);
    lemma_row_shows(j, t, y, g);
    lemma_span_in_concat(a.tspans, b.tspans, |s: TSpanView| elements::span_shows(s, t, g));
}

/// Rows of the same line and time move alike.
pub open spec fn alike(a: TextElementView, b: TextElementView) -> bool {
    SameRowAndTime::joins(a, b) ==> a.y_animation == b.y_animation
}

spec fn is_one_of(v: Seq<TextElementView>, e: TextElementView) -> bool {
    exists|i: int| 0 <= i < v.len() && #[trigger] v[i] == e
}

/// `e` has the line, time and motion of some row of `v`.
spec fn has_slot_of(v: Seq<TextElementView>, e: TextElementView) -> bool {
    exists|i: int|
        0 <= i < v.len() && (#[trigger] v[i]).y == e.y && v[i].start_ms == e.start_ms
            && v[i].end_ms == e.end_ms && v[i].y_animation == e.y_animation
}

proof fn lemma_slot_join(
    v: Seq<TextElementView>,
    a: TextElementView,
    b: TextElementView,
    t: u32,
    y: u32,
    g: Glyph,
)
    requires
        forall|i: int, j: int|
            0 <= i < v.len() && 0 <= j < v.len() ==> #[trigger] alike(v[i], v[j]),
        has_slot_of(v, a),
        is_one_of(v, b),
        SameRowAndTime::joins(a, b),
    ensures
        has_slot_of(v, SameRowAndTime::join(a, b)),
        elements::row_shows(SameRowAndTime::join(a, b), t, y, g) == (elements::row_shows(a, t, y, g)
            || elements::row_shows(b, t, y, g)),
{
    let i = choose|i: int|
        0 <= i < v.len() && (#[trigger] v[i]).y == a.y && v[i].start_ms == a.start_ms
            && v[i].end_ms == a.end_ms && v[i].y_animation == a.y_animation;
    let j = choose|j: int| 0 <= j < v.len() && #[trigger] v[j] == b;
    assert(alike(v[i], v[j]));
    lemma_same_time_join(a, b, t, y, g);
    let c = SameRowAndTime::join(a, b);
    assert(v[i].y == c.y && v[i].y_animation == c.y_animation);
}

/// Grouping rows by line and time keeps what they show.
pub proof fn lemma_grouped_rows_show(v: Seq<TextElementView>, t: u32, y: u32, g: Glyph)
    requires
        forall|i: int, j: int|
            0 <= i < v.len() && 0 <= j < v.len() ==> #[trigger] alike(v[i], v[j]),
    ensures
        elements::text_shows(optimize::grouped_rows(v), t, y, g) == elements::text_shows(
            v,
            t,
            y,
            g,
        ),
{
    let u = |e: TextElementView| is_one_of(v, e);
    let w = |e: TextElementView| has_slot_of(v, e);
    let p = |e: TextElementView| elements::row_shows(e, t, y, g);
    assert(merge::every(v, u)) by {
        assert forall|i: int| 0 <= i < v.len() implies u(#[trigger] v[i]) by {
            assert(v[i] == v[i]);
        }
    }
    merge::lemma_sorted_keeps::<TextElement, ByRowAndTime>(v, u);
    merge::lemma_sorted_keeps::<TextElement, ByRowAndTime>(v, p);
    assert forall|e: TextElementView| #[trigger] u(e) implies w(e) by {
        let i = choose|i: int| 0 <= i < v.len() && #[trigger] v[i] == e;
        assert(v[i].y == e.y);
    }
    assert forall|a: TextElementView, b: TextElementView|
        w(a) && u(b) && #[trigger] SameRowAndTime::joins(a, b) implies w(
        SameRowAndTime::join(a, b),
    ) && p(SameRowAndTime::join(a, b)) == (p(a) || p(b)) by {
        lemma_slot_join(v, a, b, t, y, g);
    }
    merge::lemma_merged_keeps::<TextElement, SameRowAndTime>(
        sort::sorted::<TextElement, ByRowAndTime>(v),
        u,
        w,
        p,
    );
    lemma_text_shows(v, t, y, g);
    lemma_text_shows(optimize::grouped_rows(v), t, y, g);
}

proof fn lemma_grouped_resting(v: Seq<TextElementView>)
    requires
        merge::every(v, |e: TextElementView| resting(e)),
    ensures
        merge::every(optimize::grouped_rows(v), |e: TextElementView| resting(e)),
{
    let w = |e: TextElementView| resting(e);
    let p = |e: TextElementView| true;
    merge::lemma_sorted_keeps::<TextElement, ByRowAndTime>(v, w);
    assert forall|a: TextElementView, b: TextElementView|
        w(a) && w(b) && #[trigger] SameRowAndTime::joins(a, b) implies w(
        SameRowAndTime::join(a, b),
    ) && p(SameRowAndTime::join(a, b)) == (p(a) || p(b)) by {
        let j = SameRowAndTime::join(a, b);
        assert forall|i: int| 0 <= i < j.tspans.len() implies plain(#[trigger] j.tspans[i])
            && j.tspans[i].start_ms == j.start_ms && j.tspans[i].end_ms == j.end_ms by {
            if i < a.tspans.len() {
                assert(plain(a.tspans[i]));
            } else {
                assert(plain(b.tspans[i - a.tspans.len()]));
            }
        }
    }
    merge::lemma_merged_keeps::<TextElement, SameRowAndTime>(
        sort::sorted::<TextElement, ByRowAndTime>(v),
        w,
        w,
        p,
    );
}

/// The runs of a resting row are merged side by side only, so the row stays
/// resting.
proof fn lemma_optimized_resting(e: TextElementView)
    requires
        resting(e),
    ensures
        resting(optimize::optimized_row(e)),
{
    let s = e.start_ms;
    let d = e.end_ms;
    let w = |r: TSpanView| plain(r) && r.start_ms == s && r.end_ms == d;
    let p = |r: TSpanView| true;
    assert forall|i: int| 0 <= i < e.tspans.len() implies w(#[trigger] e.tspans[i]) by {
        assert(plain(e.tspans[i]));
    }
    merge::lemma_sorted_keeps::<TSpan, ByPlaceAndTime>(e.tspans, w);
    let o = sort::sorted::<TSpan, ByPlaceAndTime>(e.tspans);
    assert forall|a: TSpanView, b: TSpanView|
        w(a) && w(b) && #[trigger] Runs::joins(a, b) implies w(Runs::join(a, b)) && p(
        Runs::join(a, b),
    ) == (p(a) || p(b)) by {
        assert(optimize::beside(a, b));
    }
    merge::lemma_merged_keeps::<TSpan, Runs>(o, w, w, p);
    let m = merge::merged::<TSpan, Runs>(o);
    let f = |r: TSpanView| optimize::animated(r);
    lemma_each(m, f, w, w, p);
    assert(each(m, f) =~= optimize::all_animated(m));
    let r = optimize::optimized_row(e);
    assert forall|i: int| 0 <= i < r.tspans.len() implies plain(#[trigger] r.tspans[i])
        && r.tspans[i].start_ms == r.start_ms && r.tspans[i].end_ms == r.end_ms by {
        assert(w(r.tspans[i]));
    }
}

proof fn lemma_moved_on(
    y0: u32,
    s0: u32,
    m: Option<YAnimationView>,
    y: u32,
    s: u32,
    e: u32,
    t: u32,
)
    requires
        moves_from(m, y0),
    ensures
        moves_from(Some(optimize::moved_on(y0, s0, m, y, s, e)), y0),
        t < s ==> elements::row_at(y0, Some(optimize::moved_on(y0, s0, m, y, s, e)), t)
            == elements::row_at(y0, m, t),
        t >= s ==> elements::row_at(y0, Some(optimize::moved_on(y0, s0, m, y, s, e)), t) == y,
{
    let r = optimize::moved_on(y0, s0, m, y, s, e);
    match m {
        Some(a) => {
            assert(r.segments.drop_last() =~= a.segments);
        },
        None => {
            assert(r.segments.drop_last() =~= seq![(y0, s0)]);
            assert(elements::segment_row(seq![(y0, s0)], t) == y0);
        },
    }
}

/// A row that goes on at another line shows what its two parts showed.
pub proof fn lemma_scrolled_row_join(
    a: TextElementView,
    b: TextElementView,
    t: u32,
    y: u32,
    g: Glyph,
)
    requires
        moving(a),
        resting(b),
        ScrolledRow::joins(a, b),
    ensures
        moving(ScrolledRow::join(a, b)),
        elements::row_shows(ScrolledRow::join(a, b), t, y, g) == (elements::row_shows(a, t, y, g)
            || elements::row_shows(b, t, y, g)),
{
    let j = ScrolledRow::join(a, b);
    lemma_moved_on(a.y, a.start_ms, a.y_animation, b.y, b.start_ms, b.end_ms, t);
    assert forall|i: int| 0 <= i < j.tspans.len() implies plain(#[trigger] j.tspans[i])
        && j.tspans[i].start_ms == j.start_ms && j.tspans[i].end_ms == j.end_ms by {
        assert(plain(a.tspans[i]));
    }
    if elements::row_shows(a, t, y, g) {
        let i = choose|i: int|
            0 <= i < a.tspans.len() && elements::span_shows(#[trigger] a.tspans[i], t, g);
        assert(plain(a.tspans[i]));
        assert(elements::span_shows(j.tspans[i], t, g));
    }
    if elements::row_shows(b, t, y, g) {
        let i = choose|i: int|
            0 <= i < b.tspans.len() && elements::span_shows(#[trigger] b.tspans[i], t, g);
        assert(elements::same_content(a.tspans[i], b.tspans[i]));
        assert(plain(a.tspans[i]));
        assert(plain(b.tspans[i]));
        assert(elements::span_shows(j.tspans[i], t, g));
    }
    if elements::row_shows(j, t, y, g) {
        let i = choose|i: int|
            0 <= i < j.tspans.len() && elements::span_shows(#[trigger] j.tspans[i], t, g);
        assert(elements::same_content(a.tspans[i], b.tspans[i]));
        assert(plain(a.tspans[i]));
        assert(plain(b.tspans[i]));
        if t < b.start_ms {
            assert(elements::span_shows(a.tspans[i], t, g));
        } else {
            assert(elements::span_shows(b.tspans[i], t, g));
        }
    }
}

/// Making one moving row of rows that follow each other keeps what they show.
pub proof fn lemma_scrolled_rows_show(v: Seq<TextElementView>, t: u32, y: u32, g: Glyph)
    requires
        merge::every(v, |e: TextElementView| resting(e)),
    ensures
        elements::text_shows(optimize::scrolled_rows(v), t, y, g) == elements::text_shows(
            v,
            t,
            y,
            g,
        ),
        merge::every(optimize::scrolled_rows(v), |e: TextElementView| moving(e)),
{
    let u = |e: TextElementView| resting(e);
    let w = |e: TextElementView| moving(e);
    let p = |e: TextElementView| elements::row_shows(e, t, y, g);
    let o = sort::sorted::<TextElement, ByStart>(v);
    merge::lemma_sorted_keeps::<TextElement, ByStart>(v, u);
    merge::lemma_sorted_keeps::<TextElement, ByStart>(v, p);
    assert forall|i: int| 0 <= i < o.len() implies w(#[trigger] o[i]) by {
        assert(u(o[i]));
    }
    assert forall|a: TextElementView, b: TextElementView|
        w(a) && u(b) && #[trigger] ScrolledRow::joins(a, b) implies w(ScrolledRow::join(a, b)) && p(
        ScrolledRow::join(a, b),
    ) == (p(a) || p(b)) by {
        lemma_scrolled_row_join(a, b, t, y, g);
    }
    merge::lemma_chained_keeps::<TextElement, ScrolledRow>(o, 0, u, w, p);
    lemma_text_shows(v, t, y, g);
    lemma_text_shows(optimize::scrolled_rows(v), t, y, g);
}

/// A row made of two rows of the same line and motion shows what the two showed.
pub proof fn lemma_same_motion_join(
    a: TextElementView,
    b: TextElementView,
    t: u32,
    y: u32,
    g: Glyph,
)
    requires
        enclosing(a),
        enclosing(b),
        SameRowAndMotion::joins(a, b),
    ensures
        enclosing(SameRowAndMotion::join(a, b)),
        elements::row_shows(SameRowAndMotion::join(a, b), t, y, g) == (elements::row_shows(
            a,
            t,
            y,
            g,
        ) || elements::row_shows(b, t, y, g)),
{
    let j = SameRowAndMotion::join(a, b);
    let n = a.tspans.len() as int;
    assert forall|i: int| 0 <= i < j.tspans.len() implies plain(#[trigger] j.tspans[i])
        && j.start_ms <= j.tspans[i].start_ms && j.tspans[i].end_ms <= j.end_ms by {
        if i < n {
            assert(plain(a.tspans[i]));
        } else {
            assert(plain(b.tspans[i - n]));
        }
    }
    if elements::row_shows(a, t, y, g) {
        let i = choose|i: int|
            0 <= i < a.tspans.len() && elements::span_shows(#[trigger] a.tspans[i], t, g);
        assert(elements::span_shows(j.tspans[i], t, g));
    }
    if elements::row_shows(b, t, y, g) {
        let i = choose|i: int|
            0 <= i < b.tspans.len() && elements::span_shows(#[trigger] b.tspans[i], t, g);
        assert(j.tspans[n + i] == b.tspans[i]);
        assert(elements::span_shows(j.tspans[n + i], t, g));
    }
    if elements::row_shows(j, t, y, g) {
        let i = choose|i: int|
            0 <= i < j.tspans.len() && elements::span_shows(#[trigger] j.tspans[i], t, g);
        if i < n {
            assert(plain(a.tspans[i]));
            assert(elements::span_shows(a.tspans[i], t, g));
        } else {
            assert(plain(b.tspans[i - n]));
            assert(elements::span_shows(b.tspans[i - n], t, g));
        }
    }
}

proof fn lemma_ordered_row(e: TextElementView, t: u32, y: u32, g: Glyph)
    requires
        enclosing(e),
    ensures
        enclosing(optimize::ordered_row(e)),
        elements::row_shows(optimize::ordered_row(e), t, y, g) == elements::row_shows(e, t, y, g),
{
    let p = |s: TSpanView| elements::span_shows(s, t, g);
    let w = |s: TSpanView| plain(s) && e.start_ms <= s.start_ms && s.end_ms <= e.end_ms;
    merge::lemma_sorted_keeps::<TSpan, ByPlace>(e.tspans, p);
    merge::lemma_sorted_keeps::<TSpan, ByPlace>(e.tspans, w);
    assert forall|i: int| 0 <= i < e.tspans.len() implies w(#[trigger] e.tspans[i]) by {
        assert(plain(e.tspans[i]));
    }
    let r = optimize::ordered_row(e);
    assert forall|i: int| 0 <= i < r.tspans.len() implies plain(#[trigger] r.tspans[i])
        && r.start_ms <= r.tspans[i].start_ms && r.tspans[i].end_ms <= r.end_ms by {
        assert(w(r.tspans[i]));
    }
    lemma_row_shows(e, t, y, g);
    lemma_row_shows(r, t, y, g);
}

/// Making one row of all rows with the same line and motion keeps what they
/// show.
pub proof fn lemma_finally_grouped_shows(v: Seq<TextElementView>, t: u32, y: u32, g: Glyph)
    requires
        merge::every(v, |e: TextElementView| enclosing(e)),
    ensures
        elements::text_shows(optimize::finally_grouped(v), t, y, g) == elements::text_shows(
            v,
            t,
            y,
            g,
        ),
        merge::every(optimize::finally_grouped(v), |e: TextElementView| enclosing(e)),
{
    let w = |e: TextElementView| enclosing(e);
    let p = |e: TextElementView| elements::row_shows(e, t, y, g);
    let o = sort::sorted::<TextElement, ByRowAndMotion>(v);
    merge::lemma_sorted_keeps::<TextElement, ByRowAndMotion>(v, w);
    merge::lemma_sorted_keeps::<TextElement, ByRowAndMotion>(v, p);
    assert forall|a: TextElementView, b: TextElementView|
        w(a) && w(b) && #[trigger] SameRowAndMotion::joins(a, b) implies w(
        SameRowAndMotion::join(a, b),
    ) && p(SameRowAndMotion::join(a, b)) == (p(a) || p(b)) by {
        lemma_same_motion_join(a, b, t, y, g);
    }
    merge::lemma_merged_keeps::<TextElement, SameRowAndMotion>(o, w, w, p);
    let m = merge::merged::<TextElement, SameRowAndMotion>(o);
    let f = |e: TextElementView| optimize::ordered_row(e);
    assert forall|e: TextElementView| #[trigger] w(e) implies w(f(e)) && p(f(e)) == p(e) by {
        lemma_ordered_row(e, t, y, g);
    }
    lemma_each(m, f, w, w, p);
    assert(each(m, f) =~= optimize::finally_grouped(v));
    lemma_text_shows(v, t, y, g);
    lemma_text_shows(optimize::finally_grouped(v), t, y, g);
}

/// Line breaks behind runs change nothing of what is shown.
pub proof fn lemma_broken_row_shows(e: TextElementView, t: u32, y: u32, g: Glyph)
    requires
        set_out(e),
    ensures
        elements::row_shows(optimize::broken_row(e), t, y, g) == elements::row_shows(e, t, y, g),
{
    let r = optimize::broken_row(e);
    assert forall|i: int| 0 <= i < e.tspans.len() implies elements::span_shows(
        #[trigger] r.tspans[i],
        t,
        g,
    ) == elements::span_shows(e.tspans[i], t, g) by {
        assert(placed(e.tspans[i]));
        let a = e.tspans[i];
        let b = r.tspans[i];
        assert forall|k: int| 0 <= k < a.x_coords.len() implies b.text[k] == a.text[k] by {}
        if elements::span_shows(a, t, g) {
            let k = choose|k: int|
                0 <= k < a.x_coords.len() && k < a.text.len() && #[trigger] a.x_coords[k] == g.x
                    && a.text[k] == g.c;
            assert(b.x_coords[k] == g.x && b.text[k] == g.c);
        }
        if elements::span_shows(b, t, g) {
            let k = choose|k: int|
                0 <= k < b.x_coords.len() && k < b.text.len() && #[trigger] b.x_coords[k] == g.x
                    && b.text[k] == g.c;
            assert(a.x_coords[k] == g.x && a.text[k] == g.c);
        }
    }
    if elements::row_shows(e, t, y, g) {
        let i = choose|i: int|
            0 <= i < e.tspans.len() && elements::span_shows(#[trigger] e.tspans[i], t, g);
        assert(elements::span_shows(r.tspans[i], t, g));
    }
    if elements::row_shows(r, t, y, g) {
        let i = choose|i: int|
            0 <= i < r.tspans.len() && elements::span_shows(#[trigger] r.tspans[i], t, g);
        assert(elements::span_shows(e.tspans[i], t, g));
    }
}

proof fn lemma_constant_segments(s: Seq<(u32, u32)>, t: u32)
    requires
        s.len() > 0,
        forall|i: int| 0 <= i < s.len() ==> (#[trigger] s[i]).0 == s[0].0,
    ensures
        elements::segment_row(s, t) == s[0].0,
    decreases s.len(),
{
    if s.len() > 1 {
        let d = s.drop_last();
        assert forall|i: int| 0 <= i < d.len() implies (#[trigger] d[i]).0 == d[0].0 by {
            assert(s[i].0 == s[0].0);
        }
        lemma_constant_segments(d, t);
    }
    assert(s[s.len() - 1].0 == s[0].0);
}

/// An element whose line never changes stands where it would stand without its
/// motion.
pub proof fn lemma_settled(y: u32, m: Option<YAnimationView>, t: u32)
    requires
        moves_from(m, y),
    ensures
        elements::row_at(y, settled(m), t) == elements::row_at(y, m, t),
{
    match m {
        Some(a) => {
            if settled(m) is None {
                lemma_constant_segments(a.segments, t);
            }
        },
        None => {},
    }
}

/// The rows of one line and time, each with its runs merged.
pub open spec fn first_rows(v: Seq<TextElementView>) -> Seq<TextElementView> {
    each(optimize::grouped_rows(v), |e: TextElementView| optimize::optimized_row(e))
}

/// The rows with their runs merged once more, broken and settled.
pub open spec fn last_rows(v: Seq<TextElementView>) -> Seq<TextElementView> {
    each(
        each(
            each(v, |e: TextElementView| optimize::optimized_row(e)),
            |e: TextElementView| optimize::broken_row(e),
        ),
        |e: TextElementView| settled_row(e),
    )
}

proof fn lemma_first_rows(v: Seq<TextElementView>, t: u32, y: u32, g: Glyph)
    requires
        merge::every(v, |e: TextElementView| resting(e)),
    ensures
        merge::every(first_rows(v), |e: TextElementView| resting(e)),
        elements::text_shows(first_rows(v), t, y, g) == elements::text_shows(v, t, y, g),
{
    let rest = |e: TextElementView| resting(e);
    let p = |e: TextElementView| elements::row_shows(e, t, y, g);
    let opt = |e: TextElementView| optimize::optimized_row(e);
    assert forall|i: int, j: int| 0 <= i < v.len() && 0 <= j < v.len() implies #[trigger] alike(
        v[i],
        v[j],
    ) by {
        assert(rest(v[i]) && rest(v[j]));
    }
    lemma_grouped_rows_show(v, t, y, g);
    lemma_grouped_resting(v);
    let a = optimize::grouped_rows(v);
    assert forall|e: TextElementView| #[trigger] rest(e) implies rest(opt(e)) && p(opt(e)) == p(
        e,
    ) by {
        lemma_optimized_resting(e);
        lemma_optimized_row_shows(e, t, y, g);
    }
    lemma_each(a, opt, rest, rest, p);
    lemma_text_shows(a, t, y, g);
    lemma_text_shows(first_rows(v), t, y, g);
}

proof fn lemma_last_rows(v: Seq<TextElementView>, t: u32, y: u32, g: Glyph)
    requires
        merge::every(v, |e: TextElementView| enclosing(e)),
    ensures
        elements::text_shows(last_rows(v), t, y, g) == elements::text_shows(v, t, y, g),
{
    let enc = |e: TextElementView| enclosing(e);
    let set = |e: TextElementView| set_out(e);
    let any = |e: TextElementView| true;
    let p = |e: TextElementView| elements::row_shows(e, t, y, g);
    let opt = |e: TextElementView| optimize::optimized_row(e);
    let brk = |e: TextElementView| optimize::broken_row(e);
    let stl = |e: TextElementView| settled_row(e);
    let from = |e: TextElementView| moves_from(e.y_animation, e.y);
    assert forall|e: TextElementView| #[trigger] enc(e) implies set(opt(e)) && p(opt(e)) == p(
        e,
    ) by {
        lemma_optimized_row_shows(e, t, y, g);
    }
    lemma_each(v, opt, enc, set, p);
    let f = each(v, opt);
    assert forall|e: TextElementView| #[trigger] set(e) implies from(brk(e)) && p(brk(e)) == p(
        e,
    ) by {
        lemma_broken_row_shows(e, t, y, g);
    }
    lemma_each(f, brk, set, from, p);
    let h = each(f, brk);
    assert forall|e: TextElementView| #[trigger] from(e) implies any(stl(e)) && p(stl(e)) == p(
        e,
    ) by {
        lemma_settled(e.y, e.y_animation, t);
        lemma_row_shows(e, t, y, g);
        lemma_row_shows(stl(e), t, y, g);
    }
    lemma_each(h, stl, from, any, p);
    lemma_text_shows(v, t, y, g);
    lemma_text_shows(last_rows(v), t, y, g);
}

/// The rows of a document show, at every moment, exactly what the rows of its
/// cells show.
pub proof fn lemma_arranged_text_shows(v: Seq<TextElementView>, t: u32, y: u32, g: Glyph)
    requires
        merge::every(v, |e: TextElementView| resting(e)),
    ensures
        elements::text_shows(arranged_text(v), t, y, g) == elements::text_shows(v, t, y, g),
{
    lemma_first_rows(v, t, y, g);
    let b = first_rows(v);
    lemma_scrolled_rows_show(b, t, y, g);
    let c = optimize::scrolled_rows(b);
    let mov = |e: TextElementView| moving(e);
    let enc = |e: TextElementView| enclosing(e);
    assert forall|i: int| 0 <= i < c.len() implies enc(#[trigger] c[i]) by {
        assert(mov(c[i]));
    }
    lemma_finally_grouped_shows(c, t, y, g);
    lemma_last_rows(optimize::finally_grouped(c), t, y, g);
}

/// A rectangle of the background before it is merged with others.
pub open spec fn resting_rect(r: BgRectView) -> bool {
    r.y_animation is None && r.start_ms <= r.end_ms && r.x + r.w <= u32::MAX
}

/// A rectangle that may move.
pub open spec fn moving_rect(r: BgRectView) -> bool {
    moves_from(r.y_animation, r.y) && optimize::time_fits(r.start_ms, r.end_ms, r.y_animation)
}

proof fn lemma_rects_cover(v: Seq<BgRectView>, t: u32, px: int, py: int, fill: Rgb)
    ensures
        elements::rects_cover(v, t, px, py, fill) == merge::some(
            v,
            |r: BgRectView| elements::rect_covers(r, t, px, py, fill),
        ),
{
    let p = |r: BgRectView| elements::rect_covers(r, t, px, py, fill);
    if elements::rects_cover(v, t, px, py, fill) {
        let i = choose|i: int|
            0 <= i < v.len() && elements::rect_covers(#[trigger] v[i], t, px, py, fill);
        assert(p(v[i]));
    }
    if merge::some(v, p) {
        let i = choose|i: int| 0 <= i < v.len() && p(#[trigger] v[i]);
        assert(elements::rect_covers(v[i], t, px, py, fill));
    }
}

/// Making one rectangle of touching ones keeps what they cover.
pub proof fn lemma_banded_rects_cover(
    v: Seq<BgRectView>,
    t: u32,
    px: int,
    py: int,
    fill: Rgb,
)
    requires
        merge::every(v, |r: BgRectView| resting_rect(r)),
    ensures
        elements::rects_cover(optimize::banded_rects(v), t, px, py, fill) == elements::rects_cover(
            v,
            t,
            px,
            py,
            fill,
        ),
        merge::every(optimize::banded_rects(v), |r: BgRectView| resting_rect(r)),
{
    let w = |r: BgRectView| resting_rect(r);
    let p = |r: BgRectView| elements::rect_covers(r, t, px, py, fill);
    merge::lemma_sorted_keeps::<BgRect, ByBand>(v, w);
    merge::lemma_sorted_keeps::<BgRect, ByBand>(v, p);
    merge::lemma_merged_keeps::<BgRect, SameBand>(sort::sorted::<BgRect, ByBand>(v), w, w, p);
    lemma_rects_cover(v, t, px, py, fill);
    lemma_rects_cover(optimize::banded_rects(v), t, px, py, fill);
}

/// Making one moving rectangle of rectangles that follow each other keeps what
/// they cover.
pub proof fn lemma_scrolled_rects_cover(
    v: Seq<BgRectView>,
    t: u32,
    px: int,
    py: int,
    fill: Rgb,
)
    requires
        merge::every(v, |r: BgRectView| resting_rect(r)),
    ensures
        elements::rects_cover(optimize::scrolled_rects(v), t, px, py, fill)
            == elements::rects_cover(v, t, px, py, fill),
        merge::every(optimize::scrolled_rects(v), |r: BgRectView| moving_rect(r)),
{
    let u = |r: BgRectView| resting_rect(r);
    let w = |r: BgRectView| moving_rect(r);
    let p = |r: BgRectView| elements::rect_covers(r, t, px, py, fill);
    let o = sort::sorted::<BgRect, ByStart>(v);
    merge::lemma_sorted_keeps::<BgRect, ByStart>(v, u);
    merge::lemma_sorted_keeps::<BgRect, ByStart>(v, p);
    assert forall|i: int| 0 <= i < o.len() implies w(#[trigger] o[i]) by {
        assert(u(o[i]));
    }
    assert forall|a: BgRectView, b: BgRectView|
        w(a) && u(b) && #[trigger] ScrolledRect::joins(a, b) implies w(ScrolledRect::join(a, b))
        && p(ScrolledRect::join(a, b)) == (p(a) || p(b)) by {
        lemma_moved_on(a.y, a.start_ms, a.y_animation, b.y, b.start_ms, b.end_ms, t);
    }
    merge::lemma_chained_keeps::<BgRect, ScrolledRect>(o, 0, u, w, p);
    lemma_rects_cover(v, t, px, py, fill);
    lemma_rects_cover(optimize::scrolled_rects(v), t, px, py, fill);
}

/// The backgrounds of a document cover, at every moment, exactly what the
/// rectangles of its cells cover.
pub proof fn lemma_arranged_rects_cover(
    v: Seq<BgRectView>,
    t: u32,
    px: int,
    py: int,
    fill: Rgb,
)
    requires
        merge::every(v, |r: BgRectView| resting_rect(r)),
    ensures
        elements::rects_cover(arranged_rects(v), t, px, py, fill) == elements::rects_cover(
            v,
            t,
            px,
            py,
            fill,
        ),
{
    lemma_banded_rects_cover(v, t, px, py, fill);
    let b = optimize::banded_rects(v);
    lemma_scrolled_rects_cover(b, t, px, py, fill);
    let c = optimize::scrolled_rects(b);
    let u = |r: BgRectView| moving_rect(r);
    let any = |r: BgRectView| true;
    let p = |r: BgRectView| elements::rect_covers(r, t, px, py, fill);
    let f = |r: BgRectView| settled_rect(r);
    assert forall|r: BgRectView| #[trigger] u(r) implies any(f(r)) && p(f(r)) == p(r) by {
        lemma_settled(r.y, r.y_animation, t);
    }
    lemma_each(c, f, u, any, p);
    lemma_rects_cover(c, t, px, py, fill);
    lemma_rects_cover(arranged_rects(v), t, px, py, fill);
}

fn settle(m: Option<YAnimation>) -> (r: Option<YAnimation>)
    requires
        m matches Some(a) ==> a.segments@.len() > 0,
    ensures
        elements::motion(r) == settled(elements::motion(m)),
{
    match m {
        None => None,
        Some(a) => {
            let first: u32 = a.segments[0].0;
            let mut i: usize = 0;
            while i < a.segments.len()
                invariant
                    i <= a.segments@.len(),
                    a.segments@.len() > 0,
                    first == a.segments@[0].0,
                    elements::motion(m) == Some(a@),
                    forall|k: int| 0 <= k < i ==> (#[trigger] a.segments@[k]).0 == first,
                decreases a.segments@.len() - i,
            {
                if a.segments[i].0 != first {
                    assert(a@.segments[i as int].0 != a@.segments[0].0);
                    assert(!is_level(a@.segments));
                    return Some(a);
                }
                i = i + 1;
            }
            None
        },
    }
}

proof fn lemma_views_each<T: View>(a: Seq<T>, b: Seq<T>, f: spec_fn(T::V) -> T::V)
    requires
        a.len() == b.len(),
        forall|i: int| 0 <= i < a.len() ==> (#[trigger] b[i])@ == f(a[i]@),
    ensures
        sort::views(b) == each(sort::views(a), f),
{
    assert(sort::views(b) =~= each(sort::views(a), f));
}

/// Merges the rows of the cells into the rows of a document.
pub fn arrange_text(elements: Vec<TextElement>) -> (out: Vec<TextElement>)
    requires
        merge::every(sort::views(elements@), |e: TextElementView| resting(e)),
    ensures
        sort::views(out@) == arranged_text(sort::views(elements@)),
{
    let ghost start = sort::views(elements@);
    let ghost rest = |e: TextElementView| resting(e);
    let ghost mov = |e: TextElementView| moving(e);
    let ghost enc = |e: TextElementView| enclosing(e);
    let ghost set = |e: TextElementView| set_out(e);
    let ghost opt = |e: TextElementView| optimize::optimized_row(e);
    let ghost brk = |e: TextElementView| optimize::broken_row(e);
    let ghost stl = |e: TextElementView| settled_row(e);
    let ghost g: Glyph = arbitrary();
    let mut v: Vec<TextElement> = elements;
    group_text_elements_by_row_and_time(&mut v);
    let ghost s1 = v@;
    proof {
        lemma_grouped_resting(start);
        assert forall|i: int| 0 <= i < s1.len() implies optimize::runs_fit(
            (#[trigger] s1[i])@,
        ) by {
            let e = sort::views(s1)[i];
            assert(rest(e));
            assert forall|k: int| 0 <= k < e.tspans.len() implies Runs::fits(
                #[trigger] e.tspans[k],
            ) by {
                assert(plain(e.tspans[k]));
            }
        }
    }
    optimize_tspans(v.as_mut_slice());
    let ghost s2 = v@;
    proof {
        lemma_views_each(s1, s2, opt);
        assert(sort::views(s2) =~= first_rows(start));
        lemma_first_rows(start, 0, 0, g);
        assert forall|i: int| 0 <= i < s2.len() implies ScrolledRow::fits(
            #[trigger] sort::views(s2)[i],
        ) by {
            assert(rest(first_rows(start)[i]));
        }
    }
    optimize_rows(&mut v);
    let ghost s3 = sort::views(v@);
    proof {
        lemma_scrolled_rows_show(first_rows(start), 0, 0, g);
        assert forall|i: int| 0 <= i < s3.len() implies enc(#[trigger] s3[i])
            && SameRowAndMotion::fits(s3[i]) by {
            assert(mov(s3[i]));
            assert forall|k: int| 0 <= k < s3[i].tspans.len() implies ByPlace::fits(
                #[trigger] s3[i].tspans[k],
            ) by {
                assert(plain(s3[i].tspans[k]));
            }
        }
    }
    group_text_elements_final(&mut v);
    let ghost s4 = v@;
    proof {
        lemma_finally_grouped_shows(s3, 0, 0, g);
        assert forall|i: int| 0 <= i < s4.len() implies optimize::runs_fit(
            (#[trigger] s4[i])@,
        ) by {
            let e = sort::views(s4)[i];
            assert(enc(e));
            assert forall|k: int| 0 <= k < e.tspans.len() implies Runs::fits(
                #[trigger] e.tspans[k],
            ) by {
                assert(plain(e.tspans[k]));
            }
        }
    }
    optimize_tspans(v.as_mut_slice());
    let ghost s5 = v@;
    append_newlines_to_final_tspans(v.as_mut_slice());
    let ghost s6 = v@;
    proof {
        lemma_views_each(s4, s5, opt);
        lemma_views_each(s5, s6, brk);
        assert forall|i: int| 0 <= i < s6.len() implies moves_from(
            (#[trigger] s6[i])@.y_animation,
            s6[i]@.y,
        ) by {
            assert(enc(sort::views(s4)[i]));
            assert(s5[i]@ == opt(s4[i]@));
            assert(s6[i]@ == brk(s5[i]@));
        }
    }
    let mut i: usize = 0;
    while i < v.len()
        invariant
            i <= v@.len(),
            v@.len() == s6.len(),
            forall|k: int|
                0 <= k < s6.len() ==> moves_from((#[trigger] s6[k])@.y_animation, s6[k]@.y),
            forall|k: int| 0 <= k < i ==> (#[trigger] v@[k])@ == settled_row(s6[k]@),
            forall|k: int| i <= k < v@.len() ==> #[trigger] v@[k] == s6[k],
        decreases v@.len() - i,
    {
        assert(v@[i as int] == s6[i as int]);
        assert(moves_from(s6[i as int]@.y_animation, s6[i as int]@.y));
        let mut m: Option<YAnimation> = None;
        std::mem::swap(&mut m, &mut v[i].y_animation);
        v[i].y_animation = settle(m);
        assert(v@[i as int]@ =~= settled_row(s6[i as int]@));
        i = i + 1;
    }
    proof {
        lemma_views_each(s6, v@, stl);
    }
    v
}

/// Merges the rectangles of the cells into the backgrounds of a document.
pub fn arrange_rects(rects: Vec<BgRect>) -> (out: Vec<BgRect>)
    requires
        merge::every(sort::views(rects@), |r: BgRectView| resting_rect(r)),
    ensures
        sort::views(out@) == arranged_rects(sort::views(rects@)),
{
    let ghost start = sort::views(rects@);
    let ghost rest = |r: BgRectView| resting_rect(r);
    let ghost mov = |r: BgRectView| moving_rect(r);
    let ghost stl = |r: BgRectView| settled_rect(r);
    let ghost fill: Rgb = arbitrary();
    let mut v: Vec<BgRect> = rects;
    assert forall|i: int| 0 <= i < start.len() implies SameBand::fits(#[trigger] start[i]) by {
        assert(rest(start[i]));
    }
    optimize_bg_rects(&mut v);
    let ghost s1 = sort::views(v@);
    proof {
        lemma_banded_rects_cover(start, 0, 0, 0, fill);
        assert forall|i: int| 0 <= i < s1.len() implies ScrolledRect::fits(#[trigger] s1[i]) by {
            assert(rest(s1[i]));
        }
    }
    optimize_bg_rect_scroll(&mut v);
    let ghost s2 = v@;
    proof {
        lemma_scrolled_rects_cover(s1, 0, 0, 0, fill);
        assert forall|i: int| 0 <= i < s2.len() implies moving_rect((#[trigger] s2[i])@) by {
            assert(mov(sort::views(s2)[i]));
        }
    }
    let mut i: usize = 0;
    while i < v.len()
        invariant
            i <= v@.len(),
            v@.len() == s2.len(),
            forall|k: int| 0 <= k < s2.len() ==> moving_rect((#[trigger] s2[k])@),
            forall|k: int| 0 <= k < i ==> (#[trigger] v@[k])@ == settled_rect(s2[k]@),
            forall|k: int| i <= k < v@.len() ==> #[trigger] v@[k] == s2[k],
        decreases v@.len() - i,
    {
        assert(v@[i as int] == s2[i as int]);
        assert(moving_rect(s2[i as int]@));
        let mut m: Option<YAnimation> = None;
        std::mem::swap(&mut m, &mut v[i].y_animation);
        v[i].y_animation = settle(m);
        assert(v@[i as int]@ =~= settled_rect(s2[i as int]@));
        i = i + 1;
    }
    proof {
        lemma_views_each(s2, v@, stl);
    }
    v
}

} // verus!
