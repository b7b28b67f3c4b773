//! Merging keeps the numbers of a document printable.
use vstd::prelude::*;

use crate::merge::Merge;
use crate::merge;
use crate::render_svg::arrange;
use crate::render_svg::elements::{
    BgRect, BgRectView, StyleKeyframe, TSpan, TSpanView, TextElement, TextElementView,
    YAnimationView,
};
use crate::render_svg::markup;
use crate::render_svg::optimize;
use crate::render_svg::optimize::{
    ByBand, ByPlace, ByPlaceAndTime, ByRowAndMotion, ByRowAndTime, ByStart, Runs, SameBand,
    SameRowAndMotion, SameRowAndTime, ScrolledRect, ScrolledRow,
};
use crate::render_svg::shapes::CELL_LIMIT;
use crate::render_svg::text_markup;
use crate::single::ONE;
use crate::sort;

verus! {

/// The lengths of a run, all within what can be printed.
pub open spec fn lengths_fit(s: TSpanView) -> bool {
    &&& forall|i: int| 0 <= i < s.x_coords.len() ==> markup::in_range(#[trigger] s.x_coords[i] as int)
    &&& s.x_coords.len() > 0
    &&& markup::in_range(s.letter_spacing as int)
    &&& s.cell_w <= CELL_LIMIT
    &&& s.cell_h <= CELL_LIMIT
    &&& s.baseline <= CELL_LIMIT
    &&& -0xff_ffff * ONE <= s.cell_center_y_offset <= 0xff_ffff * ONE
    &&& -0xff_ffff * ONE <= s.char_center_y_offset <= 0xff_ffff * ONE
    &&& markup::in_range(s.scale_y as int)
}

/// No keyframe and no animation of a run comes before its begin.
pub open spec fn runs_forward(s: TSpanView) -> bool {
    &&& forall|i: int|
        0 <= i < s.style_history.len() ==> s.start_ms <= (#[trigger] s.style_history[i]).start_ms
    &&& forall|i: int|
        0 <= i < s.style_animations.len() ==> (#[trigger] s.style_animations[i]).in_time()
}

/// A run of sound lengths and times.
pub open spec fn sound_run(s: TSpanView) -> bool {
    arrange::placed(s) && lengths_fit(s) && runs_forward(s)
}

/// A motion within what can be printed.
pub open spec fn sound_motion(m: Option<YAnimationView>, end_ms: u32) -> bool {
    text_markup::motion_printable(m) && (m matches Some(a) ==> a.begin_ms <= end_ms)
}

/// A row of sound runs.
pub open spec fn sound_row(e: TextElementView) -> bool {
    &&& e.y <= CELL_LIMIT
    &&& e.start_ms <= e.end_ms
    &&& sound_motion(e.y_animation, e.end_ms)
    &&& forall|i: int| 0 <= i < e.tspans.len() ==> sound_run(#[trigger] e.tspans[i])
}

proof fn lemma_changes_subset<K>(s: Seq<(u32, K)>, begin: u32)
    requires
        text_markup::none_before(s, begin),
    ensures
        text_markup::none_before(optimize::changes(s), begin),
    decreases s.len(),
{
    if s.len() > 0 {
        let d = s.drop_last();
        assert forall|i: int| 0 <= i < d.len() implies begin <= (#[trigger] d[i]).0 by {
            assert(begin <= s[i].0);
        }
        lemma_changes_subset(d, begin);
        let kept = optimize::changes(d);
        let r = optimize::changes(s);
        assert forall|i: int| 0 <= i < r.len() implies begin <= (#[trigger] r[i]).0 by {
            if i < kept.len() {
                assert(begin <= kept[i].0);
            } else {
                assert(begin <= s[s.len() - 1].0);
            }
        }
    }
}

proof fn lemma_animations_forward(h: Seq<StyleKeyframe>, begin: u32, dur: u32)
    requires
        forall|i: int| 0 <= i < h.len() ==> begin <= (#[trigger] h[i]).start_ms,
    ensures
        forall|i: int|
            0 <= i < optimize::animations(h, begin, dur).len() ==> (#[trigger] optimize::animations(
                h,
                begin,
                dur,
            )[i]).in_time(),
{
    let fg = optimize::fg_times(h);
    let bold = optimize::bold_times(h);
    let italic = optimize::italic_times(h);
    let lines = optimize::line_times(h);
    assert forall|i: int| 0 <= i < fg.len() implies begin <= (#[trigger] fg[i]).0 by {
        assert(begin <= h[i].start_ms);
    }
    assert forall|i: int| 0 <= i < bold.len() implies begin <= (#[trigger] bold[i]).0 by {
        assert(begin <= h[i].start_ms);
    }
    assert forall|i: int| 0 <= i < italic.len() implies begin <= (#[trigger] italic[i]).0 by {
        assert(begin <= h[i].start_ms);
    }
    assert forall|i: int| 0 <= i < lines.len() implies begin <= (#[trigger] lines[i]).0 by {
        assert(begin <= h[i].start_ms);
    }
    lemma_changes_subset(fg, begin);
    lemma_changes_subset(bold, begin);
    lemma_changes_subset(italic, begin);
    lemma_changes_subset(lines, begin);
}

proof fn lemma_sound_join(a: TSpanView, b: TSpanView)
    requires
        sound_run(a),
        sound_run(b),
        Runs::joins(a, b),
    ensures
        sound_run(Runs::join(a, b)),
{
    let j = Runs::join(a, b);
    if optimize::beside(a, b) {
        assert forall|i: int| 0 <= i < j.x_coords.len() implies markup::in_range(
            #[trigger] j.x_coords[i] as int,
        ) by {
            if i < a.x_coords.len() {
                assert(markup::in_range(a.x_coords[i] as int));
            } else {
                assert(markup::in_range(b.x_coords[i - a.x_coords.len()] as int));
            }
        }
    } else {
        let h = optimize::full_history(a);
        assert forall|i: int| 0 <= i < j.style_history.len() implies j.start_ms <= (
        #[trigger] j.style_history[i]).start_ms by {
            if i < h.len() {
                assert(j.style_history[i] == h[i]);
                if a.style_history.len() > 0 {
                    assert(a.start_ms <= a.style_history[i].start_ms);
                }
            }
        }
    }
}

proof fn lemma_sound_animated(s: TSpanView)
    requires
        sound_run(s),
    ensures
        sound_run(optimize::animated(s)),
{
    if s.style_history.len() > 0 {
        lemma_animations_forward(s.style_history, s.start_ms, (s.end_ms - s.start_ms) as u32);
    }
}

proof fn lemma_sound_optimized(e: TextElementView)
    requires
        sound_row(e),
    ensures
        sound_row(optimize::optimized_row(e)),
{
    let w = |s: TSpanView| sound_run(s);
    let p = |s: TSpanView| true;
    assert(merge::every(e.tspans, w)) by {
        assert forall|i: int| 0 <= i < e.tspans.len() implies w(#[trigger] e.tspans[i]) by {
            assert(sound_run(e.tspans[i]));
        }
    }
    merge::lemma_sorted_keeps::<TSpan, ByPlaceAndTime>(e.tspans, w);
    let o = sort::sorted::<TSpan, ByPlaceAndTime>(e.tspans);
    assert forall|a: TSpanView, b: TSpanView|
        w(a) && w(b) && #[trigger] Runs::joins(a, b) implies w(Runs::join(a, b)) && p(
        Runs::join(a, b),
    ) == (p(a) || p(b)) by {
        lemma_sound_join(a, b);
    }
    merge::lemma_merged_keeps::<TSpan, Runs>(o, w, w, p);
    let m = merge::merged::<TSpan, Runs>(o);
    let r = optimize::optimized_row(e);
    assert forall|i: int| 0 <= i < r.tspans.len() implies sound_run(#[trigger] r.tspans[i]) by {
        assert(w(m[i]));
        lemma_sound_animated(m[i]);
    }
}

proof fn lemma_sound_grouped(v: Seq<TextElementView>)
    requires
        merge::every(v, |e: TextElementView| sound_row(e)),
    ensures
        merge::every(optimize::grouped_rows(v), |e: TextElementView| sound_row(e)),
{
    let w = |e: TextElementView| sound_row(e);
    let p = |e: TextElementView| true;
    merge::lemma_sorted_keeps::<TextElement, ByRowAndTime>(v, w);
    assert forall|a: TextElementView, b: TextElementView|
        w(a) && w(b) && #[trigger] SameRowAndTime::joins(a, b) implies w(
        SameRowAndTime::join(a, b),
    ) && p(SameRowAndTime::join(a, b)) == (p(a) || p(b)) by {
        let j = SameRowAndTime::join(a, b);
        assert forall|i: int| 0 <= i < j.tspans.len() implies sound_run(#[trigger] j.tspans[i]) by {
            if i < a.tspans.len() {
                assert(sound_run(a.tspans[i]));
            } else {
                assert(sound_run(b.tspans[i - a.tspans.len()]));
            }
        }
    }
    merge::lemma_merged_keeps::<TextElement, SameRowAndTime>(
        sort::sorted::<TextElement, ByRowAndTime>(v),
        w,
        w,
        p,
    );
}

proof fn lemma_sound_moved_on(
    y0: u32,
    s0: u32,
    e0: u32,
    m: Option<YAnimationView>,
    y: u32,
    s: u32,
    e: u32,
)
    requires
        sound_motion(m, e0),
        s0 <= e0,
        e0 == s,
        s <= e,
        y0 <= CELL_LIMIT,
        y <= CELL_LIMIT,
    ensures
        sound_motion(Some(optimize::moved_on(y0, s0, m, y, s, e)), e),
{
    let r = optimize::moved_on(y0, s0, m, y, s, e);
    assert forall|i: int| 0 <= i < r.segments.len() implies r.begin_ms <= (
    #[trigger] r.segments[i]).1 && r.segments[i].0 <= CELL_LIMIT by {
        match m {
            Some(a) => {
                if i < a.segments.len() {
                    assert(r.segments[i] == a.segments[i]);
                    assert(a.begin_ms <= a.segments[i].1);
                    assert(a.segments[i].0 <= CELL_LIMIT);
                }
            },
            None => {},
        }
    }
}

proof fn lemma_sound_scrolled(v: Seq<TextElementView>)
    requires
        merge::every(v, |e: TextElementView| sound_row(e)),
    ensures
        merge::every(optimize::scrolled_rows(v), |e: TextElementView| sound_row(e)),
{
    let w = |e: TextElementView| sound_row(e);
    let p = |e: TextElementView| true;
    let o = sort::sorted::<TextElement, ByStart>(v);
    merge::lemma_sorted_keeps::<TextElement, ByStart>(v, w);
    assert forall|a: TextElementView, b: TextElementView|
        w(a) && w(b) && #[trigger] ScrolledRow::joins(a, b) implies w(ScrolledRow::join(a, b)) && p(
        ScrolledRow::join(a, b),
    ) == (p(a) || p(b)) by {
        let j = ScrolledRow::join(a, b);
        lemma_sound_moved_on(
            a.y,
            a.start_ms,
            a.end_ms,
            a.y_animation,
            b.y,
            b.start_ms,
            b.end_ms,
        );
        assert forall|i: int| 0 <= i < j.tspans.len() implies sound_run(#[trigger] j.tspans[i]) by {
            assert(sound_run(a.tspans[i]));
        }
    }
    merge::lemma_chained_keeps::<TextElement, ScrolledRow>(o, 0, w, w, p);
}

proof fn lemma_sound_final(v: Seq<TextElementView>)
    requires
        merge::every(v, |e: TextElementView| sound_row(e)),
    ensures
        merge::every(optimize::finally_grouped(v), |e: TextElementView| sound_row(e)),
{
    let w = |e: TextElementView| sound_row(e);
    let p = |e: TextElementView| true;
    let o = sort::sorted::<TextElement, ByRowAndMotion>(v);
    merge::lemma_sorted_keeps::<TextElement, ByRowAndMotion>(v, w);
    assert forall|a: TextElementView, b: TextElementView|
        w(a) && w(b) && #[trigger] SameRowAndMotion::joins(a, b) implies w(
        SameRowAndMotion::join(a, b),
    ) && p(SameRowAndMotion::join(a, b)) == (p(a) || p(b)) by {
        let j = SameRowAndMotion::join(a, b);
        assert forall|i: int| 0 <= i < j.tspans.len() implies sound_run(#[trigger] j.tspans[i]) by {
            if i < a.tspans.len() {
                assert(sound_run(a.tspans[i]));
            } else {
                assert(sound_run(b.tspans[i - a.tspans.len()]));
            }
        }
    }
    merge::lemma_merged_keeps::<TextElement, SameRowAndMotion>(o, w, w, p);
    let m = merge::merged::<TextElement, SameRowAndMotion>(o);
    let f = optimize::finally_grouped(v);
    assert forall|i: int| 0 <= i < f.len() implies w(#[trigger] f[i]) by {
        assert(w(m[i]));
        let ws = |s: TSpanView| sound_run(s);
        assert(merge::every(m[i].tspans, ws)) by {
            assert forall|k: int| 0 <= k < m[i].tspans.len() implies ws(
                #[trigger] m[i].tspans[k],
            ) by {
                assert(sound_run(m[i].tspans[k]));
            }
        }
        merge::lemma_sorted_keeps::<TSpan, ByPlace>(m[i].tspans, ws);
        assert forall|k: int| 0 <= k < f[i].tspans.len() implies sound_run(
            #[trigger] f[i].tspans[k],
        ) by {
            assert(ws(f[i].tspans[k]));
        }
    }
}

proof fn lemma_drawn_len(s: Seq<char>)
    ensures
        text_markup::drawn(s).len() <= s.len(),
        text_markup::drawn(s.push('\n')) == text_markup::drawn(s),
    decreases s.len(),
{
    assert(s.push('\n').drop_last() =~= s);
    if s.len() > 0 {
        lemma_drawn_len(s.drop_last());
    }
}

/// The last steps leave a row printable.
proof fn lemma_last_printable(e: TextElementView)
    requires
        sound_row(e),
    ensures
        text_markup::row_printable(arrange::settled_row(optimize::broken_row(e))),
{
    let r = arrange::settled_row(optimize::broken_row(e));
    assert forall|i: int| 0 <= i < r.tspans.len() implies text_markup::span_printable(
        #[trigger] r.tspans[i],
    ) && (r.tspans[i].is_box ==> text_markup::box_printable(
        r.tspans[i],
        r.y,
        r.y_animation,
    )) by {
        assert(sound_run(e.tspans[i]));
        lemma_drawn_len(e.tspans[i].text);
        let a = e.tspans[i];
        let b = r.tspans[i];
        assert forall|k: int| 0 <= k < b.x_coords.len() implies markup::in_range(
            #[trigger] b.x_coords[k] as int,
        ) by {
            assert(markup::in_range(a.x_coords[k] as int));
        }
        assert forall|k: int| 0 <= k < b.style_animations.len() implies (
        #[trigger] b.style_animations[k]).in_time() by {
            assert(a.style_animations[k].in_time());
        }
    }
}

/// The rows of a document can be printed if those of its cells are sound.
pub proof fn lemma_arranged_text_printable(v: Seq<TextElementView>)
    requires
        merge::every(v, |e: TextElementView| sound_row(e)),
    ensures
        forall|i: int|
            0 <= i < arrange::arranged_text(v).len() ==> text_markup::row_printable(
                #[trigger] arrange::arranged_text(v)[i],
            ),
{
    let w = |e: TextElementView| sound_row(e);
    lemma_sound_grouped(v);
    let a = optimize::grouped_rows(v);
    let b = arrange::first_rows(v);
    assert forall|i: int| 0 <= i < b.len() implies w(#[trigger] b[i]) by {
        assert(w(a[i]));
        lemma_sound_optimized(a[i]);
    }
    lemma_sound_scrolled(b);
    let c = optimize::scrolled_rows(b);
    lemma_sound_final(c);
    let d = optimize::finally_grouped(c);
    let z = arrange::arranged_text(v);
    assert forall|i: int| 0 <= i < z.len() implies text_markup::row_printable(#[trigger] z[i]) by {
        assert(w(d[i]));
        lemma_sound_optimized(d[i]);
        lemma_last_printable(optimize::optimized_row(d[i]));
    }
}

/// A rectangle of sound motion.
pub open spec fn sound_rect(r: BgRectView) -> bool {
    r.y <= CELL_LIMIT && r.start_ms <= r.end_ms && sound_motion(r.y_animation, r.end_ms)
}

/// The backgrounds of a document can be printed if those of its cells are sound.
pub proof fn lemma_arranged_rects_printable(v: Seq<BgRectView>)
    requires
        merge::every(v, |r: BgRectView| sound_rect(r)),
    ensures
        forall|i: int|
            0 <= i < arrange::arranged_rects(v).len() ==> text_markup::motion_printable(
                (#[trigger] arrange::arranged_rects(v)[i]).y_animation,
            ),
{
    let w = |r: BgRectView| sound_rect(r);
    let p = |r: BgRectView| true;
    merge::lemma_sorted_keeps::<BgRect, ByBand>(v, w);
    merge::lemma_merged_keeps::<BgRect, SameBand>(sort::sorted::<BgRect, ByBand>(v), w, w, p);
    let b = optimize::banded_rects(v);
    merge::lemma_sorted_keeps::<BgRect, ByStart>(b, w);
    let o = sort::sorted::<BgRect, ByStart>(b);
    assert forall|x: BgRectView, y: BgRectView|
        w(x) && w(y) && #[trigger] ScrolledRect::joins(x, y) implies w(ScrolledRect::join(x, y))
        && p(ScrolledRect::join(x, y)) == (p(x) || p(y)) by {
        lemma_sound_moved_on(
            x.y,
            x.start_ms,
            x.end_ms,
            x.y_animation,
            y.y,
            y.start_ms,
            y.end_ms,
        );
    }
    merge::lemma_chained_keeps::<BgRect, ScrolledRect>(o, 0, w, w, p);
    let c = optimize::scrolled_rects(b);
    let z = arrange::arranged_rects(v);
    assert forall|i: int| 0 <= i < z.len() implies text_markup::motion_printable(
        (#[trigger] z[i]).y_animation,
    ) by {
        assert(w(c[i]));
    }
}

/// The rectangles of a document are clipped as those of its cells are.
pub proof fn lemma_arranged_rects_clipped(v: Seq<BgRectView>, clip: Option<Seq<char>>)
    requires
        merge::every(v, |r: BgRectView| r.clip_path == clip),
    ensures
        merge::every(arrange::arranged_rects(v), |r: BgRectView| r.clip_path == clip),
{
    let w = |r: BgRectView| r.clip_path == clip;
    let p = |r: BgRectView| true;
    merge::lemma_sorted_keeps::<BgRect, ByBand>(v, w);
    merge::lemma_merged_keeps::<BgRect, SameBand>(sort::sorted::<BgRect, ByBand>(v), w, w, p);
    let b = optimize::banded_rects(v);
    merge::lemma_sorted_keeps::<BgRect, ByStart>(b, w);
    let o = sort::sorted::<BgRect, ByStart>(b);
    merge::lemma_chained_keeps::<BgRect, ScrolledRect>(o, 0, w, w, p);
    let c = optimize::scrolled_rects(b);
    let z = arrange::arranged_rects(v);
    assert forall|i: int| 0 <= i < z.len() implies w(#[trigger] z[i]) by {
        assert(w(c[i]));
    }
}

} // verus!
