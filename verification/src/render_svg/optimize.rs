//! Merging of neighbouring elements, so that a document holds few of them.
use vstd::prelude::*;
use vstd::string::*;

use crate::merge;
use crate::merge::{merge_chains, merge_neighbours, Merge};
use crate::render_svg::elements;
use crate::render_svg::elements::{
    same_measures, same_motion, same_optional_text, AnimatedProperty, AnimatedPropertyView, BgRect,
    BgRectView, StyleAnimation, StyleAnimationView, StyleKeyframe, TSpan, TSpanView, TextElement,
    TextElementView, YAnimation, YAnimationView,
};
use crate::sort;
use crate::sort::{lex_le, sort_distinct, stable_sort, Order};
use crate::style;
use crate::style::{is_rgb_before, same_rgb, Rgb};
use crate::text;
use crate::text::{same_text, to_chars};

verus! {

/// Runs from left to right, and at one place by their begin.
pub struct ByPlaceAndTime;

impl Order<TSpan> for ByPlaceAndTime {
    open spec fn leq(a: TSpanView, b: TSpanView) -> bool {
        a.x_coords[0] < b.x_coords[0] || (a.x_coords[0] == b.x_coords[0] && a.start_ms
            <= b.start_ms)
    }

    proof fn total(a: TSpanView, b: TSpanView) {
    }

    proof fn transitive(a: TSpanView, b: TSpanView, c: TSpanView) {
    }

    open spec fn fits(a: TSpanView) -> bool {
        a.x_coords.len() > 0
    }

    fn le(a: &TSpan, b: &TSpan) -> (r: bool) {
        a.x_coords[0] < b.x_coords[0] || (a.x_coords[0] == b.x_coords[0] && a.start_ms
            <= b.start_ms)
    }
}

/// Runs from left to right.
pub struct ByPlace;

impl Order<TSpan> for ByPlace {
    open spec fn leq(a: TSpanView, b: TSpanView) -> bool {
        a.x_coords[0] <= b.x_coords[0]
    }

    proof fn total(a: TSpanView, b: TSpanView) {
    }

    proof fn transitive(a: TSpanView, b: TSpanView, c: TSpanView) {
    }

    open spec fn fits(a: TSpanView) -> bool {
        a.x_coords.len() > 0
    }

    fn le(a: &TSpan, b: &TSpan) -> (r: bool) {
        a.x_coords[0] <= b.x_coords[0]
    }
}

/// Rows of text from top to bottom, then by begin, then by end.
pub struct ByRowAndTime;

impl Order<TextElement> for ByRowAndTime {
    open spec fn leq(a: TextElementView, b: TextElementView) -> bool {
        a.y < b.y || (a.y == b.y && (a.start_ms < b.start_ms || (a.start_ms == b.start_ms
            && a.end_ms <= b.end_ms)))
    }

    proof fn total(a: TextElementView, b: TextElementView) {
    }

    proof fn transitive(a: TextElementView, b: TextElementView, c: TextElementView) {
    }

    open spec fn fits(a: TextElementView) -> bool {
        true
    }

    fn le(a: &TextElement, b: &TextElement) -> (r: bool) {
        a.y < b.y || (a.y == b.y && (a.start_ms < b.start_ms || (a.start_ms == b.start_ms
            && a.end_ms <= b.end_ms)))
    }
}

/// By begin alone.
pub struct ByStart;

impl Order<TextElement> for ByStart {
    open spec fn leq(a: TextElementView, b: TextElementView) -> bool {
        a.start_ms <= b.start_ms
    }

    proof fn total(a: TextElementView, b: TextElementView) {
    }

    proof fn transitive(a: TextElementView, b: TextElementView, c: TextElementView) {
    }

    open spec fn fits(a: TextElementView) -> bool {
        true
    }

    fn le(a: &TextElement, b: &TextElement) -> (r: bool) {
        a.start_ms <= b.start_ms
    }
}

impl Order<BgRect> for ByStart {
    open spec fn leq(a: BgRectView, b: BgRectView) -> bool {
        a.start_ms <= b.start_ms
    }

    proof fn total(a: BgRectView, b: BgRectView) {
    }

    proof fn transitive(a: BgRectView, b: BgRectView, c: BgRectView) {
    }

    open spec fn fits(a: BgRectView) -> bool {
        true
    }

    fn le(a: &BgRect, b: &BgRect) -> (r: bool) {
        a.start_ms <= b.start_ms
    }
}

/// The segments of a motion as numbers whose order is that of the pairs.
pub open spec fn segment_codes(s: Seq<(u32, u32)>) -> Seq<int> {
    Seq::new(s.len(), |i: int| s[i].0 * 0x1_0000_0000 + s[i].1)
}

/// Motions by begin, then by duration, then by segments; rest comes first.
pub open spec fn motion_leq(a: Option<YAnimationView>, b: Option<YAnimationView>) -> bool {
    match (a, b) {
        (None, _) => true,
        (Some(_), None) => false,
        (Some(x), Some(y)) => x.begin_ms < y.begin_ms || (x.begin_ms == y.begin_ms && (x.dur_ms
            < y.dur_ms || (x.dur_ms == y.dur_ms && sort::lex_leq(
            segment_codes(x.segments),
            segment_codes(y.segments),
        )))),
    }
}

fn segment_numbers(s: &Vec<(u32, u32)>) -> (out: Vec<u64>)
    ensures
        sort::ints(out@) == segment_codes(s@),
{
    let mut out: Vec<u64> = Vec::new();
    let mut i: usize = 0;
    while i < s.len()
        invariant
            i <= s@.len(),
            out@.len() == i,
            forall|k: int| 0 <= k < i ==> out@[k] == s@[k].0 * 0x1_0000_0000 + s@[k].1,
        decreases s@.len() - i,
    {
        out.push(s[i].0 as u64 * 0x1_0000_0000 + s[i].1 as u64);
        i = i + 1;
    }
    assert(sort::ints(out@) =~= segment_codes(s@));
    out
}

fn motion_le(a: &Option<YAnimation>, b: &Option<YAnimation>) -> (r: bool)
    ensures
        r == motion_leq(elements::motion(*a), elements::motion(*b)),
{
    match (a, b) {
        (None, _) => true,
        (Some(_), None) => false,
        (Some(x), Some(y)) => {
            let xs: Vec<u64> = segment_numbers(&x.segments);
            let ys: Vec<u64> = segment_numbers(&y.segments);
            x.begin_ms < y.begin_ms || (x.begin_ms == y.begin_ms && (x.dur_ms < y.dur_ms || (
            x.dur_ms == y.dur_ms && lex_le(&xs, &ys))))
        },
    }
}

/// Rows of text from top to bottom, then by their motion.
pub struct ByRowAndMotion;

impl Order<TextElement> for ByRowAndMotion {
    open spec fn leq(a: TextElementView, b: TextElementView) -> bool {
        a.y < b.y || (a.y == b.y && motion_leq(a.y_animation, b.y_animation))
    }

    proof fn total(a: TextElementView, b: TextElementView) {
        match (a.y_animation, b.y_animation) {
            (Some(x), Some(y)) => {
                sort::lemma_lex_order(
                    segment_codes(x.segments),
                    segment_codes(y.segments),
                    Seq::empty(),
                );
            },
            _ => {},
        }
    }

    proof fn transitive(a: TextElementView, b: TextElementView, c: TextElementView) {
        match (a.y_animation, b.y_animation, c.y_animation) {
            (Some(x), Some(y), Some(z)) => {
                sort::lemma_lex_order(
                    segment_codes(x.segments),
                    segment_codes(y.segments),
                    segment_codes(z.segments),
                );
            },
            _ => {},
        }
    }

    open spec fn fits(a: TextElementView) -> bool {
        true
    }

    fn le(a: &TextElement, b: &TextElement) -> (r: bool) {
        a.y < b.y || (a.y == b.y && motion_le(&a.y_animation, &b.y_animation))
    }
}

/// A clip path as numbers: none comes first, then by code points.
pub open spec fn clip_codes(c: Option<Seq<char>>) -> Seq<int> {
    match c {
        None => Seq::empty(),
        Some(s) => seq![0int] + Seq::new(s.len(), |i: int| s[i] as u32 as int),
    }
}

fn clip_numbers(c: &Option<String>) -> (out: Vec<u64>)
    ensures
        sort::ints(out@) == clip_codes(elements::clip_text(*c)),
{
    let mut out: Vec<u64> = Vec::new();
    match c {
        None => {
            assert(sort::ints(out@) =~= clip_codes(elements::clip_text(*c)));
        },
        Some(s) => {
            out.push(0);
            let chars: Vec<char> = to_chars(s.as_str());
            let mut i: usize = 0;
            while i < chars.len()
                invariant
                    i <= chars@.len(),
                    out@.len() == i + 1,
                    out@[0] == 0,
                    forall|k: int| 0 <= k < i ==> out@[k + 1] == #[trigger] chars@[k] as u32,
                decreases chars@.len() - i,
            {
                let c: char = chars[i];
                out.push(c as u32 as u64);
                i = i + 1;
            }
            proof {
                let want = clip_codes(elements::clip_text(*c));
                assert forall|k: int| 0 <= k < want.len() implies sort::ints(out@)[k]
                    == #[trigger] want[k] by {
                    if k > 0 {
                        assert(out@[(k - 1) + 1] == chars@[k - 1] as u32);
                    }
                }
                assert(sort::ints(out@) =~= want);
            }
        },
    }
    out
}

/// Rectangles by row, height, colour, time and clip path, then from left to
/// right.
pub struct ByBand;

impl Order<BgRect> for ByBand {
    open spec fn leq(a: BgRectView, b: BgRectView) -> bool {
        let ca = clip_codes(a.clip_path);
        let cb = clip_codes(b.clip_path);
        a.y < b.y || (a.y == b.y && (a.h < b.h || (a.h == b.h && (style::rgb_before(a.fill, b.fill)
            || (a.fill == b.fill && (a.start_ms < b.start_ms || (a.start_ms == b.start_ms && (
        a.end_ms < b.end_ms || (a.end_ms == b.end_ms && (if ca == cb {
            a.x <= b.x
        } else {
            sort::lex_leq(ca, cb)
        }))))))))))
    }

    proof fn total(a: BgRectView, b: BgRectView) {
        sort::lemma_lex_order(clip_codes(a.clip_path), clip_codes(b.clip_path), Seq::empty());
        if !style::rgb_before(a.fill, b.fill) && !style::rgb_before(b.fill, a.fill) {
            assert(a.fill =~= b.fill);
        }
    }

    proof fn transitive(a: BgRectView, b: BgRectView, c: BgRectView) {
        sort::lemma_lex_order(
            clip_codes(a.clip_path),
            clip_codes(b.clip_path),
            clip_codes(c.clip_path),
        );
        sort::lemma_lex_order(
            clip_codes(c.clip_path),
            clip_codes(b.clip_path),
            clip_codes(a.clip_path),
        );
    }

    open spec fn fits(a: BgRectView) -> bool {
        true
    }

    fn le(a: &BgRect, b: &BgRect) -> (r: bool) {
        let ca: Vec<u64> = clip_numbers(&a.clip_path);
        let cb: Vec<u64> = clip_numbers(&b.clip_path);
        let forth: bool = lex_le(&ca, &cb);
        let back: bool = lex_le(&cb, &ca);
        proof {
            sort::lemma_lex_order(sort::ints(ca@), sort::ints(cb@), Seq::empty());
        }
        a.y < b.y || (a.y == b.y && (a.h < b.h || (a.h == b.h && (is_rgb_before(a.fill, b.fill) || (
        same_rgb(a.fill, b.fill) && (a.start_ms < b.start_ms || (a.start_ms == b.start_ms && (
        a.end_ms < b.end_ms || (a.end_ms == b.end_ms && (if forth && back {
            a.x <= b.x
        } else {
            forth
        }))))))))))
    }
}

/// Whether every character fits into one UTF-16 unit.
pub open spec fn is_narrow(s: Seq<char>) -> bool {
    forall|i: int| 0 <= i < s.len() ==> #[trigger] s[i] as u32 <= 0xFFFF
}

fn has_narrow_text(s: &str) -> (r: bool)
    ensures
        r == is_narrow(s@),
{
    let chars: Vec<char> = to_chars(s);
    let mut i: usize = 0;
    while i < chars.len()
        invariant
            chars@ == s@,
            i <= chars@.len(),
            forall|k: int| 0 <= k < i ==> #[trigger] chars@[k] as u32 <= 0xFFFF,
        decreases chars@.len() - i,
    {
        if chars[i] as u32 > 0xFFFF {
            assert(s@[i as int] as u32 > 0xFFFF);
            return false;
        }
        i = i + 1;
    }
    true
}

/// Two runs drawn with the same scale and spacing.
pub open spec fn same_setting(a: TSpanView, b: TSpanView) -> bool {
    !a.is_box && !b.is_box && a.scale_y == b.scale_y && a.cell_center_y_offset
        == b.cell_center_y_offset && a.char_center_y_offset == b.char_center_y_offset
        && a.letter_spacing == b.letter_spacing
}

/// Two runs of the same look and time, neither of which changes.
pub open spec fn beside(a: TSpanView, b: TSpanView) -> bool {
    same_setting(a, b) && elements::base_look(a) == elements::base_look(b) && a.start_ms
        == b.start_ms && a.end_ms == b.end_ms && a.style_animations.len() == 0
        && b.style_animations.len() == 0 && a.style_history.len() == 0 && b.style_history.len() == 0
        && is_narrow(a.text) && is_narrow(b.text)
}

/// The same text at the same place, the second from the end of the first on.
pub open spec fn follows(a: TSpanView, b: TSpanView) -> bool {
    same_setting(a, b) && a.x_coords == b.x_coords && a.text == b.text && a.end_ms == b.start_ms
}

/// The style of a run from its begin on.
pub open spec fn first_keyframe(s: TSpanView) -> StyleKeyframe {
    StyleKeyframe {
        start_ms: s.start_ms,
        fg: s.fg,
        bold: s.bold,
        italic: s.italic,
        underline: s.underline,
        strikethrough: s.strikethrough,
    }
}

/// The keyframes of a run, at least the one it begins with.
pub open spec fn full_history(s: TSpanView) -> Seq<StyleKeyframe> {
    if s.style_history.len() == 0 {
        seq![first_keyframe(s)]
    } else {
        s.style_history
    }
}

fn keyframe_of(s: &TSpan) -> (r: StyleKeyframe)
    ensures
        r == first_keyframe(s@),
{
    StyleKeyframe {
        start_ms: s.start_ms,
        fg: s.fg,
        bold: s.bold,
        italic: s.italic,
        underline: s.underline,
        strikethrough: s.strikethrough,
    }
}

/// Runs that stand beside each other or follow each other in time.
pub struct Runs;

impl Runs {
    fn is_same_setting(a: &TSpan, b: &TSpan) -> (r: bool)
        ensures
            r == same_setting(a@, b@),
    {
        !a.is_box && !b.is_box && a.scale_y == b.scale_y && a.cell_center_y_offset
            == b.cell_center_y_offset && a.char_center_y_offset == b.char_center_y_offset
            && a.letter_spacing == b.letter_spacing
    }

    fn is_beside(a: &TSpan, b: &TSpan) -> (r: bool)
        ensures
            r == beside(a@, b@),
    {
        Self::is_same_setting(a, b) && same_rgb(a.fg, b.fg) && a.bold == b.bold && a.italic
            == b.italic && a.underline == b.underline && a.strikethrough == b.strikethrough
            && a.start_ms == b.start_ms && a.end_ms == b.end_ms && a.style_animations.len() == 0
            && b.style_animations.len() == 0 && a.style_history.len() == 0 && b.style_history.len()
            == 0 && has_narrow_text(a.text.as_str()) && has_narrow_text(b.text.as_str())
    }
}

impl Merge<TSpan> for Runs {
    open spec fn fits(a: TSpanView) -> bool {
        a.x_coords.len() > 0 && a.start_ms <= a.end_ms
    }

    open spec fn joins(a: TSpanView, b: TSpanView) -> bool {
        beside(a, b) || follows(a, b)
    }

    open spec fn join(a: TSpanView, b: TSpanView) -> TSpanView {
        if beside(a, b) {
            TSpanView { x_coords: a.x_coords + b.x_coords, text: a.text + b.text, ..a }
        } else {
            TSpanView {
                style_history: full_history(a).push(first_keyframe(b)),
                end_ms: b.end_ms,
                ..a
            }
        }
    }

    proof fn join_fits(a: TSpanView, b: TSpanView) {
    }

    fn is_joined(a: &TSpan, b: &TSpan) -> (r: bool) {
        Self::is_beside(a, b) || (Self::is_same_setting(a, b) && same_measures(
            &a.x_coords,
            &b.x_coords,
        ) && same_text(a.text.as_str(), b.text.as_str()) && a.end_ms == b.start_ms)
    }

    fn join_into(a: TSpan, b: TSpan) -> (r: TSpan) {
        let mut r: TSpan = a;
        let ghost second = b@;
        let mut b: TSpan = b;
        if Self::is_beside(&r, &b) {
            r.x_coords.append(&mut b.x_coords);
            r.text.append(b.text.as_str());
            assert(r@ =~= Self::join(a@, second));
        } else {
            let first: StyleKeyframe = keyframe_of(&r);
            let next: StyleKeyframe = keyframe_of(&b);
            if r.style_history.len() == 0 {
                r.style_history.push(first);
            }
            assert(r.style_history@ =~= full_history(a@));
            r.style_history.push(next);
            r.end_ms = b.end_ms;
            assert(r@ =~= Self::join(a@, b@));
        }
        r
    }
}

/// A value with a decidable equality.
pub trait Same: Sized {
    fn same(&self, other: &Self) -> (r: bool)
        ensures
            r == (*self == *other),
    ;
}

impl Same for bool {
    fn same(&self, other: &bool) -> (r: bool) {
        *self == *other
    }
}

impl Same for (bool, bool) {
    fn same(&self, other: &(bool, bool)) -> (r: bool) {
        self.0 == other.0 && self.1 == other.1
    }
}

impl Same for [u8; 3] {
    fn same(&self, other: &[u8; 3]) -> (r: bool) {
        same_rgb(*self, *other)
    }
}

/// `s` without the entries whose value is that of the entry kept before them.
pub open spec fn changes<K>(s: Seq<(u32, K)>) -> Seq<(u32, K)>
    decreases s.len(),
{
    if s.len() == 0 {
        s
    } else {
        let kept = changes(s.drop_last());
        if kept.len() > 0 && kept.last().1 == s.last().1 {
            kept
        } else {
            kept.push(s.last())
        }
    }
}

/// The value of the last entry that has begun at `t`; of the first one, if none
/// has.
pub open spec fn value_at<K>(s: Seq<(u32, K)>, t: u32) -> K
    decreases s.len(),
{
    if s.len() <= 1 || s.last().0 <= t {
        s.last().1
    } else {
        value_at(s.drop_last(), t)
    }
}

/// The first entry is always kept, and the last one kept has the last value.
pub proof fn lemma_changes_nonempty<K>(s: Seq<(u32, K)>)
    ensures
        changes(s).len() <= s.len(),
        s.len() > 0 ==> changes(s).len() > 0 && changes(s)[0] == s[0] && changes(s).last().1
            == s.last().1,
    decreases s.len(),
{
    if s.len() > 0 {
        lemma_changes_nonempty(s.drop_last());
    }
}

/// Leaving out entries that change nothing keeps the value at every moment, if
/// the entries come in the order of their moments.
pub proof fn lemma_changes_keep_values<K>(s: Seq<(u32, K)>, t: u32)
    requires
        s.len() > 0,
        forall|i: int, j: int| 0 <= i <= j < s.len() ==> (#[trigger] s[i]).0 <= (#[trigger] s[j]).0,
    ensures
        value_at(changes(s), t) == value_at(s, t),
        changes(s).last().0 <= s.last().0,
    decreases s.len(),
{
    let d = s.drop_last();
    let kept = changes(d);
    lemma_changes_nonempty(d);
    if d.len() > 0 {
        assert forall|i: int, j: int| 0 <= i <= j < d.len() implies (#[trigger] d[i]).0 <= (
        #[trigger] d[j]).0 by {
            assert(s[i].0 <= s[j].0);
        }
        lemma_changes_keep_values(d, t);
        assert(s[d.len() - 1].0 <= s[d.len() as int].0);
        if kept.last().1 == s.last().1 {
            if s.last().0 <= t {
                assert(kept.last().0 <= t);
            }
        } else {
            assert(kept.push(s.last()).drop_last() =~= kept);
        }
    } else {
        assert(kept.push(s.last()).last() == s.last());
    }
}

pub fn keep_changes<K: Same + Copy>(s: &Vec<(u32, K)>) -> (out: Vec<(u32, K)>)
    ensures
        out@ == changes(s@),
{
    let mut out: Vec<(u32, K)> = Vec::new();
    let mut i: usize = 0;
    while i < s.len()
        invariant
            i <= s@.len(),
            out@ == changes(s@.take(i as int)),
        decreases s@.len() - i,
    {
        let item: (u32, K) = s[i];
        assert(s@.take(i + 1).drop_last() =~= s@.take(i as int));
        let n: usize = out.len();
        if n == 0 || !out[n - 1].1.same(&item.1) {
            out.push(item);
        }
        i = i + 1;
    }
    assert(s@.take(s@.len() as int) =~= s@);
    out
}

pub open spec fn fg_times(h: Seq<StyleKeyframe>) -> Seq<(u32, Rgb)> {
    Seq::new(h.len(), |i: int| (h[i].start_ms, h[i].fg))
}

pub open spec fn bold_times(h: Seq<StyleKeyframe>) -> Seq<(u32, bool)> {
    Seq::new(h.len(), |i: int| (h[i].start_ms, h[i].bold))
}

pub open spec fn italic_times(h: Seq<StyleKeyframe>) -> Seq<(u32, bool)> {
    Seq::new(h.len(), |i: int| (h[i].start_ms, h[i].italic))
}

pub open spec fn line_times(h: Seq<StyleKeyframe>) -> Seq<(u32, (bool, bool))> {
    Seq::new(h.len(), |i: int| (h[i].start_ms, (h[i].underline, h[i].strikethrough)))
}

/// One animation, if the property changes at all.
pub open spec fn animation_of(
    n: nat,
    begin_ms: u32,
    dur_ms: u32,
    property: AnimatedPropertyView,
) -> Seq<StyleAnimationView> {
    if n > 1 {
        seq![StyleAnimationView { begin_ms, dur_ms, property }]
    } else {
        Seq::empty()
    }
}

/// The animations that show the keyframes `h`: colour, weight, slant and lines,
/// each only if it changes.
pub open spec fn animations(h: Seq<StyleKeyframe>, begin_ms: u32, dur_ms: u32) -> Seq<
    StyleAnimationView,
> {
    let fg = changes(fg_times(h));
    let bold = changes(bold_times(h));
    let italic = changes(italic_times(h));
    let lines = changes(line_times(h));
    animation_of(fg.len(), begin_ms, dur_ms, AnimatedPropertyView::Fg(fg)) + animation_of(
        bold.len(),
        begin_ms,
        dur_ms,
        AnimatedPropertyView::FontWeight(bold),
    ) + animation_of(italic.len(), begin_ms, dur_ms, AnimatedPropertyView::FontStyle(italic))
        + animation_of(lines.len(), begin_ms, dur_ms, AnimatedPropertyView::TextDecoration(lines))
}

fn push_animation(
    out: &mut Vec<StyleAnimation>,
    n: usize,
    begin_ms: u32,
    dur_ms: u32,
    property: AnimatedProperty,
)
    ensures
        sort::views(final(out)@) == sort::views(old(out)@) + animation_of(
            n as nat,
            begin_ms,
            dur_ms,
            property@,
        ),
{
    if n > 1 {
        out.push(StyleAnimation { begin_ms, dur_ms, property });
    }
    assert(sort::views(out@) =~= sort::views(old(out)@) + animation_of(
        n as nat,
        begin_ms,
        dur_ms,
        property@,
    ));
}

fn build_animations(h: &Vec<StyleKeyframe>, begin_ms: u32, dur_ms: u32) -> (out: Vec<
    StyleAnimation,
>)
    ensures
        sort::views(out@) == animations(h@, begin_ms, dur_ms),
{
    let mut fg: Vec<(u32, Rgb)> = Vec::new();
    let mut bold: Vec<(u32, bool)> = Vec::new();
    let mut italic: Vec<(u32, bool)> = Vec::new();
    let mut lines: Vec<(u32, (bool, bool))> = Vec::new();
    let mut i: usize = 0;
    while i < h.len()
        invariant
            i <= h@.len(),
            fg@ == fg_times(h@.take(i as int)),
            bold@ == bold_times(h@.take(i as int)),
            italic@ == italic_times(h@.take(i as int)),
            lines@ == line_times(h@.take(i as int)),
        decreases h@.len() - i,
    {
        let k: StyleKeyframe = h[i];
        fg.push((k.start_ms, k.fg));
        bold.push((k.start_ms, k.bold));
        italic.push((k.start_ms, k.italic));
        lines.push((k.start_ms, (k.underline, k.strikethrough)));
        i = i + 1;
        assert(fg@ =~= fg_times(h@.take(i as int)));
        assert(bold@ =~= bold_times(h@.take(i as int)));
        assert(italic@ =~= italic_times(h@.take(i as int)));
        assert(lines@ =~= line_times(h@.take(i as int)));
    }
    assert(h@.take(h@.len() as int) =~= h@);
    let fg: Vec<(u32, Rgb)> = keep_changes(&fg);
    let bold: Vec<(u32, bool)> = keep_changes(&bold);
    let italic: Vec<(u32, bool)> = keep_changes(&italic);
    let lines: Vec<(u32, (bool, bool))> = keep_changes(&lines);
    let mut out: Vec<StyleAnimation> = Vec::new();
    let n: usize = fg.len();
    push_animation(&mut out, n, begin_ms, dur_ms, AnimatedProperty::Fg(fg));
    assert(sort::views(out@) =~= animation_of(
        n as nat,
        begin_ms,
        dur_ms,
        AnimatedPropertyView::Fg(fg@),
    ));
    let n: usize = bold.len();
    push_animation(&mut out, n, begin_ms, dur_ms, AnimatedProperty::FontWeight(bold));
    let n: usize = italic.len();
    push_animation(&mut out, n, begin_ms, dur_ms, AnimatedProperty::FontStyle(italic));
    let n: usize = lines.len();
    push_animation(&mut out, n, begin_ms, dur_ms, AnimatedProperty::TextDecoration(lines));
    out
}

/// A run with the animations that its keyframes call for.
pub open spec fn animated(s: TSpanView) -> TSpanView {
    if s.style_history.len() == 0 {
        s
    } else {
        TSpanView {
            style_animations: animations(
                s.style_history,
                s.start_ms,
                (s.end_ms - s.start_ms) as u32,
            ),
            ..s
        }
    }
}

pub open spec fn all_animated(v: Seq<TSpanView>) -> Seq<TSpanView> {
    Seq::new(v.len(), |i: int| animated(v[i]))
}

/// The runs from left to right, neighbours merged where they can be.
pub open spec fn optimized_runs(v: Seq<TSpanView>) -> Seq<TSpanView> {
    all_animated(merge::merged::<TSpan, Runs>(sort::sorted::<TSpan, ByPlaceAndTime>(v)))
}

pub open spec fn optimized_row(e: TextElementView) -> TextElementView {
    TextElementView { tspans: optimized_runs(e.tspans), ..e }
}

/// Every run has a place and does not end before it begins.
pub open spec fn runs_fit(e: TextElementView) -> bool {
    forall|i: int| 0 <= i < e.tspans.len() ==> Runs::fits(#[trigger] e.tspans[i])
}

fn optimize_runs(v: Vec<TSpan>) -> (out: Vec<TSpan>)
    requires
        forall|i: int| 0 <= i < v@.len() ==> Runs::fits(#[trigger] sort::views(v@)[i]),
    ensures
        sort::views(out@) == optimized_runs(sort::views(v@)),
{
    let ghost all = sort::views(v@);
    assert(sort::all_fit::<TSpan, ByPlaceAndTime>(all)) by {
        assert forall|i: int| 0 <= i < all.len() implies ByPlaceAndTime::fits(
            #[trigger] all[i],
        ) by {
            assert(Runs::fits(all[i]));
        }
    }
    let ordered: Vec<TSpan> = stable_sort::<TSpan, ByPlaceAndTime>(v);
    let ghost o = sort::views(ordered@);
    assert(merge::all_fit::<TSpan, Runs>(o)) by {
        sort::lemma_sorted_same_items::<TSpan, ByPlaceAndTime>(all);
        assert forall|i: int| 0 <= i < o.len() implies Runs::fits(#[trigger] o[i]) by {
            let j = choose|j: int| 0 <= j < all.len() && all[j] == o[i];
            assert(Runs::fits(all[j]));
        }
    }
    let mut out: Vec<TSpan> = merge_neighbours::<TSpan, Runs>(ordered);
    let ghost m = sort::views(out@);
    let mut i: usize = 0;
    while i < out.len()
        invariant
            i <= out@.len(),
            out@.len() == m.len(),
            merge::all_fit::<TSpan, Runs>(m),
            forall|k: int| 0 <= k < i ==> (#[trigger] out@[k])@ == animated(m[k]),
            forall|k: int| i <= k < out@.len() ==> (#[trigger] out@[k])@ == m[k],
        decreases out@.len() - i,
    {
        assert(out@[i as int]@ == m[i as int]);
        assert(Runs::fits(m[i as int]));
        if out[i].style_history.len() > 0 {
            let begin_ms: u32 = out[i].start_ms;
            let dur_ms: u32 = out[i].end_ms - begin_ms;
            let a: Vec<StyleAnimation> = build_animations(&out[i].style_history, begin_ms, dur_ms);
            out[i].style_animations = a;
        }
        assert(out@[i as int]@ =~= animated(m[i as int]));
        i = i + 1;
    }
    assert(sort::views(out@) =~= all_animated(m));
    out
}

/// Merges runs of each row that stand beside each other with the same look and
/// time, and runs that show the same text one after the other.
pub fn optimize_tspans(elements: &mut [TextElement])
    requires
        forall|i: int| 0 <= i < old(elements)@.len() ==> runs_fit((#[trigger] old(elements)@[i])@),
    ensures
        final(elements)@.len() == old(elements)@.len(),
        forall|i: int|
            0 <= i < old(elements)@.len() ==> (#[trigger] final(elements)@[i])@ == optimized_row(
                old(elements)@[i]@,
            ),
{
    let n: usize = elements.len();
    let mut i: usize = 0;
    while i < n
        invariant
            i <= n,
            n == elements@.len(),
            elements@.len() == old(elements)@.len(),
            forall|k: int|
                0 <= k < old(elements)@.len() ==> runs_fit((#[trigger] old(elements)@[k])@),
            forall|k: int|
                0 <= k < i ==> (#[trigger] elements@[k])@ == optimized_row(old(elements)@[k]@),
            forall|k: int| i <= k < n ==> #[trigger] elements@[k] == old(elements)@[k],
        decreases n - i,
    {
        let mut spans: Vec<TSpan> = Vec::new();
        let ghost e = old(elements)@[i as int];
        assert(elements@[i as int] == e);
        assert(runs_fit(e@));
        std::mem::swap(&mut spans, &mut elements[i].tspans);
        assert forall|k: int| 0 <= k < spans@.len() implies Runs::fits(
            #[trigger] sort::views(spans@)[k],
        ) by {
            assert(Runs::fits(e@.tspans[k]));
        }
        let merged: Vec<TSpan> = optimize_runs(spans);
        elements[i].tspans = merged;
        assert(elements@[i as int]@ =~= optimized_row(e@));
        i = i + 1;
    }
}

/// Rows of the same line and time become one.
pub struct SameRowAndTime;

impl Merge<TextElement> for SameRowAndTime {
    open spec fn fits(a: TextElementView) -> bool {
        true
    }

    open spec fn joins(a: TextElementView, b: TextElementView) -> bool {
        a.y == b.y && a.start_ms == b.start_ms && a.end_ms == b.end_ms
    }

    open spec fn join(a: TextElementView, b: TextElementView) -> TextElementView {
        TextElementView { tspans: a.tspans + b.tspans, ..a }
    }

    proof fn join_fits(a: TextElementView, b: TextElementView) {
    }

    fn is_joined(a: &TextElement, b: &TextElement) -> (r: bool) {
        a.y == b.y && a.start_ms == b.start_ms && a.end_ms == b.end_ms
    }

    fn join_into(a: TextElement, b: TextElement) -> (r: TextElement) {
        let mut r: TextElement = a;
        let ghost second = b@;
        let mut b: TextElement = b;
        r.tspans.append(&mut b.tspans);
        assert(r@.tspans =~= a@.tspans + second.tspans);
        r
    }
}

pub open spec fn grouped_rows(v: Seq<TextElementView>) -> Seq<TextElementView> {
    merge::merged::<TextElement, SameRowAndTime>(sort::sorted::<TextElement, ByRowAndTime>(v))
}

/// Sorts rows by line and time, and makes one of those with the same line and
/// time.
pub fn group_text_elements_by_row_and_time(elements: &mut Vec<TextElement>)
    ensures
        sort::views(final(elements)@) == grouped_rows(sort::views(old(elements)@)),
{
    let mut all: Vec<TextElement> = Vec::new();
    std::mem::swap(&mut all, elements);
    let ordered: Vec<TextElement> = stable_sort::<TextElement, ByRowAndTime>(all);
    *elements = merge_neighbours::<TextElement, SameRowAndTime>(ordered);
}

/// The motion of an element that stood still or moved as `m`, and goes on at `y`
/// from `start_ms` to `end_ms`.
pub open spec fn moved_on(
    first_y: u32,
    first_start: u32,
    m: Option<YAnimationView>,
    y: u32,
    start_ms: u32,
    end_ms: u32,
) -> YAnimationView {
    match m {
        Some(a) => YAnimationView {
            begin_ms: a.begin_ms,
            segments: a.segments.push((y, start_ms)),
            dur_ms: (end_ms - a.begin_ms) as u32,
        },
        None => YAnimationView {
            begin_ms: first_start,
            segments: seq![(first_y, first_start), (y, start_ms)],
            dur_ms: (end_ms - first_start) as u32,
        },
    }
}

fn move_on(
    first_y: u32,
    first_start: u32,
    m: Option<YAnimation>,
    y: u32,
    start_ms: u32,
    end_ms: u32,
) -> (r: YAnimation)
    requires
        first_start <= end_ms,
        m matches Some(a) ==> a.begin_ms <= end_ms,
    ensures
        r@ == moved_on(first_y, first_start, elements::motion(m), y, start_ms, end_ms),
{
    match m {
        Some(a) => {
            let mut a: YAnimation = a;
            a.segments.push((y, start_ms));
            a.dur_ms = end_ms - a.begin_ms;
            a
        },
        None => {
            let mut segments: Vec<(u32, u32)> = Vec::new();
            segments.push((first_y, first_start));
            segments.push((y, start_ms));
            let r: YAnimation = YAnimation {
                begin_ms: first_start,
                segments,
                dur_ms: end_ms - first_start,
            };
            assert(r@ =~= moved_on(first_y, first_start, elements::motion(m), y, start_ms, end_ms));
            r
        },
    }
}

/// An element does not end before it, or its motion, begins.
pub open spec fn time_fits(start_ms: u32, end_ms: u32, m: Option<YAnimationView>) -> bool {
    start_ms <= end_ms && (m matches Some(a) ==> a.begin_ms <= end_ms)
}

/// The same rectangle, going on at another line.
pub struct ScrolledRect;

impl Merge<BgRect> for ScrolledRect {
    open spec fn fits(a: BgRectView) -> bool {
        time_fits(a.start_ms, a.end_ms, a.y_animation)
    }

    open spec fn joins(a: BgRectView, b: BgRectView) -> bool {
        a.x == b.x && a.w == b.w && a.h == b.h && a.fill == b.fill && a.clip_path == b.clip_path
            && a.end_ms == b.start_ms
    }

    open spec fn join(a: BgRectView, b: BgRectView) -> BgRectView {
        BgRectView {
            end_ms: b.end_ms,
            y_animation: Some(
                moved_on(a.y, a.start_ms, a.y_animation, b.y, b.start_ms, b.end_ms),
            ),
            ..a
        }
    }

    proof fn join_fits(a: BgRectView, b: BgRectView) {
    }

    fn is_joined(a: &BgRect, b: &BgRect) -> (r: bool) {
        a.x == b.x && a.w == b.w && a.h == b.h && same_rgb(a.fill, b.fill) && same_optional_text(
            &a.clip_path,
            &b.clip_path,
        ) && a.end_ms == b.start_ms
    }

    fn join_into(a: BgRect, b: BgRect) -> (r: BgRect) {
        let m: YAnimation = move_on(a.y, a.start_ms, a.y_animation, b.y, b.start_ms, b.end_ms);
        let r: BgRect = BgRect {
            x: a.x,
            y: a.y,
            w: a.w,
            h: a.h,
            fill: a.fill,
            start_ms: a.start_ms,
            end_ms: b.end_ms,
            clip_path: a.clip_path,
            y_animation: Some(m),
        };
        assert(r@ =~= Self::join(a@, b@));
        r
    }
}

pub open spec fn scrolled_rects(v: Seq<BgRectView>) -> Seq<BgRectView> {
    merge::chained::<BgRect, ScrolledRect>(sort::sorted::<BgRect, ByStart>(v), 0)
}

proof fn lemma_sorted_fits<T: View, O: Order<T>, M: Merge<T>>(s: Seq<T::V>)
    requires
        merge::all_fit::<T, M>(s),
    ensures
        merge::all_fit::<T, M>(sort::sorted::<T, O>(s)),
{
    sort::lemma_sorted_same_items::<T, O>(s);
    let r = sort::sorted::<T, O>(s);
    assert forall|i: int| 0 <= i < r.len() implies M::fits(#[trigger] r[i]) by {
        let j = choose|j: int| 0 <= j < s.len() && s[j] == r[i];
        assert(M::fits(s[j]));
    }
}

/// Makes one moving rectangle of rectangles that differ only in their line and
/// follow each other in time.
pub fn optimize_bg_rect_scroll(bg_rects: &mut Vec<BgRect>)
    requires
        merge::all_fit::<BgRect, ScrolledRect>(sort::views(old(bg_rects)@)),
    ensures
        sort::views(final(bg_rects)@) == scrolled_rects(sort::views(old(bg_rects)@)),
{
    let mut all: Vec<BgRect> = Vec::new();
    std::mem::swap(&mut all, bg_rects);
    let ordered: Vec<BgRect> = stable_sort::<BgRect, ByStart>(all);
    proof {
        lemma_sorted_fits::<BgRect, ByStart, ScrolledRect>(sort::views(old(bg_rects)@));
    }
    *bg_rects = merge_chains::<BgRect, ScrolledRect>(ordered);
}

/// Rectangles of the same band that touch become one.
pub struct SameBand;

impl Merge<BgRect> for SameBand {
    open spec fn fits(a: BgRectView) -> bool {
        a.x + a.w <= u32::MAX
    }

    open spec fn joins(a: BgRectView, b: BgRectView) -> bool {
        a.y == b.y && a.h == b.h && a.fill == b.fill && a.start_ms == b.start_ms && a.end_ms
            == b.end_ms && a.clip_path == b.clip_path && a.x + a.w == b.x
    }

    open spec fn join(a: BgRectView, b: BgRectView) -> BgRectView {
        BgRectView { w: (a.w + b.w) as u32, ..a }
    }

    proof fn join_fits(a: BgRectView, b: BgRectView) {
    }

    fn is_joined(a: &BgRect, b: &BgRect) -> (r: bool) {
        a.y == b.y && a.h == b.h && same_rgb(a.fill, b.fill) && a.start_ms == b.start_ms && a.end_ms
            == b.end_ms && same_optional_text(&a.clip_path, &b.clip_path) && a.x + a.w == b.x
    }

    fn join_into(a: BgRect, b: BgRect) -> (r: BgRect) {
        let mut r: BgRect = a;
        r.w = r.w + b.w;
        r
    }
}

pub open spec fn banded_rects(v: Seq<BgRectView>) -> Seq<BgRectView> {
    merge::merged::<BgRect, SameBand>(sort::sorted::<BgRect, ByBand>(v))
}

/// Makes one rectangle of rectangles of the same band that touch.
pub fn optimize_bg_rects(bg_rects: &mut Vec<BgRect>)
    requires
        merge::all_fit::<BgRect, SameBand>(sort::views(old(bg_rects)@)),
    ensures
        sort::views(final(bg_rects)@) == banded_rects(sort::views(old(bg_rects)@)),
{
    let mut all: Vec<BgRect> = Vec::new();
    std::mem::swap(&mut all, bg_rects);
    let ordered: Vec<BgRect> = stable_sort::<BgRect, ByBand>(all);
    proof {
        lemma_sorted_fits::<BgRect, ByBand, SameBand>(sort::views(old(bg_rects)@));
    }
    *bg_rects = merge_neighbours::<BgRect, SameBand>(ordered);
}

/// A run that ended with its row at `from` ends with it at `to`.
pub open spec fn extended_run(s: TSpanView, from: u32, to: u32) -> TSpanView {
    if s.end_ms == from {
        TSpanView { end_ms: to, ..s }
    } else {
        s
    }
}

/// The same row of text, going on at another line.
pub struct ScrolledRow;

impl Merge<TextElement> for ScrolledRow {
    open spec fn fits(a: TextElementView) -> bool {
        time_fits(a.start_ms, a.end_ms, a.y_animation)
    }

    open spec fn joins(a: TextElementView, b: TextElementView) -> bool {
        elements::content_equal(a, b) && a.end_ms == b.start_ms
    }

    open spec fn join(a: TextElementView, b: TextElementView) -> TextElementView {
        TextElementView {
            end_ms: b.end_ms,
            tspans: Seq::new(
                a.tspans.len(),
                |i: int| extended_run(a.tspans[i], a.end_ms, b.end_ms),
            ),
            y_animation: Some(
                moved_on(a.y, a.start_ms, a.y_animation, b.y, b.start_ms, b.end_ms),
            ),
            ..a
        }
    }

    proof fn join_fits(a: TextElementView, b: TextElementView) {
    }

    fn is_joined(a: &TextElement, b: &TextElement) -> (r: bool) {
        a.content_equals(b) && a.end_ms == b.start_ms
    }

    fn join_into(a: TextElement, b: TextElement) -> (r: TextElement) {
        let m: YAnimation = move_on(a.y, a.start_ms, a.y_animation, b.y, b.start_ms, b.end_ms);
        let from: u32 = a.end_ms;
        let to: u32 = b.end_ms;
        let mut tspans: Vec<TSpan> = a.tspans;
        let ghost was = sort::views(tspans@);
        let mut i: usize = 0;
        while i < tspans.len()
            invariant
                i <= tspans@.len(),
                tspans@.len() == was.len(),
                forall|k: int|
                    0 <= k < i ==> (#[trigger] tspans@[k])@ == extended_run(was[k], from, to),
                forall|k: int| i <= k < tspans@.len() ==> (#[trigger] tspans@[k])@ == was[k],
            decreases tspans@.len() - i,
        {
            assert(tspans@[i as int]@ == was[i as int]);
            if tspans[i].end_ms == from {
                tspans[i].end_ms = to;
            }
            assert(tspans@[i as int]@ =~= extended_run(was[i as int], from, to));
            i = i + 1;
        }
        let r: TextElement = TextElement {
            y: a.y,
            y_animation: Some(m),
            start_ms: a.start_ms,
            end_ms: to,
            tspans,
        };
        assert(r@.tspans =~= Self::join(a@, b@).tspans);
        r
    }
}

pub open spec fn scrolled_rows(v: Seq<TextElementView>) -> Seq<TextElementView> {
    merge::chained::<TextElement, ScrolledRow>(sort::sorted::<TextElement, ByStart>(v), 0)
}

/// Makes one moving row of rows with the same content that follow each other in
/// time.
pub fn optimize_rows(elements: &mut Vec<TextElement>)
    requires
        merge::all_fit::<TextElement, ScrolledRow>(sort::views(old(elements)@)),
    ensures
        sort::views(final(elements)@) == scrolled_rows(sort::views(old(elements)@)),
{
    let mut all: Vec<TextElement> = Vec::new();
    std::mem::swap(&mut all, elements);
    let ordered: Vec<TextElement> = stable_sort::<TextElement, ByStart>(all);
    proof {
        lemma_sorted_fits::<TextElement, ByStart, ScrolledRow>(sort::views(old(elements)@));
    }
    *elements = merge_chains::<TextElement, ScrolledRow>(ordered);
}

/// Rows of the same line and motion become one, whatever their times.
pub struct SameRowAndMotion;

impl Merge<TextElement> for SameRowAndMotion {
    open spec fn fits(a: TextElementView) -> bool {
        forall|i: int| 0 <= i < a.tspans.len() ==> ByPlace::fits(#[trigger] a.tspans[i])
    }

    open spec fn joins(a: TextElementView, b: TextElementView) -> bool {
        a.y == b.y && a.y_animation == b.y_animation
    }

    open spec fn join(a: TextElementView, b: TextElementView) -> TextElementView {
        TextElementView {
            start_ms: if a.start_ms <= b.start_ms {
                a.start_ms
            } else {
                b.start_ms
            },
            end_ms: if a.end_ms >= b.end_ms {
                a.end_ms
            } else {
                b.end_ms
            },
            tspans: a.tspans + b.tspans,
            ..a
        }
    }

    proof fn join_fits(a: TextElementView, b: TextElementView) {
        let r = Self::join(a, b);
        assert forall|i: int| 0 <= i < r.tspans.len() implies ByPlace::fits(
            #[trigger] r.tspans[i],
        ) by {
            if i < a.tspans.len() {
                assert(ByPlace::fits(a.tspans[i]));
            } else {
                assert(ByPlace::fits(b.tspans[i - a.tspans.len()]));
            }
        }
    }

    fn is_joined(a: &TextElement, b: &TextElement) -> (r: bool) {
        a.y == b.y && same_motion(&a.y_animation, &b.y_animation)
    }

    fn join_into(a: TextElement, b: TextElement) -> (r: TextElement) {
        let mut r: TextElement = a;
        let ghost second = b@;
        let mut b: TextElement = b;
        if b.start_ms < r.start_ms {
            r.start_ms = b.start_ms;
        }
        if b.end_ms > r.end_ms {
            r.end_ms = b.end_ms;
        }
        r.tspans.append(&mut b.tspans);
        assert(r@.tspans =~= a@.tspans + second.tspans);
        r
    }
}

/// A row with its runs from left to right.
pub open spec fn ordered_row(e: TextElementView) -> TextElementView {
    TextElementView { tspans: sort::sorted::<TSpan, ByPlace>(e.tspans), ..e }
}

pub open spec fn finally_grouped(v: Seq<TextElementView>) -> Seq<TextElementView> {
    let m = merge::merged::<TextElement, SameRowAndMotion>(
        sort::sorted::<TextElement, ByRowAndMotion>(v),
    );
    Seq::new(m.len(), |i: int| ordered_row(m[i]))
}

/// Makes one row of all rows with the same line and motion, its runs from left
/// to right.
pub fn group_text_elements_final(elements: &mut Vec<TextElement>)
    requires
        merge::all_fit::<TextElement, SameRowAndMotion>(sort::views(old(elements)@)),
    ensures
        sort::views(final(elements)@) == finally_grouped(sort::views(old(elements)@)),
{
    let mut all: Vec<TextElement> = Vec::new();
    std::mem::swap(&mut all, elements);
    let ordered: Vec<TextElement> = stable_sort::<TextElement, ByRowAndMotion>(all);
    proof {
        lemma_sorted_fits::<TextElement, ByRowAndMotion, SameRowAndMotion>(
            sort::views(old(elements)@),
        );
    }
    let mut out: Vec<TextElement> = merge_neighbours::<TextElement, SameRowAndMotion>(ordered);
    let ghost m = sort::views(out@);
    let mut i: usize = 0;
    while i < out.len()
        invariant
            i <= out@.len(),
            out@.len() == m.len(),
            merge::all_fit::<TextElement, SameRowAndMotion>(m),
            forall|k: int| 0 <= k < i ==> (#[trigger] out@[k])@ == ordered_row(m[k]),
            forall|k: int| i <= k < out@.len() ==> (#[trigger] out@[k])@ == m[k],
        decreases out@.len() - i,
    {
        assert(out@[i as int]@ == m[i as int]);
        assert(SameRowAndMotion::fits(m[i as int]));
        let mut spans: Vec<TSpan> = Vec::new();
        std::mem::swap(&mut spans, &mut out[i].tspans);
        assert(sort::views(spans@) =~= m[i as int].tspans);
        let sorted_spans: Vec<TSpan> = stable_sort::<TSpan, ByPlace>(spans);
        out[i].tspans = sorted_spans;
        assert(out@[i as int]@ =~= ordered_row(m[i as int]));
        i = i + 1;
    }
    assert(sort::views(out@) =~= finally_grouped(sort::views(old(elements)@)));
    *elements = out;
}

/// The moments at which runs begin or end.
pub open spec fn run_moments(v: Seq<TSpanView>) -> Seq<u32>
    decreases v.len(),
{
    if v.len() == 0 {
        Seq::empty()
    } else {
        run_moments(v.drop_last()).push(v.last().start_ms).push(v.last().end_ms)
    }
}

/// Whether a run lasts from `start` to `end` at least.
pub open spec fn run_covers(s: TSpanView, start: u32, end: u32) -> bool {
    s.start_ms <= start && s.end_ms >= end
}

/// Whether the run at `i` is the last one of those that last from `start` to
/// `end`.
pub open spec fn is_last_run(v: Seq<TSpanView>, i: int, start: u32, end: u32) -> bool {
    0 <= i < v.len() && run_covers(v[i], start, end) && forall|j: int|
        i < j < v.len() ==> !run_covers(#[trigger] v[j], start, end)
}

/// Whether the run at `i` ends the line during some interval between two
/// neighbouring moments.
pub open spec fn ends_line(v: Seq<TSpanView>, i: int) -> bool {
    let b = sort::distinct_ascending(run_moments(v));
    exists|k: int| 0 <= k < b.len() - 1 && #[trigger] is_last_run(v, i, b[k], b[k + 1])
}

/// The runs, those that end the line with a line break behind them.
pub open spec fn with_line_breaks(v: Seq<TSpanView>) -> Seq<TSpanView> {
    Seq::new(
        v.len(),
        |i: int|
            if ends_line(v, i) {
                TSpanView { text: v[i].text.push('\n'), ..v[i] }
            } else {
                v[i]
            },
    )
}

pub open spec fn broken_row(e: TextElementView) -> TextElementView {
    TextElementView { tspans: with_line_breaks(e.tspans), ..e }
}

fn collect_moments(v: &Vec<TSpan>) -> (out: Vec<u32>)
    ensures
        out@ == run_moments(sort::views(v@)),
{
    let mut out: Vec<u32> = Vec::new();
    let mut i: usize = 0;
    let ghost all = sort::views(v@);
    while i < v.len()
        invariant
            all == sort::views(v@),
            i <= v@.len(),
            out@ == run_moments(all.take(i as int)),
        decreases v@.len() - i,
    {
        assert(all.take(i + 1).drop_last() =~= all.take(i as int));
        assert(all.take(i + 1).last() == v@[i as int]@);
        out.push(v[i].start_ms);
        out.push(v[i].end_ms);
        i = i + 1;
    }
    assert(all.take(all.len() as int) =~= all);
    out
}

fn last_run(v: &Vec<TSpan>, start: u32, end: u32) -> (r: Option<usize>)
    ensures
        match r {
            Some(i) => is_last_run(sort::views(v@), i as int, start, end),
            None => forall|i: int|
                0 <= i < v@.len() ==> !run_covers(#[trigger] sort::views(v@)[i], start, end),
        },
{
    let ghost all = sort::views(v@);
    let mut i: usize = v.len();
    while i > 0
        invariant
            all == sort::views(v@),
            i <= v@.len(),
            forall|j: int| i <= j < v@.len() ==> !run_covers(#[trigger] all[j], start, end),
        decreases i,
    {
        i = i - 1;
        assert(all[i as int] == v@[i as int]@);
        if v[i].start_ms <= start && v[i].end_ms >= end {
            return Some(i);
        }
    }
    None
}

fn line_ends(v: &Vec<TSpan>) -> (out: Vec<bool>)
    ensures
        out@.len() == v@.len(),
        forall|i: int| 0 <= i < v@.len() ==> out@[i] == ends_line(sort::views(v@), i),
{
    let ghost all = sort::views(v@);
    let moments: Vec<u32> = collect_moments(v);
    let b: Vec<u32> = sort_distinct(moments);
    let mut out: Vec<bool> = Vec::new();
    let mut i: usize = 0;
    while i < v.len()
        invariant
            i <= v@.len(),
            out@.len() == i,
            forall|j: int| 0 <= j < i ==> !out@[j],
        decreases v@.len() - i,
    {
        out.push(false);
        i = i + 1;
    }
    let mut k: usize = 0;
    while b.len() - k > 1
        invariant
            all == sort::views(v@),
            b@ == sort::distinct_ascending(run_moments(all)),
            out@.len() == v@.len(),
            k == 0 || k < b@.len(),
            forall|j: int|
                0 <= j < v@.len() ==> (#[trigger] out@[j] <==> exists|n: int|
                    0 <= n < k && #[trigger] is_last_run(all, j, b@[n], b@[n + 1])),
        decreases b@.len() - k,
    {
        let ghost before = out@;
        match last_run(v, b[k], b[k + 1]) {
            Some(m) => {
                out.set(m, true);
                assert forall|j: int| 0 <= j < v@.len() implies (#[trigger] out@[j]
                    <==> exists|n: int|
                    0 <= n < k + 1 && #[trigger] is_last_run(all, j, b@[n], b@[n + 1])) by {
                    if j == m {
                        assert(is_last_run(all, j, b@[k as int], b@[k + 1]));
                    } else {
                        assert(out@[j] == before[j]);
                        if is_last_run(all, j, b@[k as int], b@[k + 1]) {
                            if j < m {
                                assert(!run_covers(all[m as int], b@[k as int], b@[k + 1]));
                            } else {
                                assert(!run_covers(all[j], b@[k as int], b@[k + 1]));
                            }
                            assert(false);
                        }
                    }
                }
            },
            None => {
                assert forall|j: int| 0 <= j < v@.len() implies (#[trigger] out@[j]
                    <==> exists|n: int|
                    0 <= n < k + 1 && #[trigger] is_last_run(all, j, b@[n], b@[n + 1])) by {
                    assert(!run_covers(all[j], b@[k as int], b@[k + 1]));
                }
            },
        }
        k = k + 1;
    }
    assert forall|i: int| 0 <= i < v@.len() implies out@[i] == ends_line(all, i) by {
        if ends_line(all, i) {
            let n = choose|n: int|
                0 <= n < b@.len() - 1 && #[trigger] is_last_run(all, i, b@[n], b@[n + 1]);
            assert(is_last_run(all, i, b@[n], b@[n + 1]));
        }
    }
    out
}

/// Puts a line break behind every run that is the last of its row during some
/// interval.
pub fn append_newlines_to_final_tspans(elements: &mut [TextElement])
    ensures
        final(elements)@.len() == old(elements)@.len(),
        forall|i: int|
            0 <= i < old(elements)@.len() ==> (#[trigger] final(elements)@[i])@ == broken_row(
                old(elements)@[i]@,
            ),
{
    let n: usize = elements.len();
    let mut i: usize = 0;
    while i < n
        invariant
            i <= n,
            n == elements@.len(),
            elements@.len() == old(elements)@.len(),
            forall|k: int|
                0 <= k < i ==> (#[trigger] elements@[k])@ == broken_row(old(elements)@[k]@),
            forall|k: int| i <= k < n ==> #[trigger] elements@[k] == old(elements)@[k],
        decreases n - i,
    {
        let ghost e = old(elements)@[i as int];
        assert(elements@[i as int] == e);
        let mut spans: Vec<TSpan> = Vec::new();
        std::mem::swap(&mut spans, &mut elements[i].tspans);
        let ghost was = sort::views(spans@);
        let ends: Vec<bool> = line_ends(&spans);
        let mut j: usize = 0;
        while j < spans.len()
            invariant
                j <= spans@.len(),
                spans@.len() == was.len(),
                ends@.len() == was.len(),
                forall|k: int| 0 <= k < was.len() ==> ends@[k] == ends_line(was, k),
                forall|k: int|
                    0 <= k < j ==> (#[trigger] spans@[k])@ == with_line_breaks(was)[k],
                forall|k: int| j <= k < spans@.len() ==> (#[trigger] spans@[k])@ == was[k],
            decreases spans@.len() - j,
        {
            assert(spans@[j as int]@ == was[j as int]);
            if ends[j] {
                spans[j].text.push('\n');
            }
            assert(spans@[j as int]@ =~= with_line_breaks(was)[j as int]);
            j = j + 1;
        }
        assert(sort::views(spans@) =~= with_line_breaks(was));
        elements[i].tspans = spans;
        assert(elements@[i as int]@ =~= broken_row(e@));
        i = i + 1;
    }
}

} // verus!
