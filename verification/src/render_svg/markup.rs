//! Times, key times and visibility as SVG spells them.
use vstd::prelude::*;
use vstd::string::*;

use crate::render_svg::elements::{YAnimation, YAnimationView};
use crate::render_svg::optimize;
use crate::render_svg::optimize::{keep_changes, Same};
use crate::single;
use crate::single::{
    format_fixed, format_shortest, from_quotient, from_whole, round_single, Measure,
};
use crate::text;
use crate::text::{decimal_text, join, same_text};

verus! {

/// Whether something that lasts from `start_ms` to `end_ms` counts as always
/// visible.
pub open spec fn always_visible(start_ms: u32, end_ms: u32, total_ms: u32) -> bool {
    start_ms <= 40 && (end_ms >= total_ms || total_ms - end_ms <= 200)
}

pub fn is_static(start_ms: u32, end_ms: u32, total_ms: u32) -> (r: bool)
    ensures
        r == always_visible(start_ms, end_ms, total_ms),
{
    start_ms <= 40 && (end_ms >= total_ms || total_ms - end_ms <= 200)
}

/// Seconds with up to three decimal places.
pub fn format_seconds(s: Measure) -> (out: String)
    requires
        single::printable(s as int, 3),
    ensures
        out@ == single::fixed_text(s as int, 3),
{
    format_fixed(s, 3)
}

/// The part `a / b` of a duration with up to four decimal places.
pub open spec fn key_time_text(a: u32, b: u32) -> Seq<char> {
    if b == 0 {
        if a == 0 {
            "NaN"@
        } else {
            "inf"@
        }
    } else {
        single::fixed_text(single::quotient(a, b), 4)
    }
}

pub fn format_key_time(a: u32, b: u32) -> (out: String)
    ensures
        out@ == key_time_text(a, b),
{
    if b == 0 {
        if a == 0 {
            "NaN".to_string()
        } else {
            "inf".to_string()
        }
    } else {
        format_fixed(from_quotient(a, b), 4)
    }
}

/// Milliseconds as seconds.
pub open spec fn time_text(ms: u32) -> Seq<char> {
    single::fixed_text(single::quotient(ms, 1000), 3)
}

pub fn format_time(ms: u32) -> (out: String)
    ensures
        out@ == time_text(ms),
{
    format_seconds(from_quotient(ms, 1000))
}

/// A moment counted from the begin of the master timer; the first 40 ms count as
/// its begin.
pub open spec fn begin_text(ms: u32) -> Seq<char> {
    if ms <= 40 {
        "t.begin"@
    } else {
        "t.begin+"@ + time_text(ms)
    }
}

pub fn format_begin(ms: u32) -> (out: String)
    ensures
        out@ == begin_text(ms),
{
    if ms <= 40 {
        "t.begin".to_string()
    } else {
        let mut out: String = "t.begin+".to_string();
        out.append(format_time(ms).as_str());
        out
    }
}

/// The end of something visible: the end of the timer, if it lasts that long.
pub open spec fn end_text(end_ms: u32, total_ms: u32) -> Seq<char> {
    if end_ms >= total_ms {
        "t.end"@
    } else {
        "t.begin+"@ + time_text(end_ms)
    }
}

/// The element that makes its parent visible from `start_ms` to `end_ms`.
pub open spec fn visibility_text(start_ms: u32, end_ms: u32, total_ms: u32) -> Seq<char> {
    "<set attributeName=\"visibility\" to=\"visible\" begin=\""@ + begin_text(start_ms)
        + "\" end=\""@ + end_text(end_ms, total_ms) + "\"/>"@
}

pub fn visibility_set(start_ms: u32, end_ms: u32, total_ms: u32) -> (out: String)
    ensures
        out@ == visibility_text(start_ms, end_ms, total_ms),
{
    let mut end: String = "t.end".to_string();
    if end_ms < total_ms {
        end = "t.begin+".to_string();
        end.append(format_time(end_ms).as_str());
    }
    let mut out: String = "<set attributeName=\"visibility\" to=\"visible\" begin=\"".to_string();
    out.append(format_begin(start_ms).as_str());
    out.append("\" end=\"");
    out.append(end.as_str());
    out.append("\"/>");
    out
}

impl Same for u32 {
    fn same(&self, other: &u32) -> (r: bool) {
        *self == *other
    }
}

/// Times and values side by side.
pub open spec fn paired<K>(times: Seq<u32>, values: Seq<K>) -> Seq<(u32, K)> {
    Seq::new(values.len(), |i: int| (times[i], values[i]))
}

/// The moments at which the value changes, each with its new value.
pub fn simplify_discrete_animation<K: Same + Copy>(key_times: &Vec<u32>, values: &Vec<K>) -> (out:
    Vec<(u32, K)>)
    requires
        key_times@.len() == values@.len(),
    ensures
        out@ == optimize::changes(paired(key_times@, values@)),
{
    let mut pairs: Vec<(u32, K)> = Vec::new();
    let mut i: usize = 0;
    while i < values.len()
        invariant
            key_times@.len() == values@.len(),
            i <= values@.len(),
            pairs@.len() == i,
            forall|k: int| 0 <= k < i ==> pairs@[k] == (key_times@[k], values@[k]),
        decreases values@.len() - i,
    {
        pairs.push((key_times[i], values[i]));
        i = i + 1;
    }
    assert(pairs@ =~= paired(key_times@, values@));
    keep_changes(&pairs)
}

/// [`simplify_discrete_animation`] for texts.
pub fn simplify_discrete_texts(key_times: &Vec<u32>, values: &Vec<String>) -> (out: (
    Vec<u32>,
    Vec<String>,
))
    requires
        key_times@.len() == values@.len(),
    ensures
        out.0@.len() == out.1@.len(),
        paired(out.0@, text::texts(out.1@)) == optimize::changes(
            paired(key_times@, text::texts(values@)),
        ),
{
    let ghost all = paired(key_times@, text::texts(values@));
    let mut kt: Vec<u32> = Vec::new();
    let mut vals: Vec<String> = Vec::new();
    let mut i: usize = 0;
    assert(paired(kt@, text::texts(vals@)) =~= optimize::changes(all.take(0)));
    while i < values.len()
        invariant
            key_times@.len() == values@.len(),
            all == paired(key_times@, text::texts(values@)),
            i <= values@.len(),
            kt@.len() == vals@.len(),
            paired(kt@, text::texts(vals@)) == optimize::changes(all.take(i as int)),
        decreases values@.len() - i,
    {
        let ghost kept = paired(kt@, text::texts(vals@));
        assert(all.take(i + 1).drop_last() =~= all.take(i as int));
        assert(all.take(i + 1).last() == (key_times@[i as int], values@[i as int]@));
        let n: usize = vals.len();
        if n > 0 {
            assert(kept.last() == (kt@[n - 1], vals@[n - 1]@));
        }
        if n == 0 || !same_text(vals[n - 1].as_str(), values[i].as_str()) {
            kt.push(key_times[i]);
            vals.push(values[i].clone());
            assert(paired(kt@, text::texts(vals@)) =~= kept.push(
                (key_times@[i as int], values@[i as int]@),
            ));
        }
        i = i + 1;
    }
    assert(all.take(all.len() as int) =~= all);
    (kt, vals)
}

/// Key times, each as a part of `total_ms`.
pub open spec fn key_times_text(times: Seq<u32>, total_ms: u32) -> Seq<char> {
    text::joined(Seq::new(times.len(), |i: int| key_time_text(times[i], total_ms)), ";"@)
}

pub fn format_key_time_list(times: &Vec<u32>, total_ms: u32) -> (out: String)
    ensures
        out@ == key_times_text(times@, total_ms),
{
    let mut parts: Vec<String> = Vec::new();
    let mut i: usize = 0;
    while i < times.len()
        invariant
            i <= times@.len(),
            parts@.len() == i,
            forall|k: int|
                0 <= k < i ==> (#[trigger] parts@[k])@ == key_time_text(times@[k], total_ms),
        decreases times@.len() - i,
    {
        parts.push(format_key_time(times[i], total_ms));
        i = i + 1;
    }
    assert(text::texts(parts@) =~= Seq::new(
        times@.len(),
        |i: int| key_time_text(times@[i], total_ms),
    ));
    join(&parts, ";")
}

/// Numbers with semicolons between them.
pub open spec fn numbers_text(values: Seq<u32>) -> Seq<char> {
    text::joined(Seq::new(values.len(), |i: int| text::decimal(values[i] as nat)), ";"@)
}

pub fn format_number_list(values: &Vec<u32>) -> (out: String)
    ensures
        out@ == numbers_text(values@),
{
    let mut parts: Vec<String> = Vec::new();
    let mut i: usize = 0;
    while i < values.len()
        invariant
            i <= values@.len(),
            parts@.len() == i,
            forall|k: int|
                0 <= k < i ==> (#[trigger] parts@[k])@ == text::decimal(values@[k] as nat),
        decreases values@.len() - i,
    {
        parts.push(decimal_text(values[i] as u128));
        i = i + 1;
    }
    assert(text::texts(parts@) =~= Seq::new(
        values@.len(),
        |i: int| text::decimal(values@[i] as nat),
    ));
    join(&parts, ";")
}

/// A run of a property through `values` at `key_times`.
pub open spec fn discrete_text(
    values: Seq<char>,
    key_times: Seq<char>,
    dur: Seq<char>,
    begin: Seq<char>,
) -> Seq<char> {
    " calcMode=\"discrete\" values=\""@ + values + "\" keyTimes=\""@ + key_times + "\" dur=\""@
        + dur + "\" begin=\""@ + begin + "\""@
}

pub fn format_discrete(values: &str, key_times: &str, dur: &str, begin: &str) -> (out: String)
    ensures
        out@ == discrete_text(values@, key_times@, dur@, begin@),
{
    let mut out: String = " calcMode=\"discrete\" values=\"".to_string();
    out.append(values);
    out.append("\" keyTimes=\"");
    out.append(key_times);
    out.append("\" dur=\"");
    out.append(dur);
    out.append("\" begin=\"");
    out.append(begin);
    out.append("\"");
    out
}

impl YAnimationView {
    /// The lines the element passes.
    pub open spec fn rows(self) -> Seq<u32> {
        Seq::new(self.segments.len(), |i: int| self.segments[i].0)
    }

    /// The moments, counted from the begin of the motion.
    pub open spec fn offsets(self) -> Seq<u32> {
        Seq::new(self.segments.len(), |i: int| (self.segments[i].1 - self.begin_ms) as u32)
    }

    /// No segment starts before the motion does.
    pub open spec fn in_time(self) -> bool {
        forall|i: int|
            0 <= i < self.segments.len() ==> self.begin_ms <= (#[trigger] self.segments[i]).1
    }

    /// The `<animate>` element of the line.
    pub open spec fn svg(self) -> Seq<char> {
        "<animate attributeName=\"y\""@ + discrete_text(
            numbers_text(self.rows()),
            key_times_text(self.offsets(), self.dur_ms),
            time_text(self.dur_ms),
            begin_text(self.begin_ms),
        ) + " fill=\"freeze\"/>"@
    }

    /// Where a cell stands whose left edge is at `cell_x`, for each line.
    pub open spec fn translations(self, cell_x: Measure, baseline: u32) -> Seq<Seq<char>> {
        Seq::new(
            self.segments.len(),
            |i: int| point_text(cell_x as int, rise(self.segments[i].0, baseline)),
        )
    }

    /// The `<animateTransform>` element that moves a shape along.
    pub open spec fn transform_svg(self, cell_x: Measure, baseline: u32) -> Seq<char> {
        "<animateTransform attributeName=\"transform\" type=\"translate\""@ + discrete_text(
            text::joined(self.translations(cell_x, baseline), ";"@),
            key_times_text(self.offsets(), self.dur_ms),
            time_text(self.dur_ms),
            begin_text(self.begin_ms),
        ) + " fill=\"freeze\"/>"@
    }
}

/// The top of a cell whose text stands on the line `y`.
pub open spec fn rise(y: u32, baseline: u32) -> int {
    single::single(single::whole(y) - single::whole(baseline))
}

/// Two coordinates with a comma between them.
pub open spec fn point_text(x: int, y: int) -> Seq<char> {
    single::shortest_text(x) + ","@ + single::shortest_text(y)
}

/// Whether a number can be printed in full.
pub open spec fn in_range(v: int) -> bool {
    -single::MEASURE_LIMIT <= v <= single::MEASURE_LIMIT
}

pub fn cell_top(y: u32, baseline: u32) -> (r: Measure)
    requires
        y <= 0xff_ffff,
        baseline <= 0xff_ffff,
    ensures
        r == rise(y, baseline),
        in_range(r as int),
{
    let a: Measure = from_whole(y);
    let b: Measure = from_whole(baseline);
    round_single(a - b)
}

pub fn format_point(x: Measure, y: Measure) -> (out: String)
    requires
        in_range(x as int),
        in_range(y as int),
    ensures
        out@ == point_text(x as int, y as int),
{
    let mut out: String = format_shortest(x);
    out.append(",");
    out.append(format_shortest(y).as_str());
    out
}

impl YAnimation {
    fn row_list(&self) -> (out: Vec<u32>)
        ensures
            out@ == self@.rows(),
    {
        let mut out: Vec<u32> = Vec::new();
        let mut i: usize = 0;
        while i < self.segments.len()
            invariant
                i <= self.segments@.len(),
                out@.len() == i,
                forall|k: int| 0 <= k < i ==> out@[k] == self.segments@[k].0,
            decreases self.segments@.len() - i,
        {
            out.push(self.segments[i].0);
            i = i + 1;
        }
        assert(out@ =~= self@.rows());
        out
    }

    fn offset_list(&self) -> (out: Vec<u32>)
        requires
            self@.in_time(),
        ensures
            out@ == self@.offsets(),
    {
        let mut out: Vec<u32> = Vec::new();
        let mut i: usize = 0;
        while i < self.segments.len()
            invariant
                self@.in_time(),
                i <= self.segments@.len(),
                out@.len() == i,
                forall|k: int|
                    0 <= k < i ==> out@[k] == (self.segments@[k].1 - self.begin_ms) as u32,
            decreases self.segments@.len() - i,
        {
            assert(self.begin_ms <= self@.segments[i as int].1);
            out.push(self.segments[i].1 - self.begin_ms);
            i = i + 1;
        }
        assert(out@ =~= self@.offsets());
        out
    }

    /// The `<animate>` element of the line.
    pub fn to_svg_string(&self) -> (out: String)
        requires
            self@.in_time(),
        ensures
            out@ == self@.svg(),
    {
        let rows: Vec<u32> = self.row_list();
        let offsets: Vec<u32> = self.offset_list();
        let mut out: String = "<animate attributeName=\"y\"".to_string();
        out.append(
            format_discrete(
                format_number_list(&rows).as_str(),
                format_key_time_list(&offsets, self.dur_ms).as_str(),
                format_time(self.dur_ms).as_str(),
                format_begin(self.begin_ms).as_str(),
            ).as_str(),
        );
        out.append(" fill=\"freeze\"/>");
        out
    }

    /// The `<animateTransform>` element that moves a shape along.
    pub fn to_svg_transform_animation(&self, cell_x: Measure, baseline: u32) -> (out: String)
        requires
            self@.in_time(),
            in_range(cell_x as int),
            baseline <= 0xff_ffff,
            forall|i: int|
                0 <= i < self.segments@.len() ==> (#[trigger] self.segments@[i]).0 <= 0xff_ffff,
        ensures
            out@ == self@.transform_svg(cell_x, baseline),
    {
        let mut points: Vec<String> = Vec::new();
        let mut i: usize = 0;
        while i < self.segments.len()
            invariant
                i <= self.segments@.len(),
                in_range(cell_x as int),
                baseline <= 0xff_ffff,
                forall|i: int|
                    0 <= i < self.segments@.len() ==> (#[trigger] self.segments@[i]).0
                        <= 0xff_ffff,
                points@.len() == i,
                forall|k: int|
                    0 <= k < i ==> (#[trigger] points@[k])@ == self@.translations(
                        cell_x,
                        baseline,
                    )[k],
            decreases self.segments@.len() - i,
        {
            points.push(format_point(cell_x, cell_top(self.segments[i].0, baseline)));
            i = i + 1;
        }
        assert(text::texts(points@) =~= self@.translations(cell_x, baseline));
        let offsets: Vec<u32> = self.offset_list();
        let mut out: String =
            "<animateTransform attributeName=\"transform\" type=\"translate\"".to_string();
        out.append(
            format_discrete(
                join(&points, ";").as_str(),
                format_key_time_list(&offsets, self.dur_ms).as_str(),
                format_time(self.dur_ms).as_str(),
                format_begin(self.begin_ms).as_str(),
            ).as_str(),
        );
        out.append(" fill=\"freeze\"/>");
        out
    }
}

} // verus!
