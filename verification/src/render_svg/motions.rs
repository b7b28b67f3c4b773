//! What a motion says in the text of a document: where things are, and when.
use vstd::prelude::*;
use vstd::string::*;

use crate::exact;
use crate::render_svg::elements::YAnimationView;
use crate::render_svg::markup;
use crate::render_svg::written;
use crate::single;
use crate::single::{Measure, ONE};
use crate::text;

verus! {

/// A list begins with its first part.
pub(crate) proof fn lemma_list_begins(parts: Seq<Seq<char>>, sep: Seq<char>) -> (rest: Seq<char>)
    requires
        parts.len() > 0,
    ensures
        text::joined(parts, sep) == parts[0] + rest,
    decreases parts.len(),
{
    if parts.len() == 1 {
        assert(text::joined(parts, sep) =~= parts[0] + Seq::<char>::empty());
        Seq::empty()
    } else {
        let rest = lemma_list_begins(parts.drop_last(), sep);
        assert(text::joined(parts, sep) =~= parts[0] + (rest + sep + parts.last()));
        rest + sep + parts.last()
    }
}

/// A list ends with its last part.
pub(crate) proof fn lemma_list_ends(parts: Seq<Seq<char>>, sep: Seq<char>) -> (before: Seq<char>)
    requires
        parts.len() > 0,
    ensures
        text::joined(parts, sep) == before + parts.last(),
{
    if parts.len() == 1 {
        assert(text::joined(parts, sep) =~= Seq::<char>::empty() + parts[0]);
        Seq::empty()
    } else {
        text::joined(parts.drop_last(), sep) + sep
    }
}

/// A part of a list is followed by the next one.
proof fn lemma_list_goes_on(parts: Seq<Seq<char>>, sep: Seq<char>, i: int)
    requires
        0 <= i,
        i + 1 < parts.len(),
    ensures
        written::says(text::joined(parts, sep), parts[i] + sep + parts[i + 1]),
    decreases parts.len(),
{
    let most = parts.drop_last();
    let none = Seq::<char>::empty();
    if i + 2 < parts.len() {
        lemma_list_goes_on(most, sep, i);
        let t = parts[i] + sep + parts[i + 1];
        written::lemma_says_around(none, text::joined(most, sep), sep, t);
        written::lemma_says_around(none, text::joined(most, sep) + sep, parts.last(), t);
    } else {
        let before = lemma_list_ends(most, sep);
        let t = parts[i] + sep + parts[i + 1];
        assert(text::joined(parts, sep) =~= before + t);
        written::lemma_says(before, t, none);
    }
}

/// A list between quotes: what it begins with, and which parts follow each other.
#[verifier::opaque]
pub open spec fn lists(
    s: Seq<char>,
    name: Seq<char>,
    parts: Seq<Seq<char>>,
    end: Seq<char>,
) -> bool {
    &&& written::says(s, name + parts[0])
    &&& written::says(s, parts.last() + end)
    &&& forall|i: int|
        0 <= i && i + 1 < parts.len() ==> written::says(
            s,
            #[trigger] parts[i] + ";"@ + parts[i + 1],
        )
}

proof fn lemma_lists(
    a: Seq<char>,
    name: Seq<char>,
    parts: Seq<Seq<char>>,
    end: Seq<char>,
    b: Seq<char>,
)
    requires
        parts.len() > 0,
    ensures
        lists(a + name + text::joined(parts, ";"@) + end + b, name, parts, end),
{
    reveal(lists);
    let list = text::joined(parts, ";"@);
    let s = a + name + list + end + b;
    let rest = lemma_list_begins(parts, ";"@);
    let before = lemma_list_ends(parts, ";"@);
    written::lemma_says(a, name + parts[0], rest + end + b);
    assert(s =~= a + (name + parts[0]) + (rest + end + b));
    written::lemma_says(a + name + before, parts.last() + end, b);
    assert(s =~= a + name + before + (parts.last() + end) + b);
    assert forall|i: int| 0 <= i && i + 1 < parts.len() implies written::says(
        s,
        #[trigger] parts[i] + ";"@ + parts[i + 1],
    ) by {
        lemma_list_goes_on(parts, ";"@, i);
        written::lemma_says_around(a + name, list, end + b, parts[i] + ";"@ + parts[i + 1]);
        assert(s =~= a + name + list + (end + b));
    }
}

/// The lines of a motion, as they are written.
pub open spec fn lines_of(m: YAnimationView) -> Seq<Seq<char>> {
    Seq::new(m.segments.len(), |i: int| text::decimal(m.segments[i].0 as nat))
}

/// The moments of a motion, as they are written: each as the part of the whole that has
/// passed since the motion began.
pub open spec fn moments_of(m: YAnimationView) -> Seq<Seq<char>> {
    Seq::new(
        m.segments.len(),
        |i: int| markup::key_time_text((m.segments[i].1 - m.begin_ms) as u32, m.dur_ms),
    )
}

proof fn lemma_discrete(
    head: Seq<char>,
    values: Seq<Seq<char>>,
    times: Seq<Seq<char>>,
    dur: Seq<char>,
    begin: Seq<char>,
    tail: Seq<char>,
)
    requires
        values.len() > 0,
        times.len() > 0,
    ensures
        ({
            let s = head + markup::discrete_text(
                text::joined(values, ";"@),
                text::joined(times, ";"@),
                dur,
                begin,
            ) + tail;
            &&& lists(s, "values=\""@, values, "\""@)
            &&& lists(s, "keyTimes=\""@, times, "\""@)
            &&& written::says(s, "dur=\""@ + dur + "\""@)
            &&& written::says(s, "begin=\""@ + begin + "\""@)
        }),
{
    let v = text::joined(values, ";"@);
    let t = text::joined(times, ";"@);
    let s = head + markup::discrete_text(v, t, dur, begin) + tail;
    reveal_strlit(" calcMode=\"discrete\" values=\"");
    reveal_strlit(" calcMode=\"discrete\" ");
    reveal_strlit("values=\"");
    reveal_strlit("\" keyTimes=\"");
    reveal_strlit("\" ");
    reveal_strlit("\"");
    reveal_strlit(" ");
    reveal_strlit("keyTimes=\"");
    reveal_strlit("\" dur=\"");
    reveal_strlit("dur=\"");
    reveal_strlit("\" begin=\"");
    reveal_strlit("begin=\"");
    let q = "\""@;
    let gap = " "@;
    assert(" calcMode=\"discrete\" values=\""@ =~= " calcMode=\"discrete\" "@ + "values=\""@);
    assert("\" keyTimes=\""@ =~= q + gap + "keyTimes=\""@);
    assert("\" dur=\""@ =~= q + gap + "dur=\""@);
    assert("\" begin=\""@ =~= q + gap + "begin=\""@);
    let a = head + " calcMode=\"discrete\" "@;
    let b = gap + "keyTimes=\""@ + t + q + gap + "dur=\""@ + dur + q + gap + "begin=\""@ + begin
        + q + tail;
    assert(s =~= a + "values=\""@ + v + q + b);
    lemma_lists(a, "values=\""@, values, q, b);
    let a2 = a + "values=\""@ + v + q + gap;
    let b2 = gap + "dur=\""@ + dur + q + gap + "begin=\""@ + begin + q + tail;
    assert(s =~= a2 + "keyTimes=\""@ + t + q + b2);
    lemma_lists(a2, "keyTimes=\""@, times, q, b2);
    let a3 = a2 + "keyTimes=\""@ + t + q + gap;
    let b3 = gap + "begin=\""@ + begin + q + tail;
    assert(s =~= a3 + ("dur=\""@ + dur + q) + b3);
    written::lemma_says(a3, "dur=\""@ + dur + q, b3);
    let a4 = a3 + "dur=\""@ + dur + q + gap;
    assert(s =~= a4 + ("begin=\""@ + begin + q) + tail);
    written::lemma_says(a4, "begin=\""@ + begin + q, tail);
}

/// A motion says through which lines it goes, in their order, and when it reaches each,
/// how long it takes and when it begins.
pub proof fn lemma_motion_written(m: YAnimationView)
    requires
        m.segments.len() > 0,
    ensures
        lists(m.svg(), "values=\""@, lines_of(m), "\""@),
        lists(m.svg(), "keyTimes=\""@, moments_of(m), "\""@),
        written::says(m.svg(), "dur=\""@ + markup::time_text(m.dur_ms) + "\""@),
        written::says(m.svg(), "begin=\""@ + markup::begin_text(m.begin_ms) + "\""@),
{
    let rows = Seq::new(m.rows().len(), |i: int| text::decimal(m.rows()[i] as nat));
    assert(rows =~= lines_of(m));
    let times = Seq::new(
        m.offsets().len(),
        |i: int| markup::key_time_text(m.offsets()[i], m.dur_ms),
    );
    assert(times =~= moments_of(m));
    lemma_discrete(
        "<animate attributeName=\"y\""@,
        lines_of(m),
        moments_of(m),
        markup::time_text(m.dur_ms),
        markup::begin_text(m.begin_ms),
        " fill=\"freeze\"/>"@,
    );
}

/// Where a shape is when its text stands on each line: at the left edge of its cell and
/// as far above the line as text is in a cell.
pub open spec fn points_of(m: YAnimationView, cell_x: Measure, baseline: u32) -> Seq<Seq<char>> {
    Seq::new(
        m.segments.len(),
        |i: int|
            single::shortest_text(cell_x as int) + ","@ + single::shortest_text(
                (m.segments[i].0 - baseline) * ONE,
            ),
    )
}

/// A shape moves along with the text: it goes through the same lines at the same moments.
pub proof fn lemma_shape_moved(m: YAnimationView, cell_x: Measure, baseline: u32)
    requires
        m.segments.len() > 0,
        baseline <= 0xff_ffff,
        forall|i: int|
            0 <= i < m.segments.len() ==> (#[trigger] m.segments[i]).0 <= 0xff_ffff,
    ensures
        lists(
            m.transform_svg(cell_x, baseline),
            "values=\""@,
            points_of(m, cell_x, baseline),
            "\""@,
        ),
        lists(m.transform_svg(cell_x, baseline), "keyTimes=\""@, moments_of(m), "\""@),
        written::says(
            m.transform_svg(cell_x, baseline),
            "dur=\""@ + markup::time_text(m.dur_ms) + "\""@,
        ),
        written::says(
            m.transform_svg(cell_x, baseline),
            "begin=\""@ + markup::begin_text(m.begin_ms) + "\""@,
        ),
{
    let points = m.translations(cell_x, baseline);
    assert forall|i: int| 0 <= i < points.len() implies points[i] == points_of(
        m,
        cell_x,
        baseline,
    )[i] by {
        let y = m.segments[i].0;
        single::lemma_whole_exact(y);
        single::lemma_whole_exact(baseline);
        assert(y * ONE - baseline * ONE == (y - baseline) * ONE) by (nonlinear_arith);
        exact::lemma_wholes_exact(y - baseline);
    }
    assert(points =~= points_of(m, cell_x, baseline));
    let times = Seq::new(
        m.offsets().len(),
        |i: int| markup::key_time_text(m.offsets()[i], m.dur_ms),
    );
    assert(times =~= moments_of(m));
    lemma_discrete(
        "<animateTransform attributeName=\"transform\" type=\"translate\""@,
        points_of(m, cell_x, baseline),
        moments_of(m),
        markup::time_text(m.dur_ms),
        markup::begin_text(m.begin_ms),
        " fill=\"freeze\"/>"@,
    );
}

} // verus!
