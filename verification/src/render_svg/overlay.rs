//! The cursor and the mouse as SVG.
use vstd::prelude::*;
use vstd::string::*;

use crate::pointer;
use crate::recording::MouseState;
use crate::render_svg::elements::{CursorRect, MouseSpan};
use crate::render_svg::markup;
use crate::render_svg::markup::{
    format_discrete, format_key_time_list, format_number_list, format_point, format_time,
    simplify_discrete_animation, simplify_discrete_texts,
};
use crate::render_svg::optimize;
use crate::render_svg::text_markup;
use crate::single::Measure;
use crate::sort;
use crate::sort::{sort_distinct, stable_sort, Order};
use crate::style;
use crate::style::{rgb_hex, same_rgb, Rgb};
use crate::text;
use crate::text::{decimal_text, join};

verus! {

impl View for CursorRect {
    type V = CursorRect;

    open spec fn view(&self) -> CursorRect {
        *self
    }
}

/// Cursors by their begin.
pub struct CursorByStart;

impl Order<CursorRect> for CursorByStart {
    open spec fn leq(a: CursorRect, b: CursorRect) -> bool {
        a.start_ms <= b.start_ms
    }

    proof fn total(a: CursorRect, b: CursorRect) {
    }

    proof fn transitive(a: CursorRect, b: CursorRect, c: CursorRect) {
    }

    open spec fn fits(a: CursorRect) -> bool {
        true
    }

    fn le(a: &CursorRect, b: &CursorRect) -> (r: bool) {
        a.start_ms <= b.start_ms
    }
}

/// Size and colour, by which cursors are grouped.
pub open spec fn cursor_key(c: CursorRect) -> (u32, u32, Rgb) {
    (c.w, c.h, c.fill)
}

/// The cursors of one size and colour.
pub open spec fn cursors_like(v: Seq<CursorRect>, key: (u32, u32, Rgb)) -> Seq<CursorRect>
    decreases v.len(),
{
    if v.len() == 0 {
        v
    } else if cursor_key(v.last()) == key {
        cursors_like(v.drop_last(), key).push(v.last())
    } else {
        cursors_like(v.drop_last(), key)
    }
}

/// The sizes and colours of cursors, in the order in which they first occur.
pub open spec fn cursor_keys(v: Seq<CursorRect>) -> Seq<(u32, u32, Rgb)>
    decreases v.len(),
{
    if v.len() == 0 {
        Seq::empty()
    } else {
        let keys = cursor_keys(v.drop_last());
        if keys.contains(cursor_key(v.last())) {
            keys
        } else {
            keys.push(cursor_key(v.last()))
        }
    }
}

/// The moments at which cursors come and go, behind the begin and the end.
pub open spec fn cursor_moments(v: Seq<CursorRect>, total_ms: u32) -> Seq<u32>
    decreases v.len(),
{
    if v.len() == 0 {
        seq![0u32, total_ms]
    } else {
        cursor_moments(v.drop_last(), total_ms).push(v.last().start_ms).push(v.last().end_ms)
    }
}

/// The first cursor, from `i` on, that lasts from `start` to `end`.
pub open spec fn active_cursor(v: Seq<CursorRect>, start: u32, end: u32, i: int) -> Option<
    CursorRect,
>
    decreases v.len() - i,
{
    if i < 0 || i >= v.len() {
        None
    } else if v[i].start_ms <= start && v[i].end_ms >= end {
        Some(v[i])
    } else {
        active_cursor(v, start, end, i + 1)
    }
}

/// Column, line and visibility of the cursor in the interval `k` between the
/// moments `b`. While no cursor is visible it stays where it was.
pub open spec fn cursor_state(v: Seq<CursorRect>, b: Seq<u32>, k: int) -> (u32, u32, bool)
    decreases k,
{
    match active_cursor(v, b[k], b[k + 1], 0) {
        Some(c) => (c.x, c.y, true),
        None => if k <= 0 {
            (v[0].x, v[0].y, false)
        } else {
            let before = cursor_state(v, b, k - 1);
            (before.0, before.1, false)
        },
    }
}

/// The columns through which the cursor passes.
pub open spec fn cursor_xs(v: Seq<CursorRect>, b: Seq<u32>, n: nat) -> Seq<u32> {
    Seq::new(n, |k: int| cursor_state(v, b, k).0)
}

pub open spec fn cursor_ys(v: Seq<CursorRect>, b: Seq<u32>, n: nat) -> Seq<u32> {
    Seq::new(n, |k: int| cursor_state(v, b, k).1)
}

pub open spec fn cursor_shown(v: Seq<CursorRect>, b: Seq<u32>, n: nat) -> Seq<bool> {
    Seq::new(n, |k: int| cursor_state(v, b, k).2)
}

/// The moments of a list of changes.
pub open spec fn change_times<K>(c: Seq<(u32, K)>) -> Seq<u32> {
    Seq::new(c.len(), |i: int| c[i].0)
}

/// The values of a list of changes.
pub open spec fn change_values<K>(c: Seq<(u32, K)>) -> Seq<K> {
    Seq::new(c.len(), |i: int| c[i].1)
}

/// Visibilities with semicolons between them.
pub open spec fn shown_text(v: Seq<bool>) -> Seq<char> {
    text::joined(
        Seq::new(v.len(), |i: int| text_markup::word(v[i], "visible"@, "hidden"@)),
        ";"@,
    )
}

/// An animation of one attribute that runs with the master timer.
pub open spec fn timed_animation(
    head: Seq<char>,
    values: Seq<char>,
    times: Seq<u32>,
    total_ms: u32,
) -> Seq<char> {
    head + markup::discrete_text(
        values,
        markup::key_times_text(times, total_ms),
        markup::time_text(total_ms),
        "t.begin"@,
    ) + " fill=\"freeze\"/>"@
}

/// A coordinate that never changes, as an attribute.
pub open spec fn fixed_attribute(head: Seq<char>, c: Seq<(u32, u32)>) -> Seq<char> {
    if c.len() == 1 {
        head + text::decimal(c[0].1 as nat) + "\""@
    } else {
        ""@
    }
}

/// A coordinate that changes, as an animation.
pub open spec fn number_animation(head: Seq<char>, c: Seq<(u32, u32)>, total_ms: u32) -> Seq<
    Seq<char>,
> {
    text_markup::piece(
        c.len() != 1,
        timed_animation(
            head,
            markup::numbers_text(change_values(c)),
            change_times(c),
            total_ms,
        ),
    )
}

/// The animation of a visibility that changes.
pub open spec fn shown_animation(c: Seq<(u32, bool)>, total_ms: u32) -> Seq<Seq<char>> {
    text_markup::piece(
        c.len() != 1,
        timed_animation(
            "  <animate attributeName=\"visibility\""@,
            shown_text(change_values(c)),
            change_times(c),
            total_ms,
        ),
    )
}

/// Size and colour of a cursor as attributes.
pub open spec fn cursor_box(key: (u32, u32, Rgb)) -> Seq<char> {
    " width=\""@ + text::decimal(key.0 as nat) + "\" height=\""@ + text::decimal(key.1 as nat)
        + "\" fill=\""@ + style::hex(key.2) + "\" fill-opacity=\"0.7\""@
}

/// The cursors of one size and colour, in the order of their begin, as one
/// rectangle.
pub open spec fn cursor_group_svg(
    list: Seq<CursorRect>,
    key: (u32, u32, Rgb),
    total_ms: u32,
) -> Seq<char> {
    let b = sort::distinct_ascending(cursor_moments(list, total_ms));
    let n = (b.len() - 1) as nat;
    let times = b.drop_last();
    let xs = optimize::changes(markup::paired(times, cursor_xs(list, b, n)));
    let ys = optimize::changes(markup::paired(times, cursor_ys(list, b, n)));
    let shown = optimize::changes(markup::paired(times, cursor_shown(list, b, n)));
    let moves = number_animation("  <animate attributeName=\"x\""@, xs, total_ms)
        + number_animation("  <animate attributeName=\"y\""@, ys, total_ms) + shown_animation(
        shown,
        total_ms,
    );
    if n == 1 && cursor_state(list, b, 0).2 {
        "<rect x=\""@ + text::decimal(cursor_state(list, b, 0).0 as nat) + "\" y=\""@
            + text::decimal(cursor_state(list, b, 0).1 as nat) + "\""@ + cursor_box(key) + "/>"@
    } else {
        "<rect"@ + fixed_attribute(" x=\""@, xs) + fixed_attribute(" y=\""@, ys) + cursor_box(key)
            + (if shown.len() == 1 && shown[0].1 {
            ""@
        } else {
            " class=\"h\""@
        }) + (if moves.len() == 0 {
            "/>"@
        } else {
            ">\n"@ + text::joined(moves, "\n"@) + "\n</rect>\n"@
        })
    }
}

/// The first `n` groups of cursors.
pub open spec fn cursor_groups(
    v: Seq<CursorRect>,
    keys: Seq<(u32, u32, Rgb)>,
    n: int,
    total_ms: u32,
) -> Seq<char>
    decreases n,
{
    if n <= 0 {
        ""@
    } else {
        cursor_groups(v, keys, n - 1, total_ms) + cursor_group_svg(
            sort::sorted::<CursorRect, CursorByStart>(cursors_like(v, keys[n - 1])),
            keys[n - 1],
            total_ms,
        )
    }
}

/// All cursors as SVG.
pub open spec fn cursors_svg(v: Seq<CursorRect>, total_ms: u32) -> Seq<char> {
    cursor_groups(v, cursor_keys(v), cursor_keys(v).len() as int, total_ms)
}

/// A cursor that stands still.
pub open spec fn still_cursor_svg(c: CursorRect) -> Seq<char> {
    "<rect x=\""@ + text::decimal(c.x as nat) + "\" y=\""@ + text::decimal(c.y as nat) + "\""@
        + cursor_box(cursor_key(c)) + "/>"@
}

/// All cursors, each where it stands.
pub open spec fn still_cursors_svg(v: Seq<CursorRect>) -> Seq<char>
    decreases v.len(),
{
    if v.len() == 0 {
        ""@
    } else {
        still_cursors_svg(v.drop_last()) + still_cursor_svg(v.last())
    }
}

fn same_key(a: (u32, u32, Rgb), b: (u32, u32, Rgb)) -> (r: bool)
    ensures
        r == (a == b),
{
    a.0 == b.0 && a.1 == b.1 && same_rgb(a.2, b.2)
}

fn collect_keys(v: &Vec<CursorRect>) -> (keys: Vec<(u32, u32, Rgb)>)
    ensures
        keys@ == cursor_keys(v@),
{
    let mut keys: Vec<(u32, u32, Rgb)> = Vec::new();
    let mut i: usize = 0;
    while i < v.len()
        invariant
            i <= v@.len(),
            keys@ == cursor_keys(v@.take(i as int)),
        decreases v@.len() - i,
    {
        assert(v@.take(i + 1).drop_last() =~= v@.take(i as int));
        let key: (u32, u32, Rgb) = (v[i].w, v[i].h, v[i].fill);
        let mut found: bool = false;
        let mut k: usize = 0;
        while k < keys.len()
            invariant
                k <= keys@.len(),
                found == exists|j: int| 0 <= j < k && keys@[j] == key,
            decreases keys@.len() - k,
        {
            if same_key(keys[k], key) {
                found = true;
            }
            k = k + 1;
        }
        assert(found == keys@.contains(key));
        if !found {
            keys.push(key);
        }
        i = i + 1;
    }
    assert(v@.take(v@.len() as int) =~= v@);
    keys
}

fn collect_like(v: &Vec<CursorRect>, key: (u32, u32, Rgb)) -> (out: Vec<CursorRect>)
    ensures
        out@ == cursors_like(v@, key),
{
    let mut out: Vec<CursorRect> = Vec::new();
    let mut i: usize = 0;
    while i < v.len()
        invariant
            i <= v@.len(),
            out@ == cursors_like(v@.take(i as int), key),
        decreases v@.len() - i,
    {
        assert(v@.take(i + 1).drop_last() =~= v@.take(i as int));
        let c: CursorRect = v[i];
        if same_key((c.w, c.h, c.fill), key) {
            out.push(c);
        }
        i = i + 1;
    }
    assert(v@.take(v@.len() as int) =~= v@);
    out
}

fn collect_cursor_moments(v: &Vec<CursorRect>, total_ms: u32) -> (out: Vec<u32>)
    ensures
        out@ == cursor_moments(v@, total_ms),
{
    let mut out: Vec<u32> = Vec::new();
    out.push(0);
    out.push(total_ms);
    let mut i: usize = 0;
    assert(out@ =~= cursor_moments(v@.take(0), total_ms));
    while i < v.len()
        invariant
            i <= v@.len(),
            out@ == cursor_moments(v@.take(i as int), total_ms),
        decreases v@.len() - i,
    {
        assert(v@.take(i + 1).drop_last() =~= v@.take(i as int));
        out.push(v[i].start_ms);
        out.push(v[i].end_ms);
        i = i + 1;
    }
    assert(v@.take(v@.len() as int) =~= v@);
    out
}

fn find_cursor(v: &Vec<CursorRect>, start: u32, end: u32) -> (r: Option<CursorRect>)
    ensures
        r == active_cursor(v@, start, end, 0),
{
    let mut i: usize = 0;
    while i < v.len()
        invariant
            i <= v@.len(),
            active_cursor(v@, start, end, 0) == active_cursor(v@, start, end, i as int),
        decreases v@.len() - i,
    {
        if v[i].start_ms <= start && v[i].end_ms >= end {
            return Some(v[i]);
        }
        i = i + 1;
    }
    None
}

/// What an interval between two moments shows of the cursor.
struct CursorTrack {
    times: Vec<u32>,
    xs: Vec<u32>,
    ys: Vec<u32>,
    shown: Vec<bool>,
}

fn track_cursor(v: &Vec<CursorRect>, b: &Vec<u32>) -> (r: CursorTrack)
    requires
        v@.len() > 0,
        b@.len() > 0,
    ensures
        r.times@ == b@.drop_last(),
        r.xs@ == cursor_xs(v@, b@, (b@.len() - 1) as nat),
        r.ys@ == cursor_ys(v@, b@, (b@.len() - 1) as nat),
        r.shown@ == cursor_shown(v@, b@, (b@.len() - 1) as nat),
{
    let mut times: Vec<u32> = Vec::new();
    let mut xs: Vec<u32> = Vec::new();
    let mut ys: Vec<u32> = Vec::new();
    let mut shown: Vec<bool> = Vec::new();
    let mut last_x: u32 = v[0].x;
    let mut last_y: u32 = v[0].y;
    let n: usize = b.len() - 1;
    let mut k: usize = 0;
    while k < n
        invariant
            v@.len() > 0,
            n == b@.len() - 1,
            k <= n,
            times@ == b@.take(k as int),
            xs@ == cursor_xs(v@, b@, k as nat),
            ys@ == cursor_ys(v@, b@, k as nat),
            shown@ == cursor_shown(v@, b@, k as nat),
            k == 0 ==> last_x == v@[0].x && last_y == v@[0].y,
            k > 0 ==> last_x == cursor_state(v@, b@, k - 1).0 && last_y == cursor_state(
                v@,
                b@,
                k - 1,
            ).1,
        decreases n - k,
    {
        let start: u32 = b[k];
        let end: u32 = b[k + 1];
        let mut visible: bool = false;
        match find_cursor(v, start, end) {
            Some(c) => {
                last_x = c.x;
                last_y = c.y;
                visible = true;
            },
            None => {},
        }
        assert(cursor_state(v@, b@, k as int) == (last_x, last_y, visible));
        times.push(start);
        xs.push(last_x);
        ys.push(last_y);
        shown.push(visible);
        k = k + 1;
        assert(times@ =~= b@.take(k as int));
        assert(xs@ =~= cursor_xs(v@, b@, k as nat));
        assert(ys@ =~= cursor_ys(v@, b@, k as nat));
        assert(shown@ =~= cursor_shown(v@, b@, k as nat));
    }
    assert(b@.take(n as int) =~= b@.drop_last());
    CursorTrack { times, xs, ys, shown }
}

fn split_changes<K: Copy>(c: &Vec<(u32, K)>) -> (r: (Vec<u32>, Vec<K>))
    ensures
        r.0@ == change_times(c@),
        r.1@ == change_values(c@),
{
    let mut times: Vec<u32> = Vec::new();
    let mut values: Vec<K> = Vec::new();
    let mut i: usize = 0;
    while i < c.len()
        invariant
            i <= c@.len(),
            times@.len() == i,
            values@.len() == i,
            forall|k: int| 0 <= k < i ==> times@[k] == c@[k].0,
            forall|k: int| 0 <= k < i ==> values@[k] == c@[k].1,
        decreases c@.len() - i,
    {
        times.push(c[i].0);
        values.push(c[i].1);
        i = i + 1;
    }
    assert(times@ =~= change_times(c@));
    assert(values@ =~= change_values(c@));
    (times, values)
}

fn format_animation(head: &str, values: &str, times: &Vec<u32>, total_ms: u32) -> (out: String)
    ensures
        out@ == timed_animation(head@, values@, times@, total_ms),
{
    let mut out: String = head.to_string();
    out.append(
        format_discrete(
            values,
            format_key_time_list(times, total_ms).as_str(),
            format_time(total_ms).as_str(),
            "t.begin",
        ).as_str(),
    );
    out.append(" fill=\"freeze\"/>");
    out
}

fn format_shown_list(v: &Vec<bool>) -> (out: String)
    ensures
        out@ == shown_text(v@),
{
    let mut parts: Vec<String> = Vec::new();
    let mut i: usize = 0;
    while i < v.len()
        invariant
            i <= v@.len(),
            parts@.len() == i,
            forall|k: int|
                0 <= k < i ==> (#[trigger] parts@[k])@ == text_markup::word(
                    v@[k],
                    "visible"@,
                    "hidden"@,
                ),
        decreases v@.len() - i,
    {
        if v[i] {
            parts.push("visible".to_string());
        } else {
            parts.push("hidden".to_string());
        }
        i = i + 1;
    }
    assert(text::texts(parts@) =~= Seq::new(
        v@.len(),
        |i: int| text_markup::word(v@[i], "visible"@, "hidden"@),
    ));
    join(&parts, ";")
}

fn push_number_animation(
    out: &mut Vec<String>,
    head: &str,
    c: &Vec<(u32, u32)>,
    total_ms: u32,
)
    ensures
        text::texts(final(out)@) == text::texts(old(out)@) + number_animation(
            head@,
            c@,
            total_ms,
        ),
{
    if c.len() != 1 {
        let (times, values) = split_changes(c);
        out.push(
            format_animation(head, format_number_list(&values).as_str(), &times, total_ms),
        );
    }
    assert(text::texts(out@) =~= text::texts(old(out)@) + number_animation(head@, c@, total_ms));
}

fn push_shown_animation(out: &mut Vec<String>, c: &Vec<(u32, bool)>, total_ms: u32)
    ensures
        text::texts(final(out)@) == text::texts(old(out)@) + shown_animation(c@, total_ms),
{
    if c.len() != 1 {
        let (times, values) = split_changes(c);
        out.push(
            format_animation(
                "  <animate attributeName=\"visibility\"",
                format_shown_list(&values).as_str(),
                &times,
                total_ms,
            ),
        );
    }
    assert(text::texts(out@) =~= text::texts(old(out)@) + shown_animation(c@, total_ms));
}

fn fixed_attribute_text(head: &str, c: &Vec<(u32, u32)>) -> (out: String)
    ensures
        out@ == fixed_attribute(head@, c@),
{
    if c.len() == 1 {
        let mut out: String = head.to_string();
        out.append(decimal_text(c[0].1 as u128).as_str());
        out.append("\"");
        out
    } else {
        "".to_string()
    }
}

fn cursor_box_text(key: (u32, u32, Rgb)) -> (out: String)
    ensures
        out@ == cursor_box(key),
{
    let mut out: String = " width=\"".to_string();
    out.append(decimal_text(key.0 as u128).as_str());
    out.append("\" height=\"");
    out.append(decimal_text(key.1 as u128).as_str());
    out.append("\" fill=\"");
    out.append(rgb_hex(key.2).as_str());
    out.append("\" fill-opacity=\"0.7\"");
    out
}

fn serialize_cursor_group(list: &Vec<CursorRect>, key: (u32, u32, Rgb), total_ms: u32) -> (out:
    String)
    requires
        list@.len() > 0,
    ensures
        out@ == cursor_group_svg(list@, key, total_ms),
{
    let moments: Vec<u32> = collect_cursor_moments(list, total_ms);
    proof {
        sort::lemma_distinct_ascending(moments@);
        lemma_cursor_moments_len(list@, total_ms);
    }
    let b: Vec<u32> = sort_distinct(moments);
    let t: CursorTrack = track_cursor(list, &b);
    let size: String = cursor_box_text(key);
    if b.len() == 2 && t.shown[0] {
        let mut out: String = "<rect x=\"".to_string();
        out.append(decimal_text(t.xs[0] as u128).as_str());
        out.append("\" y=\"");
        out.append(decimal_text(t.ys[0] as u128).as_str());
        out.append("\"");
        out.append(size.as_str());
        out.append("/>");
        return out;
    }
    let xs: Vec<(u32, u32)> = simplify_discrete_animation(&t.times, &t.xs);
    let ys: Vec<(u32, u32)> = simplify_discrete_animation(&t.times, &t.ys);
    let shown: Vec<(u32, bool)> = simplify_discrete_animation(&t.times, &t.shown);
    let mut moves: Vec<String> = Vec::new();
    push_number_animation(&mut moves, "  <animate attributeName=\"x\"", &xs, total_ms);
    assert(text::texts(moves@) =~= number_animation(
        "  <animate attributeName=\"x\""@,
        xs@,
        total_ms,
    ));
    push_number_animation(&mut moves, "  <animate attributeName=\"y\"", &ys, total_ms);
    push_shown_animation(&mut moves, &shown, total_ms);
    let mut tail: String = "/>".to_string();
    if moves.len() > 0 {
        tail = ">\n".to_string();
        tail.append(join(&moves, "\n").as_str());
        tail.append("\n</rect>\n");
    }
    let mut out: String = "<rect".to_string();
    out.append(fixed_attribute_text(" x=\"", &xs).as_str());
    out.append(fixed_attribute_text(" y=\"", &ys).as_str());
    out.append(size.as_str());
    out.append(
        if shown.len() == 1 && shown[0].1 {
            ""
        } else {
            " class=\"h\""
        },
    );
    out.append(tail.as_str());
    out
}

proof fn lemma_cursor_moments_len(v: Seq<CursorRect>, total_ms: u32)
    ensures
        cursor_moments(v, total_ms).len() == 2 + 2 * v.len(),
    decreases v.len(),
{
    if v.len() > 0 {
        lemma_cursor_moments_len(v.drop_last(), total_ms);
    }
}

proof fn lemma_key_has_cursor(v: Seq<CursorRect>, k: int)
    requires
        0 <= k < cursor_keys(v).len(),
    ensures
        cursors_like(v, cursor_keys(v)[k]).len() > 0,
    decreases v.len(),
{
    if v.len() > 0 {
        let keys = cursor_keys(v.drop_last());
        if k < keys.len() {
            lemma_key_has_cursor(v.drop_last(), k);
        }
    }
}

/// Every cursor has the size and colour of some group.
pub proof fn lemma_every_cursor_has_group(v: Seq<CursorRect>, i: int)
    requires
        0 <= i < v.len(),
    ensures
        cursor_keys(v).contains(cursor_key(v[i])),
        cursors_like(v, cursor_key(v[i])).contains(v[i]),
    decreases v.len(),
{
    let d = v.drop_last();
    let key = cursor_key(v[i]);
    if i < d.len() {
        lemma_every_cursor_has_group(d, i);
        assert(d[i] == v[i]);
        let j = choose|j: int| 0 <= j < cursor_keys(d).len() && cursor_keys(d)[j] == key;
        assert(cursor_keys(v)[j] == key);
        let m = choose|m: int| 0 <= m < cursors_like(d, key).len() && cursors_like(d, key)[m] == v[i];
        assert(cursors_like(v, key)[m] == v[i]);
    } else {
        let keys = cursor_keys(d);
        if !keys.contains(key) {
            assert(cursor_keys(v)[keys.len() as int] == key);
        }
        assert(cursors_like(v, key).last() == v[i]);
        assert(cursors_like(v, key)[cursors_like(d, key).len() as int] == v[i]);
    }
}

/// The cursors as SVG: one rectangle for each size and colour, moved and hidden
/// by animations.
pub fn serialize_cursor_rects(cursors: &Vec<CursorRect>, total_ms: u32) -> (out: String)
    ensures
        out@ == cursors_svg(cursors@, total_ms),
{
    let keys: Vec<(u32, u32, Rgb)> = collect_keys(cursors);
    let mut out: String = "".to_string();
    let mut i: usize = 0;
    while i < keys.len()
        invariant
            keys@ == cursor_keys(cursors@),
            i <= keys@.len(),
            out@ == cursor_groups(cursors@, keys@, i as int, total_ms),
        decreases keys@.len() - i,
    {
        let group: Vec<CursorRect> = collect_like(cursors, keys[i]);
        proof {
            lemma_key_has_cursor(cursors@, i as int);
            assert(sort::views(group@) =~= group@);
        }
        let list: Vec<CursorRect> = stable_sort::<CursorRect, CursorByStart>(group);
        assert(sort::views(list@) =~= list@);
        out.append(serialize_cursor_group(&list, keys[i], total_ms).as_str());
        i = i + 1;
    }
    out
}

/// The moments at which the mouse changes, behind the begin and the end.
pub open spec fn mouse_moments(v: Seq<MouseSpan>, total_ms: u32) -> Seq<u32>
    decreases v.len(),
{
    if v.len() == 0 {
        seq![0u32, total_ms]
    } else {
        mouse_moments(v.drop_last(), total_ms).push(v.last().start_ms).push(v.last().end_ms)
    }
}

/// The first span, from `i` on, that lasts from `start` to `end`.
pub open spec fn active_mouse(v: Seq<MouseSpan>, start: u32, end: u32, i: int) -> Option<MouseSpan>
    decreases v.len() - i,
{
    if i < 0 || i >= v.len() {
        None
    } else if v[i].start_ms <= start && v[i].end_ms >= end {
        Some(v[i])
    } else {
        active_mouse(v, start, end, i + 1)
    }
}

/// Place of the mouse in the interval `k` between the moments `b`, and its state
/// if it is visible.
pub open spec fn mouse_state(v: Seq<MouseSpan>, b: Seq<u32>, k: int) -> (
    Measure,
    Measure,
    Option<MouseState>,
)
    decreases k,
{
    match active_mouse(v, b[k], b[k + 1], 0) {
        Some(s) => (s.cx, s.cy, Some(s.state)),
        None => if k <= 0 {
            (0, 0, None)
        } else {
            let before = mouse_state(v, b, k - 1);
            (before.0, before.1, None)
        },
    }
}

pub open spec fn mouse_points(v: Seq<MouseSpan>, b: Seq<u32>, n: nat) -> Seq<Seq<char>> {
    Seq::new(
        n,
        |k: int| markup::point_text(mouse_state(v, b, k).0 as int, mouse_state(v, b, k).1 as int),
    )
}

pub open spec fn mouse_shown(v: Seq<MouseSpan>, b: Seq<u32>, n: nat) -> Seq<bool> {
    Seq::new(n, |k: int| mouse_state(v, b, k).2 is Some)
}

pub open spec fn mouse_in_state(v: Seq<MouseSpan>, b: Seq<u32>, n: nat, s: MouseState) -> Seq<
    bool,
> {
    Seq::new(n, |k: int| mouse_state(v, b, k).2 == Some(s))
}

/// The class of something that is not visible all the time.
pub open spec fn hidden_class(c: Seq<(u32, bool)>) -> Seq<Seq<char>> {
    text_markup::piece(!(c.len() == 1 && c[0].1), "class=\"h\""@)
}

/// A ring around the mouse that is visible in one of its states.
pub open spec fn ring(head: Seq<char>, c: Seq<(u32, bool)>, total_ms: u32) -> Seq<char> {
    let class = hidden_class(c);
    let anims = shown_animation(c, total_ms);
    head + (if class.len() == 0 {
        ""@
    } else {
        " "@ + text::joined(class, " "@)
    }) + (if anims.len() == 0 {
        "/>"@
    } else {
        ">\n"@ + text::joined(anims, "\n"@) + "\n</circle>"@
    })
}

/// How large the arrow is: smaller while a button is pressed.
pub open spec fn arrow_scale(pressed: bool) -> Seq<char> {
    text_markup::word(pressed, "0.82"@, "1"@)
}

/// Sizes of the arrow with semicolons between them.
pub open spec fn scales_text(v: Seq<bool>) -> Seq<char> {
    text::joined(Seq::new(v.len(), |i: int| arrow_scale(v[i])), ";"@)
}

/// The arrow, which is compressed while a button is pressed.
pub open spec fn arrow(pressed: Seq<(u32, bool)>, total_ms: u32) -> Seq<char> {
    if pressed.len() == 1 && !pressed[0].1 {
        pointer::polygon()
    } else {
        "<g transform=\"scale("@ + arrow_scale(pressed[0].1) + ")\">"@ + (if pressed.len() == 1 {
            ""@
        } else {
            "\n"@ + timed_animation(
                "  <animateTransform attributeName=\"transform\" type=\"scale\""@,
                scales_text(change_values(pressed)),
                change_times(pressed),
                total_ms,
            ) + "\n  "@
        }) + pointer::polygon() + "</g>"@
    }
}

/// Where the mouse starts, and its visibility, as attributes.
pub open spec fn mouse_attributes(points: Seq<(u32, Seq<char>)>, shown: Seq<(u32, bool)>) -> Seq<
    Seq<char>,
> {
    seq!["transform=\"translate("@ + points[0].1 + ")\""@] + hidden_class(shown)
}

/// The movement of the mouse and its visibility as animations.
pub open spec fn mouse_animations(
    points: Seq<(u32, Seq<char>)>,
    shown: Seq<(u32, bool)>,
    total_ms: u32,
) -> Seq<Seq<char>> {
    text_markup::piece(
        points.len() != 1,
        timed_animation(
            "  <animateTransform attributeName=\"transform\" type=\"translate\""@,
            text::joined(change_values(points), ";"@),
            change_times(points),
            total_ms,
        ),
    ) + shown_animation(shown, total_ms)
}

/// The mouse as SVG: a group that moves, with a ring for a click, a ring for a
/// drag, and the arrow, which is compressed for as long as a click lasts.
pub open spec fn mouse_svg(v: Seq<MouseSpan>, total_ms: u32) -> Seq<char> {
    if v.len() == 0 {
        ""@
    } else {
        let b = sort::distinct_ascending(mouse_moments(v, total_ms));
        let n = (b.len() - 1) as nat;
        let times = b.drop_last();
        let points = optimize::changes(markup::paired(times, mouse_points(v, b, n)));
        let shown = optimize::changes(markup::paired(times, mouse_shown(v, b, n)));
        let click = optimize::changes(
            markup::paired(times, mouse_in_state(v, b, n, MouseState::Clicking)),
        );
        let drag = optimize::changes(
            markup::paired(times, mouse_in_state(v, b, n, MouseState::Dragging)),
        );
        let anims = mouse_animations(points, shown, total_ms);
        "<g "@ + text::joined(mouse_attributes(points, shown), " "@) + ">\n"@ + (if anims.len()
            == 0 {
            ""@
        } else {
            text::joined(anims, "\n"@) + "\n"@
        }) + ring(
            "<circle cx=\"0\" cy=\"0\" r=\"9\" fill=\"#dcdcdc\" fill-opacity=\"0.18\""@,
            click,
            total_ms,
        ) + "\n  "@ + ring(
            "<circle cx=\"0\" cy=\"0\" r=\"12\" fill=\"#dcdcdc\" fill-opacity=\"0.18\""@,
            drag,
            total_ms,
        ) + "\n  "@ + arrow(click, total_ms) + "\n</g>\n"@
    }
}

/// A mouse that stands still.
pub open spec fn still_mouse_svg(s: MouseSpan) -> Seq<char> {
    let click = seq![(0u32, s.state == MouseState::Clicking)];
    let drag = seq![(0u32, s.state == MouseState::Dragging)];
    "<g transform=\"translate("@ + markup::point_text(s.cx as int, s.cy as int) + ")\">\n"@ + ring(
        "<circle cx=\"0\" cy=\"0\" r=\"9\" fill=\"#dcdcdc\" fill-opacity=\"0.18\""@,
        click,
        0,
    ) + "\n  "@ + ring(
        "<circle cx=\"0\" cy=\"0\" r=\"12\" fill=\"#dcdcdc\" fill-opacity=\"0.18\""@,
        drag,
        0,
    ) + "\n  "@ + arrow(click, 0) + "\n</g>\n"@
}

/// The mouse at each of its places.
pub open spec fn still_mice_svg(v: Seq<MouseSpan>) -> Seq<char>
    decreases v.len(),
{
    if v.len() == 0 {
        ""@
    } else {
        still_mice_svg(v.drop_last()) + still_mouse_svg(v.last())
    }
}

fn collect_mouse_moments(v: &Vec<MouseSpan>, total_ms: u32) -> (out: Vec<u32>)
    ensures
        out@ == mouse_moments(v@, total_ms),
{
    let mut out: Vec<u32> = Vec::new();
    out.push(0);
    out.push(total_ms);
    let mut i: usize = 0;
    assert(out@ =~= mouse_moments(v@.take(0), total_ms));
    while i < v.len()
        invariant
            i <= v@.len(),
            out@ == mouse_moments(v@.take(i as int), total_ms),
        decreases v@.len() - i,
    {
        assert(v@.take(i + 1).drop_last() =~= v@.take(i as int));
        out.push(v[i].start_ms);
        out.push(v[i].end_ms);
        i = i + 1;
    }
    assert(v@.take(v@.len() as int) =~= v@);
    out
}

fn find_mouse(v: &Vec<MouseSpan>, start: u32, end: u32) -> (r: Option<MouseSpan>)
    ensures
        r == active_mouse(v@, start, end, 0),
        r matches Some(s) ==> exists|i: int| 0 <= i < v@.len() && #[trigger] v@[i] == s,
{
    let mut i: usize = 0;
    while i < v.len()
        invariant
            i <= v@.len(),
            active_mouse(v@, start, end, 0) == active_mouse(v@, start, end, i as int),
        decreases v@.len() - i,
    {
        if v[i].start_ms <= start && v[i].end_ms >= end {
            let s: MouseSpan = v[i];
            assert(v@[i as int] == s);
            return Some(s);
        }
        i = i + 1;
    }
    None
}

/// What an interval between two moments shows of the mouse.
struct MouseTrack {
    times: Vec<u32>,
    points: Vec<String>,
    shown: Vec<bool>,
    click: Vec<bool>,
    drag: Vec<bool>,
}

/// Whether every place can be printed.
pub open spec fn mouse_printable(v: Seq<MouseSpan>) -> bool {
    forall|i: int|
        0 <= i < v.len() ==> markup::in_range((#[trigger] v[i]).cx as int) && markup::in_range(
            v[i].cy as int,
        )
}

fn track_mouse(v: &Vec<MouseSpan>, b: &Vec<u32>) -> (r: MouseTrack)
    requires
        b@.len() > 0,
        mouse_printable(v@),
    ensures
        r.times@ == b@.drop_last(),
        text::texts(r.points@) == mouse_points(v@, b@, (b@.len() - 1) as nat),
        r.shown@ == mouse_shown(v@, b@, (b@.len() - 1) as nat),
        r.click@ == mouse_in_state(v@, b@, (b@.len() - 1) as nat, MouseState::Clicking),
        r.drag@ == mouse_in_state(v@, b@, (b@.len() - 1) as nat, MouseState::Dragging),
{
    let mut times: Vec<u32> = Vec::new();
    let mut points: Vec<String> = Vec::new();
    let mut shown: Vec<bool> = Vec::new();
    let mut click: Vec<bool> = Vec::new();
    let mut drag: Vec<bool> = Vec::new();
    let mut last_x: Measure = 0;
    let mut last_y: Measure = 0;
    let n: usize = b.len() - 1;
    let mut k: usize = 0;
    assert(text::texts(points@) =~= mouse_points(v@, b@, 0));
    while k < n
        invariant
            mouse_printable(v@),
            n == b@.len() - 1,
            k <= n,
            times@ == b@.take(k as int),
            points@.len() == k,
            text::texts(points@) == mouse_points(v@, b@, k as nat),
            shown@ == mouse_shown(v@, b@, k as nat),
            click@ == mouse_in_state(v@, b@, k as nat, MouseState::Clicking),
            drag@ == mouse_in_state(v@, b@, k as nat, MouseState::Dragging),
            k == 0 ==> last_x == 0 && last_y == 0,
            k > 0 ==> last_x == mouse_state(v@, b@, k - 1).0 && last_y == mouse_state(
                v@,
                b@,
                k - 1,
            ).1,
            markup::in_range(last_x as int),
            markup::in_range(last_y as int),
        decreases n - k,
    {
        let start: u32 = b[k];
        let end: u32 = b[k + 1];
        let mut state: Option<MouseState> = None;
        match find_mouse(v, start, end) {
            Some(s) => {
                last_x = s.cx;
                last_y = s.cy;
                state = Some(s.state);
            },
            None => {},
        }
        assert(mouse_state(v@, b@, k as int) == (last_x, last_y, state));
        let ghost before = text::texts(points@);
        times.push(start);
        points.push(format_point(last_x, last_y));
        shown.push(state.is_some());
        click.push(
            match state {
                Some(MouseState::Clicking) => true,
                _ => false,
            },
        );
        drag.push(
            match state {
                Some(MouseState::Dragging) => true,
                _ => false,
            },
        );
        k = k + 1;
        assert(times@ =~= b@.take(k as int));
        assert forall|j: int| 0 <= j < k implies text::texts(points@)[j] == #[trigger] mouse_points(
            v@,
            b@,
            k as nat,
        )[j] by {
            if j < k - 1 {
                assert(text::texts(points@)[j] == before[j]);
                assert(before[j] == mouse_points(v@, b@, (k - 1) as nat)[j]);
            }
        }
        assert(text::texts(points@) =~= mouse_points(v@, b@, k as nat));
        assert(shown@ =~= mouse_shown(v@, b@, k as nat));
        assert(click@ =~= mouse_in_state(v@, b@, k as nat, MouseState::Clicking));
        assert(drag@ =~= mouse_in_state(v@, b@, k as nat, MouseState::Dragging));
    }
    assert(b@.take(n as int) =~= b@.drop_last());
    MouseTrack { times, points, shown, click, drag }
}

fn hidden_class_list(c: &Vec<(u32, bool)>) -> (out: Vec<String>)
    ensures
        text::texts(out@) == hidden_class(c@),
{
    let mut out: Vec<String> = Vec::new();
    if !(c.len() == 1 && c[0].1) {
        out.push("class=\"h\"".to_string());
    }
    assert(text::texts(out@) =~= hidden_class(c@));
    out
}

fn ring_text(head: &str, c: &Vec<(u32, bool)>, total_ms: u32) -> (out: String)
    ensures
        out@ == ring(head@, c@, total_ms),
{
    let class: Vec<String> = hidden_class_list(c);
    let mut anims: Vec<String> = Vec::new();
    push_shown_animation(&mut anims, c, total_ms);
    assert(text::texts(anims@) =~= shown_animation(c@, total_ms));
    let mut class_text: String = "".to_string();
    if class.len() > 0 {
        class_text = " ".to_string();
        class_text.append(join(&class, " ").as_str());
    }
    let mut tail: String = "/>".to_string();
    if anims.len() > 0 {
        tail = ">\n".to_string();
        tail.append(join(&anims, "\n").as_str());
        tail.append("\n</circle>");
    }
    let mut out: String = head.to_string();
    out.append(class_text.as_str());
    out.append(tail.as_str());
    out
}

fn format_scale_list(v: &Vec<bool>) -> (out: String)
    ensures
        out@ == scales_text(v@),
{
    let mut parts: Vec<String> = Vec::new();
    let mut i: usize = 0;
    while i < v.len()
        invariant
            i <= v@.len(),
            parts@.len() == i,
            forall|k: int| 0 <= k < i ==> (#[trigger] parts@[k])@ == arrow_scale(v@[k]),
        decreases v@.len() - i,
    {
        if v[i] {
            parts.push("0.82".to_string());
        } else {
            parts.push("1".to_string());
        }
        i = i + 1;
    }
    assert(text::texts(parts@) =~= Seq::new(v@.len(), |i: int| arrow_scale(v@[i])));
    join(&parts, ";")
}

fn arrow_text(pressed: &Vec<(u32, bool)>, total_ms: u32) -> (out: String)
    requires
        pressed@.len() > 0,
    ensures
        out@ == arrow(pressed@, total_ms),
{
    if pressed.len() == 1 && !pressed[0].1 {
        return pointer::svg();
    }
    let mut moves: String = "".to_string();
    if pressed.len() != 1 {
        let (times, values) = split_changes(pressed);
        moves = "\n".to_string();
        moves.append(
            format_animation(
                "  <animateTransform attributeName=\"transform\" type=\"scale\"",
                format_scale_list(&values).as_str(),
                &times,
                total_ms,
            ).as_str(),
        );
        moves.append("\n  ");
    }
    let mut out: String = "<g transform=\"scale(".to_string();
    out.append(
        if pressed[0].1 {
            "0.82"
        } else {
            "1"
        },
    );
    out.append(")\">");
    out.append(moves.as_str());
    out.append(pointer::svg().as_str());
    out.append("</g>");
    out
}

fn mouse_animation_list(
    times: &Vec<u32>,
    points: &Vec<String>,
    shown: &Vec<(u32, bool)>,
    total_ms: u32,
) -> (out: Vec<String>)
    requires
        times@.len() == points@.len(),
    ensures
        text::texts(out@) == mouse_animations(
            markup::paired(times@, text::texts(points@)),
            shown@,
            total_ms,
        ),
{
    let mut out: Vec<String> = Vec::new();
    let ghost p = markup::paired(times@, text::texts(points@));
    if points.len() != 1 {
        out.push(
            format_animation(
                "  <animateTransform attributeName=\"transform\" type=\"translate\"",
                join(points, ";").as_str(),
                times,
                total_ms,
            ),
        );
    }
    assert(change_values(p) =~= text::texts(points@));
    assert(change_times(p) =~= times@);
    assert(text::texts(out@) =~= text_markup::piece(
        p.len() != 1,
        timed_animation(
            "  <animateTransform attributeName=\"transform\" type=\"translate\""@,
            text::joined(change_values(p), ";"@),
            change_times(p),
            total_ms,
        ),
    ));
    push_shown_animation(&mut out, shown, total_ms);
    out
}

fn mouse_attribute_text(
    times: &Vec<u32>,
    points: &Vec<String>,
    shown: &Vec<(u32, bool)>,
) -> (out: String)
    requires
        times@.len() == points@.len(),
        points@.len() > 0,
    ensures
        out@ == text::joined(
            mouse_attributes(markup::paired(times@, text::texts(points@)), shown@),
            " "@,
        ),
{
    let mut attrs: Vec<String> = Vec::new();
    let mut place: String = "transform=\"translate(".to_string();
    place.append(points[0].as_str());
    place.append(")\"");
    attrs.push(place);
    let mut class: Vec<String> = hidden_class_list(shown);
    let ghost class_texts = text::texts(class@);
    attrs.append(&mut class);
    assert(text::texts(attrs@) =~= mouse_attributes(
        markup::paired(times@, text::texts(points@)),
        shown@,
    ));
    join(&attrs, " ")
}

/// The mouse as SVG.
pub fn serialize_mouse_elements(mouse_spans: &Vec<MouseSpan>, total_ms: u32) -> (out: String)
    requires
        mouse_printable(mouse_spans@),
        mouse_spans@.len() > 0 ==> sort::distinct_ascending(
            mouse_moments(mouse_spans@, total_ms),
        ).len() >= 2,
    ensures
        out@ == mouse_svg(mouse_spans@, total_ms),
{
    if mouse_spans.len() == 0 {
        return "".to_string();
    }
    let moments: Vec<u32> = collect_mouse_moments(mouse_spans, total_ms);
    let b: Vec<u32> = sort_distinct(moments);
    let t: MouseTrack = track_mouse(mouse_spans, &b);
    let ghost n = (b@.len() - 1) as nat;
    assert(t.points@.len() == text::texts(t.points@).len());
    let (times, points) = simplify_discrete_texts(&t.times, &t.points);
    let ghost p = optimize::changes(
        markup::paired(b@.drop_last(), mouse_points(mouse_spans@, b@, n)),
    );
    proof {
        optimize::lemma_changes_nonempty(
            markup::paired(b@.drop_last(), mouse_points(mouse_spans@, b@, n)),
        );
        assert(markup::paired(times@, text::texts(points@)).len() == points@.len());
    }
    let shown: Vec<(u32, bool)> = simplify_discrete_animation(&t.times, &t.shown);
    let click: Vec<(u32, bool)> = simplify_discrete_animation(&t.times, &t.click);
    let drag: Vec<(u32, bool)> = simplify_discrete_animation(&t.times, &t.drag);
    proof {
        optimize::lemma_changes_nonempty(
            markup::paired(
                b@.drop_last(),
                mouse_in_state(mouse_spans@, b@, n, MouseState::Clicking),
            ),
        );
    }
    let anims: Vec<String> = mouse_animation_list(&times, &points, &shown, total_ms);
    let mut moves: String = "".to_string();
    if anims.len() > 0 {
        moves = join(&anims, "\n");
        moves.append("\n");
    }
    let mut out: String = "<g ".to_string();
    out.append(mouse_attribute_text(&times, &points, &shown).as_str());
    out.append(">\n");
    out.append(moves.as_str());
    out.append(
        ring_text(
            "<circle cx=\"0\" cy=\"0\" r=\"9\" fill=\"#dcdcdc\" fill-opacity=\"0.18\"",
            &click,
            total_ms,
        ).as_str(),
    );
    out.append("\n  ");
    out.append(
        ring_text(
            "<circle cx=\"0\" cy=\"0\" r=\"12\" fill=\"#dcdcdc\" fill-opacity=\"0.18\"",
            &drag,
            total_ms,
        ).as_str(),
    );
    out.append("\n  ");
    out.append(arrow_text(&click, total_ms).as_str());
    out.append("\n</g>\n");
    out
}

/// All cursors, each where it stands.
pub(crate) fn still_cursors_text(v: &Vec<CursorRect>) -> (out: String)
    ensures
        out@ == still_cursors_svg(v@),
{
    let mut out: String = "".to_string();
    let mut i: usize = 0;
    while i < v.len()
        invariant
            i <= v@.len(),
            out@ == still_cursors_svg(v@.take(i as int)),
        decreases v@.len() - i,
    {
        assert(v@.take(i + 1).drop_last() =~= v@.take(i as int));
        let c: CursorRect = v[i];
        let mut one: String = "<rect x=\"".to_string();
        one.append(decimal_text(c.x as u128).as_str());
        one.append("\" y=\"");
        one.append(decimal_text(c.y as u128).as_str());
        one.append("\"");
        one.append(cursor_box_text((c.w, c.h, c.fill)).as_str());
        one.append("/>");
        assert(one@ == still_cursor_svg(v@[i as int]));
        out.append(one.as_str());
        i = i + 1;
    }
    assert(v@.take(v@.len() as int) =~= v@);
    out
}

fn still_mouse_text(s: &MouseSpan) -> (out: String)
    requires
        markup::in_range(s.cx as int),
        markup::in_range(s.cy as int),
    ensures
        out@ == still_mouse_svg(*s),
{
    let clicking: bool = matches!(s.state, MouseState::Clicking);
    let dragging: bool = matches!(s.state, MouseState::Dragging);
    let click: Vec<(u32, bool)> = vec![(0, clicking)];
    let drag: Vec<(u32, bool)> = vec![(0, dragging)];
    assert(click@ =~= seq![(0u32, s.state == MouseState::Clicking)]);
    assert(drag@ =~= seq![(0u32, s.state == MouseState::Dragging)]);
    let mut out: String = "<g transform=\"translate(".to_string();
    out.append(format_point(s.cx, s.cy).as_str());
    out.append(")\">\n");
    out.append(
        ring_text(
            "<circle cx=\"0\" cy=\"0\" r=\"9\" fill=\"#dcdcdc\" fill-opacity=\"0.18\"",
            &click,
            0,
        ).as_str(),
    );
    out.append("\n  ");
    out.append(
        ring_text(
            "<circle cx=\"0\" cy=\"0\" r=\"12\" fill=\"#dcdcdc\" fill-opacity=\"0.18\"",
            &drag,
            0,
        ).as_str(),
    );
    out.append("\n  ");
    out.append(arrow_text(&click, 0).as_str());
    out.append("\n</g>\n");
    out
}

/// The mouse at each of its places.
pub(crate) fn still_mice_text(v: &Vec<MouseSpan>) -> (out: String)
    requires
        mouse_printable(v@),
    ensures
        out@ == still_mice_svg(v@),
{
    let mut out: String = "".to_string();
    let mut i: usize = 0;
    while i < v.len()
        invariant
            mouse_printable(v@),
            i <= v@.len(),
            out@ == still_mice_svg(v@.take(i as int)),
        decreases v@.len() - i,
    {
        assert(v@.take(i + 1).drop_last() =~= v@.take(i as int));
        assert(markup::in_range(v@[i as int].cx as int));
        out.append(still_mouse_text(&v[i]).as_str());
        i = i + 1;
    }
    assert(v@.take(v@.len() as int) =~= v@);
    out
}

} // verus!
