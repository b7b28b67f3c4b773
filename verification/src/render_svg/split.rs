//! Spans of a row that end together are made to begin together as well.
use vstd::prelude::*;
use vstd::string::*;

use crate::render_svg::cells;
use crate::render_svg::cells::{CellSpan, CellSpanView, CellState, CellVisual, CellVisualView, Scene};
use crate::sort;
use crate::sort::{stable_sort, Order};

verus! {

/// Spans by their end.
pub struct SpanByEnd;

impl Order<CellSpan> for SpanByEnd {
    open spec fn leq(a: CellSpanView, b: CellSpanView) -> bool {
        a.end_ms <= b.end_ms
    }

    proof fn total(a: CellSpanView, b: CellSpanView) {
    }

    proof fn transitive(a: CellSpanView, b: CellSpanView, c: CellSpanView) {
    }

    open spec fn fits(a: CellSpanView) -> bool {
        true
    }

    fn le(a: &CellSpan, b: &CellSpan) -> (r: bool) {
        a.end_ms <= b.end_ms
    }
}

/// The spans of one row.
pub open spec fn on_row(s: Seq<CellSpanView>, row: u16) -> Seq<CellSpanView>
    decreases s.len(),
{
    if s.len() == 0 {
        s
    } else if s.last().row == row {
        on_row(s.drop_last(), row).push(s.last())
    } else {
        on_row(s.drop_last(), row)
    }
}

/// The latest begin of the spans that end at `end`.
pub open spec fn latest_start(s: Seq<CellSpanView>, end: u32) -> u32
    decreases s.len(),
{
    if s.len() == 0 {
        0
    } else {
        let m = latest_start(s.drop_last(), end);
        if s.last().end_ms == end && s.last().start_ms > m {
            s.last().start_ms
        } else {
            m
        }
    }
}

/// A span cut at `at`, if it began before.
pub open spec fn cut(s: CellSpanView, at: u32) -> Seq<CellSpanView> {
    if s.start_ms < at {
        seq![CellSpanView { end_ms: at, ..s }, CellSpanView { start_ms: at, ..s }]
    } else {
        seq![s]
    }
}

/// The first `n` spans of `list`, each cut where the last span begins that ends
/// with it.
pub open spec fn cut_upto(list: Seq<CellSpanView>, n: int) -> Seq<CellSpanView>
    decreases n,
{
    if n <= 0 {
        Seq::empty()
    } else {
        cut_upto(list, n - 1) + cut(list[n - 1], latest_start(list, list[n - 1].end_ms))
    }
}

/// The spans of one row, cut.
pub open spec fn cut_row(s: Seq<CellSpanView>, row: u16) -> Seq<CellSpanView> {
    let list = sort::sorted::<CellSpan, SpanByEnd>(on_row(s, row));
    cut_upto(list, list.len() as int)
}

/// The spans of the first `rows` rows, cut.
pub open spec fn cut_rows(s: Seq<CellSpanView>, rows: int) -> Seq<CellSpanView>
    decreases rows,
{
    if rows <= 0 {
        Seq::empty()
    } else {
        cut_rows(s, rows - 1) + cut_row(s, (rows - 1) as u16)
    }
}

impl CellSpan {
    fn copy_with(&self, start_ms: u32, end_ms: u32) -> (r: CellSpan)
        ensures
            r@ == (CellSpanView { start_ms, end_ms, ..self@ }),
    {
        CellSpan {
            row: self.row,
            col: self.col,
            start_ms,
            end_ms,
            visual: CellVisual {
                text: self.visual.text.clone(),
                fg: self.visual.fg,
                bg: self.visual.bg,
                flags: self.visual.flags,
            },
            default_bg: self.default_bg,
        }
    }
}

fn take_row(v: &Vec<CellSpan>, row: u16) -> (out: Vec<CellSpan>)
    ensures
        sort::views(out@) == on_row(sort::views(v@), row),
{
    let ghost all = sort::views(v@);
    let mut out: Vec<CellSpan> = Vec::new();
    let mut i: usize = 0;
    assert(sort::views(out@) =~= on_row(all.take(0), row));
    while i < v.len()
        invariant
            all == sort::views(v@),
            i <= v@.len(),
            sort::views(out@) == on_row(all.take(i as int), row),
        decreases v@.len() - i,
    {
        assert(all.take(i + 1).drop_last() =~= all.take(i as int));
        assert(all.take(i + 1).last() == v@[i as int]@);
        let ghost before = sort::views(out@);
        if v[i].row == row {
            let s: CellSpan = v[i].copy_with(v[i].start_ms, v[i].end_ms);
            assert(s@ =~= v@[i as int]@);
            out.push(s);
            assert(sort::views(out@) =~= before.push(v@[i as int]@));
        }
        i = i + 1;
    }
    assert(all.take(all.len() as int) =~= all);
    out
}

proof fn lemma_latest_none(s: Seq<CellSpanView>, end: u32)
    requires
        forall|i: int| 0 <= i < s.len() ==> (#[trigger] s[i]).end_ms != end,
    ensures
        latest_start(s, end) == 0,
    decreases s.len(),
{
    if s.len() > 0 {
        assert(s[s.len() - 1].end_ms != end);
        assert forall|i: int| 0 <= i < s.drop_last().len() implies (
        #[trigger] s.drop_last()[i]).end_ms != end by {
            assert(s[i].end_ms != end);
        }
        lemma_latest_none(s.drop_last(), end);
    }
}

proof fn lemma_latest_rest(s: Seq<CellSpanView>, n: int, end: u32)
    requires
        0 <= n <= s.len(),
        forall|i: int| n <= i < s.len() ==> (#[trigger] s[i]).end_ms != end,
    ensures
        latest_start(s, end) == latest_start(s.take(n), end),
    decreases s.len(),
{
    if n == s.len() {
        assert(s.take(n) =~= s);
    } else {
        let d = s.drop_last();
        assert(s[s.len() - 1].end_ms != end);
        assert forall|i: int| n <= i < d.len() implies (#[trigger] d[i]).end_ms != end by {
            assert(s[i].end_ms != end);
        }
        lemma_latest_rest(d, n, end);
        assert(d.take(n) =~= s.take(n));
    }
}

fn push_cut(out: &mut Vec<CellSpan>, s: &CellSpan, at: u32)
    ensures
        sort::views(final(out)@) == sort::views(old(out)@) + cut(s@, at),
{
    if s.start_ms < at {
        let a: CellSpan = s.copy_with(s.start_ms, at);
        let b: CellSpan = s.copy_with(at, s.end_ms);
        assert(a@ =~= CellSpanView { end_ms: at, ..s@ });
        assert(b@ =~= CellSpanView { start_ms: at, ..s@ });
        out.push(a);
        out.push(b);
    } else {
        let a: CellSpan = s.copy_with(s.start_ms, s.end_ms);
        assert(a@ =~= s@);
        out.push(a);
    }
    assert(sort::views(out@) =~= sort::views(old(out)@) + cut(s@, at));
}

/// The end of the group that starts at `i`, and the latest begin in it.
fn measure_group(list: &Vec<CellSpan>, i: usize) -> (r: (usize, u32))
    requires
        i < list@.len(),
        sort::is_ordered::<CellSpan, SpanByEnd>(sort::views(list@)),
        forall|k: int| 0 <= k < i ==> (#[trigger] list@[k]).end_ms < list@[i as int].end_ms,
    ensures
        i < r.0 <= list@.len(),
        forall|k: int| i <= k < r.0 ==> (#[trigger] list@[k]).end_ms == list@[i as int].end_ms,
        r.0 < list@.len() ==> forall|k: int|
            0 <= k < r.0 ==> (#[trigger] list@[k]).end_ms < list@[r.0 as int].end_ms,
        r.1 == latest_start(sort::views(list@), list@[i as int].end_ms),
{
    let ghost all = sort::views(list@);
    let end: u32 = list[i].end_ms;
    let mut j: usize = i;
    let mut m: u32 = 0;
    proof {
        assert forall|k: int| 0 <= k < i implies (#[trigger] all.take(i as int)[k]).end_ms
            != end by {
            assert(list@[k].end_ms < list@[i as int].end_ms);
        }
        lemma_latest_none(all.take(i as int), end);
    }
    while j < list.len() && list[j].end_ms == end
        invariant
            all == sort::views(list@),
            i <= j <= list@.len(),
            end == list@[i as int].end_ms,
            forall|k: int| i <= k < j ==> (#[trigger] list@[k]).end_ms == end,
            m == latest_start(all.take(j as int), end),
        decreases list@.len() - j,
    {
        assert(all.take(j + 1).drop_last() =~= all.take(j as int));
        assert(all.take(j + 1).last() == list@[j as int]@);
        if list[j].start_ms > m {
            m = list[j].start_ms;
        }
        j = j + 1;
    }
    proof {
        if j < list@.len() {
            assert(SpanByEnd::leq(all[i as int], all[j as int]));
            assert(list@[j as int].end_ms > end);
            assert forall|k: int| j <= k < all.len() implies (#[trigger] all[k]).end_ms != end by {
                if k > j {
                    assert(SpanByEnd::leq(all[j as int], all[k]));
                }
            }
            assert forall|k: int| 0 <= k < j implies (#[trigger] list@[k]).end_ms
                < list@[j as int].end_ms by {
                if k < i {
                    assert(list@[k].end_ms < list@[i as int].end_ms);
                }
            }
        }
        lemma_latest_rest(all, j as int, end);
    }
    (j, m)
}

fn cut_spans(list: &Vec<CellSpan>, out: &mut Vec<CellSpan>)
    requires
        sort::is_ordered::<CellSpan, SpanByEnd>(sort::views(list@)),
    ensures
        sort::views(final(out)@) == sort::views(old(out)@) + cut_upto(
            sort::views(list@),
            list@.len() as int,
        ),
{
    let ghost all = sort::views(list@);
    let ghost before = sort::views(out@);
    let mut i: usize = 0;
    assert(before + cut_upto(all, 0) =~= before);
    while i < list.len()
        invariant
            all == sort::views(list@),
            sort::is_ordered::<CellSpan, SpanByEnd>(all),
            i <= list@.len(),
            i < list@.len() ==> forall|k: int|
                0 <= k < i ==> (#[trigger] list@[k]).end_ms < list@[i as int].end_ms,
            sort::views(out@) == before + cut_upto(all, i as int),
        decreases list@.len() - i,
    {
        let (j, at) = measure_group(list, i);
        let ghost end = list@[i as int].end_ms;
        let mut k: usize = i;
        while k < j
            invariant
                all == sort::views(list@),
                i <= k <= j <= list@.len(),
                i < list@.len(),
                end == list@[i as int].end_ms,
                at == latest_start(all, end),
                forall|k: int| i <= k < j ==> (#[trigger] list@[k]).end_ms == end,
                sort::views(out@) == before + cut_upto(all, k as int),
            decreases j - k,
        {
            let ghost so_far = sort::views(out@);
            assert(all[k as int] == list@[k as int]@);
            assert(list@[k as int].end_ms == end);
            push_cut(out, &list[k], at);
            assert(sort::views(out@) =~= before + cut_upto(all, k + 1));
            k = k + 1;
        }
        i = j;
    }
}

/// Cuts the spans of each row so that spans that end together begin together.
pub fn split_cell_spans(spans: &Vec<CellSpan>, rows: u16) -> (out: Vec<CellSpan>)
    ensures
        sort::views(out@) == cut_rows(sort::views(spans@), rows as int),
{
    let ghost all = sort::views(spans@);
    let mut out: Vec<CellSpan> = Vec::new();
    let mut r: u16 = 0;
    assert(sort::views(out@) =~= cut_rows(all, 0));
    while r < rows
        invariant
            all == sort::views(spans@),
            r <= rows,
            sort::views(out@) == cut_rows(all, r as int),
        decreases rows - r,
    {
        let row: Vec<CellSpan> = take_row(spans, r);
        let list: Vec<CellSpan> = stable_sort::<CellSpan, SpanByEnd>(row);
        proof {
            sort::lemma_sorted::<CellSpan, SpanByEnd>(on_row(all, r));
            assert(list@.len() == sort::views(list@).len());
        }
        cut_spans(&list, &mut out);
        r = r + 1;
    }
    out
}

/// Whether a span shows the cell `row`, `col` as `v` at the moment `t`.
pub open spec fn span_shows_cell(
    s: CellSpanView,
    t: u32,
    row: u16,
    col: u16,
    v: CellVisualView,
) -> bool {
    s.row == row && s.col == col && s.start_ms <= t < s.end_ms && s.visual == v
}

/// Whether some span shows the cell `row`, `col` as `v` at the moment `t`.
pub open spec fn shows_cell(
    s: Seq<CellSpanView>,
    t: u32,
    row: u16,
    col: u16,
    v: CellVisualView,
) -> bool {
    exists|i: int| 0 <= i < s.len() && span_shows_cell(#[trigger] s[i], t, row, col, v)
}

proof fn lemma_shows_concat(
    a: Seq<CellSpanView>,
    b: Seq<CellSpanView>,
    t: u32,
    row: u16,
    col: u16,
    v: CellVisualView,
)
    ensures
        shows_cell(a + b, t, row, col, v) == (shows_cell(a, t, row, col, v) || shows_cell(
            b,
            t,
            row,
            col,
            v,
        )),
{
    let r = a + b;
    if shows_cell(a, t, row, col, v) {
        let i = choose|i: int| 0 <= i < a.len() && span_shows_cell(#[trigger] a[i], t, row, col, v);
        assert(span_shows_cell(r[i], t, row, col, v));
    }
    if shows_cell(b, t, row, col, v) {
        let i = choose|i: int| 0 <= i < b.len() && span_shows_cell(#[trigger] b[i], t, row, col, v);
        assert(r[a.len() + i] == b[i]);
        assert(span_shows_cell(r[a.len() + i], t, row, col, v));
    }
    if shows_cell(r, t, row, col, v) {
        let i = choose|i: int| 0 <= i < r.len() && span_shows_cell(#[trigger] r[i], t, row, col, v);
        if i < a.len() {
            assert(span_shows_cell(a[i], t, row, col, v));
        } else {
            assert(span_shows_cell(b[i - a.len()], t, row, col, v));
        }
    }
}

proof fn lemma_shows_one(
    s: CellSpanView,
    t: u32,
    row: u16,
    col: u16,
    v: CellVisualView,
)
    ensures
        shows_cell(seq![s], t, row, col, v) == span_shows_cell(s, t, row, col, v),
        !shows_cell(Seq::empty(), t, row, col, v),
{
    assert(seq![s][0] == s);
}

/// Leaving out spans that take no time changes nothing of what is shown.
pub proof fn lemma_lasting_shows(
    s: Seq<CellSpanView>,
    t: u32,
    row: u16,
    col: u16,
    v: CellVisualView,
)
    ensures
        shows_cell(cells::lasting(s), t, row, col, v) == shows_cell(s, t, row, col, v),
        forall|i: int|
            0 <= i < cells::lasting(s).len() ==> (#[trigger] cells::lasting(s)[i]).start_ms
                != cells::lasting(s)[i].end_ms,
    decreases s.len(),
{
    if s.len() > 0 {
        let d = s.drop_last();
        lemma_lasting_shows(d, t, row, col, v);
        lemma_shows_concat(d, seq![s.last()], t, row, col, v);
        lemma_shows_one(s.last(), t, row, col, v);
        assert(d + seq![s.last()] =~= s);
        if s.last().start_ms != s.last().end_ms {
            lemma_shows_concat(cells::lasting(d), seq![s.last()], t, row, col, v);
            assert(cells::lasting(d) + seq![s.last()] =~= cells::lasting(s));
        }
    }
}

proof fn lemma_on_row_shows(
    s: Seq<CellSpanView>,
    r: u16,
    t: u32,
    row: u16,
    col: u16,
    v: CellVisualView,
)
    ensures
        shows_cell(on_row(s, r), t, row, col, v) == (r == row && shows_cell(s, t, row, col, v)),
    decreases s.len(),
{
    if s.len() > 0 {
        let d = s.drop_last();
        lemma_on_row_shows(d, r, t, row, col, v);
        lemma_shows_concat(d, seq![s.last()], t, row, col, v);
        lemma_shows_one(s.last(), t, row, col, v);
        assert(d + seq![s.last()] =~= s);
        if s.last().row == r {
            lemma_shows_concat(on_row(d, r), seq![s.last()], t, row, col, v);
            assert(on_row(d, r) + seq![s.last()] =~= on_row(s, r));
        }
    }
}

proof fn lemma_on_row_items(s: Seq<CellSpanView>, r: u16)
    requires
        forall|i: int| 0 <= i < s.len() ==> (#[trigger] s[i]).start_ms < s[i].end_ms,
    ensures
        forall|i: int|
            0 <= i < on_row(s, r).len() ==> (#[trigger] on_row(s, r)[i]).start_ms < on_row(
                s,
                r,
            )[i].end_ms,
    decreases s.len(),
{
    if s.len() > 0 {
        let d = s.drop_last();
        assert forall|i: int| 0 <= i < d.len() implies (#[trigger] d[i]).start_ms < d[i].end_ms by {
            assert(s[i].start_ms < s[i].end_ms);
        }
        lemma_on_row_items(d, r);
        assert(s[s.len() - 1].start_ms < s[s.len() - 1].end_ms);
        assert forall|i: int| 0 <= i < on_row(s, r).len() implies (
        #[trigger] on_row(s, r)[i]).start_ms < on_row(s, r)[i].end_ms by {
            if i < on_row(d, r).len() {
                assert(on_row(s, r)[i] == on_row(d, r)[i]);
            }
        }
    }
}

proof fn lemma_latest_bound(s: Seq<CellSpanView>, end: u32)
    requires
        forall|i: int| 0 <= i < s.len() ==> (#[trigger] s[i]).start_ms < s[i].end_ms,
        exists|i: int| 0 <= i < s.len() && (#[trigger] s[i]).end_ms == end,
    ensures
        latest_start(s, end) < end,
    decreases s.len(),
{
    let d = s.drop_last();
    assert(s[s.len() - 1].start_ms < s[s.len() - 1].end_ms);
    assert forall|i: int| 0 <= i < d.len() implies (#[trigger] d[i]).start_ms < d[i].end_ms by {
        assert(s[i].start_ms < s[i].end_ms);
    }
    if exists|i: int| 0 <= i < d.len() && (#[trigger] d[i]).end_ms == end {
        lemma_latest_bound(d, end);
    } else {
        lemma_latest_none(d, end);
        let i = choose|i: int| 0 <= i < s.len() && (#[trigger] s[i]).end_ms == end;
        if i < d.len() {
            assert(d[i].end_ms == end);
        }
        assert(s.last().end_ms == end);
    }
}

proof fn lemma_cut_upto(
    list: Seq<CellSpanView>,
    n: int,
    t: u32,
    row: u16,
    col: u16,
    v: CellVisualView,
)
    requires
        0 <= n <= list.len(),
        forall|i: int| 0 <= i < list.len() ==> (#[trigger] list[i]).start_ms < list[i].end_ms,
    ensures
        shows_cell(cut_upto(list, n), t, row, col, v) == shows_cell(
            list.take(n),
            t,
            row,
            col,
            v,
        ),
        forall|i: int|
            0 <= i < cut_upto(list, n).len() ==> (#[trigger] cut_upto(list, n)[i]).start_ms
                < cut_upto(list, n)[i].end_ms,
    decreases n,
{
    if n > 0 {
        lemma_cut_upto(list, n - 1, t, row, col, v);
        let s = list[n - 1];
        let at = latest_start(list, s.end_ms);
        assert(list[n - 1].end_ms == s.end_ms);
        lemma_latest_bound(list, s.end_ms);
        let c = cut(s, at);
        assert(list.take(n) =~= list.take(n - 1) + seq![s]);
        lemma_shows_concat(list.take(n - 1), seq![s], t, row, col, v);
        lemma_shows_one(s, t, row, col, v);
        lemma_shows_concat(cut_upto(list, n - 1), c, t, row, col, v);
        if s.start_ms < at {
            let a = CellSpanView { end_ms: at, ..s };
            let b = CellSpanView { start_ms: at, ..s };
            assert(c =~= seq![a] + seq![b]);
            lemma_shows_concat(seq![a], seq![b], t, row, col, v);
            lemma_shows_one(a, t, row, col, v);
            lemma_shows_one(b, t, row, col, v);
        }
    } else {
        assert(list.take(0) =~= Seq::empty());
    }
}

proof fn lemma_sorted_shows(
    s: Seq<CellSpanView>,
    t: u32,
    row: u16,
    col: u16,
    v: CellVisualView,
)
    ensures
        shows_cell(sort::sorted::<CellSpan, SpanByEnd>(s), t, row, col, v) == shows_cell(
            s,
            t,
            row,
            col,
            v,
        ),
{
    sort::lemma_sorted_same_items::<CellSpan, SpanByEnd>(s);
    let r = sort::sorted::<CellSpan, SpanByEnd>(s);
    if shows_cell(s, t, row, col, v) {
        let i = choose|i: int| 0 <= i < s.len() && span_shows_cell(#[trigger] s[i], t, row, col, v);
        let j = choose|j: int| 0 <= j < s.len() && r[j] == s[i];
        assert(span_shows_cell(r[j], t, row, col, v));
    }
    if shows_cell(r, t, row, col, v) {
        let i = choose|i: int| 0 <= i < r.len() && span_shows_cell(#[trigger] r[i], t, row, col, v);
        let j = choose|j: int| 0 <= j < s.len() && s[j] == r[i];
        assert(span_shows_cell(s[j], t, row, col, v));
    }
}

proof fn lemma_cut_row_shows(
    s: Seq<CellSpanView>,
    r: u16,
    t: u32,
    row: u16,
    col: u16,
    v: CellVisualView,
)
    requires
        forall|i: int| 0 <= i < s.len() ==> (#[trigger] s[i]).start_ms < s[i].end_ms,
    ensures
        shows_cell(cut_row(s, r), t, row, col, v) == (r == row && shows_cell(s, t, row, col, v)),
        forall|i: int|
            0 <= i < cut_row(s, r).len() ==> (#[trigger] cut_row(s, r)[i]).start_ms < cut_row(
                s,
                r,
            )[i].end_ms,
{
    let of_row = on_row(s, r);
    let list = sort::sorted::<CellSpan, SpanByEnd>(of_row);
    lemma_on_row_shows(s, r, t, row, col, v);
    lemma_on_row_items(s, r);
    lemma_sorted_shows(of_row, t, row, col, v);
    assert forall|i: int| 0 <= i < list.len() implies (#[trigger] list[i]).start_ms
        < list[i].end_ms by {
        sort::lemma_sorted_same_items::<CellSpan, SpanByEnd>(of_row);
        let j = choose|j: int| 0 <= j < of_row.len() && of_row[j] == list[i];
        assert(of_row[j].start_ms < of_row[j].end_ms);
    }
    lemma_cut_upto(list, list.len() as int, t, row, col, v);
    assert(list.take(list.len() as int) =~= list);
}

/// Cutting spans keeps what every cell shows at every moment.
pub proof fn lemma_cut_rows_shows(
    s: Seq<CellSpanView>,
    rows: int,
    t: u32,
    row: u16,
    col: u16,
    v: CellVisualView,
)
    requires
        0 <= rows <= 0x1_0000,
        forall|i: int| 0 <= i < s.len() ==> (#[trigger] s[i]).start_ms < s[i].end_ms,
    ensures
        shows_cell(cut_rows(s, rows), t, row, col, v) == (row < rows && shows_cell(
            s,
            t,
            row,
            col,
            v,
        )),
        forall|i: int|
            0 <= i < cut_rows(s, rows).len() ==> (#[trigger] cut_rows(s, rows)[i]).start_ms
                < cut_rows(s, rows)[i].end_ms,
    decreases rows,
{
    if rows > 0 {
        lemma_cut_rows_shows(s, rows - 1, t, row, col, v);
        let r = (rows - 1) as u16;
        lemma_cut_row_shows(s, r, t, row, col, v);
        let a = cut_rows(s, rows - 1);
        let b = cut_row(s, r);
        lemma_shows_concat(a, b, t, row, col, v);
        assert forall|i: int| 0 <= i < (a + b).len() implies (#[trigger] (a + b)[i]).start_ms < (a
            + b)[i].end_ms by {
            if i >= a.len() {
                assert(b[i - a.len()].start_ms < b[i - a.len()].end_ms);
            } else {
                assert(a[i].start_ms < a[i].end_ms);
            }
        }
    }
}

/// Scenes in the order of time, all before the end.
pub open spec fn in_order(scenes: Seq<Scene>, total_ms: u32) -> bool {
    &&& scenes.len() > 0
    &&& forall|i: int, j: int|
        0 <= i <= j < scenes.len() ==> (#[trigger] scenes[i]).t_ms <= (#[trigger] scenes[j]).t_ms
    &&& scenes[scenes.len() - 1].t_ms <= total_ms
}

/// The scene that is on at the moment `t`: the last that has begun.
pub open spec fn is_on(scenes: Seq<Scene>, n: int, t: u32, total_ms: u32) -> bool {
    &&& 0 <= n < scenes.len()
    &&& scenes[n].t_ms <= t < total_ms
    &&& n + 1 < scenes.len() ==> t < scenes[n + 1].t_ms
}

/// Whether the default background never changes.
pub open spec fn one_ground(scenes: Seq<Scene>) -> bool {
    forall|k: int|
        0 <= k < scenes.len() ==> (#[trigger] scenes[k]).default_bg == scenes[0].default_bg
}

/// Whether there is something to see in a cell: text, or a background of its own.
pub open spec fn seen(scenes: Seq<Scene>, v: CellVisualView) -> bool {
    v.text.len() > 0 || (one_ground(scenes) && v.bg != scenes[0].default_bg)
}

proof fn lemma_state_follows(scenes: Seq<Scene>, n: int, i: int)
    requires
        1 <= n <= scenes.len(),
        forall|a: int, b: int|
            0 <= a <= b < scenes.len() ==> (#[trigger] scenes[a]).t_ms <= (
            #[trigger] scenes[b]).t_ms,
    ensures
        cells::state_after(scenes, n, i).visual == scenes[n - 1].visuals[i],
        cells::state_after(scenes, n, i).start_ms <= scenes[n - 1].t_ms,
        one_ground(scenes) ==> cells::state_after(scenes, n, i).default_bg == scenes[0].default_bg,
    decreases n,
{
    if n > 1 {
        lemma_state_follows(scenes, n - 1, i);
        assert(scenes[n - 2].t_ms <= scenes[n - 1].t_ms);
        assert(one_ground(scenes) ==> scenes[n - 1].default_bg == scenes[0].default_bg);
    }
}

/// The spans of the cell `i` alone that the first `n` scenes have ended.
spec fn own_ended(scenes: Seq<Scene>, n: int, i: int, cols: u16) -> Seq<CellSpanView>
    decreases n,
{
    if n <= 1 {
        Seq::empty()
    } else {
        let s = cells::state_after(scenes, n - 1, i);
        own_ended(scenes, n - 1, i, cols) + (if cells::ends_state(s, scenes[n - 1], i) {
            cells::span_of(s, i, cols, scenes[n - 1].t_ms)
        } else {
            Seq::empty()
        })
    }
}

proof fn lemma_place(i: int, j: int, cols: u16, cells_n: int)
    requires
        cols > 0,
        0 <= i < cells_n,
        0 <= j < cells_n,
        cells_n <= cols * 0xffff,
        i / (cols as int) == j / (cols as int),
        i % (cols as int) == j % (cols as int),
    ensures
        i == j,
{
    vstd::arithmetic::div_mod::lemma_fundamental_div_mod(i, cols as int);
    vstd::arithmetic::div_mod::lemma_fundamental_div_mod(j, cols as int);
}

proof fn lemma_place_fits(i: int, cols: u16, cells_n: int)
    requires
        cols > 0,
        0 <= i < cells_n,
        cells_n <= cols * 0xffff,
    ensures
        0 <= i / (cols as int) < 0xffff,
        0 <= i % (cols as int) < cols,
{
    assert(0 <= i / (cols as int) < 0xffff) by (nonlinear_arith)
        requires
            cols > 0,
            0 <= i < cells_n,
            cells_n <= cols * 0xffff,
    ;
    vstd::arithmetic::div_mod::lemma_mod_bound(i, cols as int);
}

/// A span of another cell shows nothing of the cell `i`.
proof fn lemma_other_cell(
    s: CellState,
    i: int,
    j: int,
    cols: u16,
    cells_n: int,
    end: u32,
    t: u32,
    v: CellVisualView,
)
    requires
        cols > 0,
        0 <= i < cells_n,
        0 <= j < cells_n,
        i != j,
        cells_n <= cols * 0xffff,
    ensures
        !shows_cell(
            cells::span_of(s, j, cols, end),
            t,
            (i / cols as int) as u16,
            (i % cols as int) as u16,
            v,
        ),
{
    lemma_place_fits(i, cols, cells_n);
    lemma_place_fits(j, cols, cells_n);
    if i / (cols as int) == j / (cols as int) && i % (cols as int) == j % (cols as int) {
        lemma_place(i, j, cols, cells_n);
    }
}

proof fn lemma_ended_by_shows(
    scenes: Seq<Scene>,
    n: int,
    m: int,
    i: int,
    cols: u16,
    cells_n: int,
    t: u32,
    v: CellVisualView,
)
    requires
        cols > 0,
        0 <= i < cells_n,
        0 <= m <= cells_n,
        cells_n <= cols * 0xffff,
    ensures
        shows_cell(
            cells::ended_by(scenes, n, m, cols),
            t,
            (i / cols as int) as u16,
            (i % cols as int) as u16,
            v,
        ) == (i < m && shows_cell(
            (if cells::ends_state(cells::state_after(scenes, n, i), scenes[n], i) {
                cells::span_of(cells::state_after(scenes, n, i), i, cols, scenes[n].t_ms)
            } else {
                Seq::empty()
            }),
            t,
            (i / cols as int) as u16,
            (i % cols as int) as u16,
            v,
        )),
    decreases m,
{
    if m > 0 {
        let row = (i / cols as int) as u16;
        let col = (i % cols as int) as u16;
        lemma_ended_by_shows(scenes, n, m - 1, i, cols, cells_n, t, v);
        let s = cells::state_after(scenes, n, m - 1);
        let piece = if cells::ends_state(s, scenes[n], m - 1) {
            cells::span_of(s, m - 1, cols, scenes[n].t_ms)
        } else {
            Seq::empty()
        };
        lemma_shows_concat(cells::ended_by(scenes, n, m - 1, cols), piece, t, row, col, v);
        if m - 1 != i {
            lemma_other_cell(s, i, m - 1, cols, cells_n, scenes[n].t_ms, t, v);
        }
    }
}

proof fn lemma_ended_before_shows(
    scenes: Seq<Scene>,
    n: int,
    i: int,
    cols: u16,
    cells_n: int,
    t: u32,
    v: CellVisualView,
)
    requires
        cols > 0,
        0 <= i < cells_n,
        cells_n <= cols * 0xffff,
    ensures
        shows_cell(
            cells::ended_before(scenes, n, cells_n, cols),
            t,
            (i / cols as int) as u16,
            (i % cols as int) as u16,
            v,
        ) == shows_cell(
            own_ended(scenes, n, i, cols),
            t,
            (i / cols as int) as u16,
            (i % cols as int) as u16,
            v,
        ),
    decreases n,
{
    if n > 1 {
        let row = (i / cols as int) as u16;
        let col = (i % cols as int) as u16;
        lemma_ended_before_shows(scenes, n - 1, i, cols, cells_n, t, v);
        lemma_ended_by_shows(scenes, n - 1, cells_n, i, cols, cells_n, t, v);
        lemma_shows_concat(
            cells::ended_before(scenes, n - 1, cells_n, cols),
            cells::ended_by(scenes, n - 1, cells_n, cols),
            t,
            row,
            col,
            v,
        );
        let s = cells::state_after(scenes, n - 1, i);
        let piece = if cells::ends_state(s, scenes[n - 1], i) {
            cells::span_of(s, i, cols, scenes[n - 1].t_ms)
        } else {
            Seq::empty()
        };
        lemma_shows_concat(own_ended(scenes, n - 1, i, cols), piece, t, row, col, v);
    }
}

proof fn lemma_open_shows(
    scenes: Seq<Scene>,
    m: int,
    i: int,
    cols: u16,
    cells_n: int,
    total_ms: u32,
    t: u32,
    v: CellVisualView,
)
    requires
        cols > 0,
        0 <= i < cells_n,
        0 <= m <= cells_n,
        cells_n <= cols * 0xffff,
    ensures
        shows_cell(
            cells::open_spans(scenes, m, cols, total_ms),
            t,
            (i / cols as int) as u16,
            (i % cols as int) as u16,
            v,
        ) == (i < m && shows_cell(
            cells::span_of(
                cells::state_after(scenes, scenes.len() as int, i),
                i,
                cols,
                total_ms,
            ),
            t,
            (i / cols as int) as u16,
            (i % cols as int) as u16,
            v,
        )),
    decreases m,
{
    if m > 0 {
        let row = (i / cols as int) as u16;
        let col = (i % cols as int) as u16;
        lemma_open_shows(scenes, m - 1, i, cols, cells_n, total_ms, t, v);
        let s = cells::state_after(scenes, scenes.len() as int, m - 1);
        lemma_shows_concat(
            cells::open_spans(scenes, m - 1, cols, total_ms),
            cells::span_of(s, m - 1, cols, total_ms),
            t,
            row,
            col,
            v,
        );
        if m - 1 != i {
            lemma_other_cell(s, i, m - 1, cols, cells_n, total_ms, t, v);
        }
    }
}

/// Whether a state that ends at `end` shows the cell as `v` at `t`.
spec fn state_shows(s: CellState, end: u32, t: u32, v: CellVisualView) -> bool {
    s.start_ms <= t < end && s.visual == v && !cells::blank(s.visual, s.default_bg)
}

proof fn lemma_span_of_shows(
    s: CellState,
    i: int,
    cols: u16,
    end: u32,
    t: u32,
    v: CellVisualView,
)
    ensures
        shows_cell(
            cells::span_of(s, i, cols, end),
            t,
            (i / cols as int) as u16,
            (i % cols as int) as u16,
            v,
        ) == state_shows(s, end, t, v),
{
    let row = (i / cols as int) as u16;
    let col = (i % cols as int) as u16;
    let span = CellSpanView {
        row,
        col,
        start_ms: s.start_ms,
        end_ms: end,
        visual: s.visual,
        default_bg: s.default_bg,
    };
    lemma_shows_one(span, t, row, col, v);
}

/// What the spans of a cell show once the first `n` scenes have passed: at a
/// moment before the last of them, what the scene of that moment showed, unless
/// there was nothing to see.
proof fn lemma_own_ended(
    scenes: Seq<Scene>,
    n: int,
    i: int,
    cols: u16,
    t: u32,
    v: CellVisualView,
)
    requires
        1 <= n <= scenes.len(),
        forall|a: int, b: int|
            0 <= a <= b < scenes.len() ==> (#[trigger] scenes[a]).t_ms <= (
            #[trigger] scenes[b]).t_ms,
    ensures
        shows_cell(
            own_ended(scenes, n, i, cols),
            t,
            (i / cols as int) as u16,
            (i % cols as int) as u16,
            v,
        ) ==> t < cells::state_after(scenes, n, i).start_ms,
        forall|k: int|
            0 <= k < n - 1 && scenes[k].t_ms <= t && t < #[trigger] scenes[k + 1].t_ms && t
                < cells::state_after(scenes, n, i).start_ms && seen(scenes, scenes[k].visuals[i])
                ==> (shows_cell(
                own_ended(scenes, n, i, cols),
                t,
                (i / cols as int) as u16,
                (i % cols as int) as u16,
                v,
            ) == (scenes[k].visuals[i] == v)),
        forall|k: int|
            0 <= k < n - 1 && scenes[k].t_ms <= t && t < #[trigger] scenes[k + 1].t_ms && t
                >= cells::state_after(scenes, n, i).start_ms ==> scenes[k].visuals[i]
                == cells::state_after(scenes, n, i).visual,
        forall|k: int|
            0 <= k < n - 1 && scenes[k].t_ms <= t && t < #[trigger] scenes[k + 1].t_ms
                && shows_cell(
                own_ended(scenes, n, i, cols),
                t,
                (i / cols as int) as u16,
                (i % cols as int) as u16,
                v,
            ) ==> scenes[k].visuals[i] == v,
    decreases n,
{
    let row = (i / cols as int) as u16;
    let col = (i % cols as int) as u16;
    if n > 1 {
        lemma_own_ended(scenes, n - 1, i, cols, t, v);
        lemma_state_follows(scenes, n - 1, i);
        let s = cells::state_after(scenes, n - 1, i);
        let now = cells::state_after(scenes, n, i);
        let piece = if cells::ends_state(s, scenes[n - 1], i) {
            cells::span_of(s, i, cols, scenes[n - 1].t_ms)
        } else {
            Seq::empty()
        };
        let old_list = own_ended(scenes, n - 1, i, cols);
        let list = own_ended(scenes, n, i, cols);
        lemma_shows_concat(old_list, piece, t, row, col, v);
        lemma_span_of_shows(s, i, cols, scenes[n - 1].t_ms, t, v);
        assert(scenes[n - 2].t_ms <= scenes[n - 1].t_ms);
        assert(s.visual == scenes[n - 2].visuals[i]);
        assert forall|k: int|
            0 <= k < n - 1 && scenes[k].t_ms <= t && t
                < #[trigger] scenes[k + 1].t_ms implies (t < now.start_ms && seen(
            scenes,
            scenes[k].visuals[i],
        ) ==> (shows_cell(list, t, row, col, v) == (scenes[k].visuals[i] == v))) && (t
            >= now.start_ms ==> scenes[k].visuals[i] == now.visual) && (shows_cell(
            list,
            t,
            row,
            col,
            v,
        ) ==> scenes[k].visuals[i] == v) by {
            if k < n - 2 {
                assert(scenes[k + 1].t_ms <= scenes[n - 2].t_ms);
            } else {
                assert(k == n - 2);
                assert(s.start_ms <= scenes[n - 2].t_ms);
            }
        }
    }
}

/// What is on screen is in the spans: at every moment, the spans show each cell
/// in which there is something to see as the scene of that moment shows it, and
/// show nothing else.
pub proof fn lemma_cell_spans_show(
    scenes: Seq<Scene>,
    n: int,
    i: int,
    cols: u16,
    cells_n: int,
    total_ms: u32,
    t: u32,
    v: CellVisualView,
)
    requires
        in_order(scenes, total_ms),
        is_on(scenes, n, t, total_ms),
        cols > 0,
        0 <= i < cells_n,
        cells_n <= cols * 0xffff,
    ensures
        shows_cell(
            cells::cell_spans(scenes, cells_n, cols, total_ms),
            t,
            (i / cols as int) as u16,
            (i % cols as int) as u16,
            v,
        ) ==> scenes[n].visuals[i] == v,
        scenes[n].visuals[i] == v && seen(scenes, v) ==> shows_cell(
            cells::cell_spans(scenes, cells_n, cols, total_ms),
            t,
            (i / cols as int) as u16,
            (i % cols as int) as u16,
            v,
        ),
{
    let row = (i / cols as int) as u16;
    let col = (i % cols as int) as u16;
    let len = scenes.len() as int;
    let ended = cells::ended_before(scenes, len, cells_n, cols);
    let open = cells::open_spans(scenes, cells_n, cols, total_ms);
    lemma_lasting_shows(ended + open, t, row, col, v);
    lemma_shows_concat(ended, open, t, row, col, v);
    lemma_ended_before_shows(scenes, len, i, cols, cells_n, t, v);
    lemma_open_shows(scenes, cells_n, i, cols, cells_n, total_ms, t, v);
    let s = cells::state_after(scenes, len, i);
    lemma_span_of_shows(s, i, cols, total_ms, t, v);
    lemma_own_ended(scenes, len, i, cols, t, v);
    lemma_state_follows(scenes, len, i);
    if n < len - 1 {
        assert(scenes[n].t_ms <= t && t < scenes[n + 1].t_ms);
    }
}


/// A span that takes time and lies on the grid.
pub open spec fn on_grid(s: CellSpanView, cols: u16, cells_n: int, total_ms: u32) -> bool {
    &&& s.start_ms <= s.end_ms <= total_ms
    &&& s.col < cols
    &&& s.row * cols + s.col < cells_n
}

proof fn lemma_span_of_grid(s: CellState, i: int, cols: u16, cells_n: int, end: u32, total_ms: u32)
    requires
        cols > 0,
        0 <= i < cells_n,
        cells_n <= cols * 0xffff,
        s.start_ms <= end <= total_ms,
    ensures
        forall|k: int|
            0 <= k < cells::span_of(s, i, cols, end).len() ==> on_grid(
                #[trigger] cells::span_of(s, i, cols, end)[k],
                cols,
                cells_n,
                total_ms,
            ),
{
    lemma_place_fits(i, cols, cells_n);
    vstd::arithmetic::div_mod::lemma_fundamental_div_mod(i, cols as int);
    let q = i / (cols as int);
    assert(q * cols == cols * q) by (nonlinear_arith);
}

proof fn lemma_grid_concat(
    a: Seq<CellSpanView>,
    b: Seq<CellSpanView>,
    cols: u16,
    cells_n: int,
    total_ms: u32,
)
    requires
        forall|k: int| 0 <= k < a.len() ==> on_grid(#[trigger] a[k], cols, cells_n, total_ms),
        forall|k: int| 0 <= k < b.len() ==> on_grid(#[trigger] b[k], cols, cells_n, total_ms),
    ensures
        forall|k: int|
            0 <= k < (a + b).len() ==> on_grid(#[trigger] (a + b)[k], cols, cells_n, total_ms),
{
    assert forall|k: int| 0 <= k < (a + b).len() implies on_grid(
        #[trigger] (a + b)[k],
        cols,
        cells_n,
        total_ms,
    ) by {
        if k < a.len() {
            assert(on_grid(a[k], cols, cells_n, total_ms));
        } else {
            assert(on_grid(b[k - a.len()], cols, cells_n, total_ms));
        }
    }
}

proof fn lemma_ended_by_grid(
    scenes: Seq<Scene>,
    n: int,
    m: int,
    cols: u16,
    cells_n: int,
    total_ms: u32,
)
    requires
        in_order(scenes, total_ms),
        1 <= n < scenes.len(),
        cols > 0,
        0 <= m <= cells_n,
        cells_n <= cols * 0xffff,
    ensures
        forall|k: int|
            0 <= k < cells::ended_by(scenes, n, m, cols).len() ==> on_grid(
                #[trigger] cells::ended_by(scenes, n, m, cols)[k],
                cols,
                cells_n,
                total_ms,
            ),
    decreases m,
{
    if m > 0 {
        lemma_ended_by_grid(scenes, n, m - 1, cols, cells_n, total_ms);
        let s = cells::state_after(scenes, n, m - 1);
        lemma_state_follows(scenes, n, m - 1);
        assert(scenes[n - 1].t_ms <= scenes[n].t_ms);
        assert(scenes[n].t_ms <= scenes[scenes.len() - 1].t_ms);
        lemma_span_of_grid(s, m - 1, cols, cells_n, scenes[n].t_ms, total_ms);
        let piece = if cells::ends_state(s, scenes[n], m - 1) {
            cells::span_of(s, m - 1, cols, scenes[n].t_ms)
        } else {
            Seq::empty()
        };
        lemma_grid_concat(
            cells::ended_by(scenes, n, m - 1, cols),
            piece,
            cols,
            cells_n,
            total_ms,
        );
    }
}

proof fn lemma_ended_before_grid(
    scenes: Seq<Scene>,
    n: int,
    cols: u16,
    cells_n: int,
    total_ms: u32,
)
    requires
        in_order(scenes, total_ms),
        1 <= n <= scenes.len(),
        cols > 0,
        0 <= cells_n <= cols * 0xffff,
    ensures
        forall|k: int|
            0 <= k < cells::ended_before(scenes, n, cells_n, cols).len() ==> on_grid(
                #[trigger] cells::ended_before(scenes, n, cells_n, cols)[k],
                cols,
                cells_n,
                total_ms,
            ),
    decreases n,
{
    if n > 1 {
        lemma_ended_before_grid(scenes, n - 1, cols, cells_n, total_ms);
        lemma_ended_by_grid(scenes, n - 1, cells_n, cols, cells_n, total_ms);
        lemma_grid_concat(
            cells::ended_before(scenes, n - 1, cells_n, cols),
            cells::ended_by(scenes, n - 1, cells_n, cols),
            cols,
            cells_n,
            total_ms,
        );
    }
}

proof fn lemma_open_grid(scenes: Seq<Scene>, m: int, cols: u16, cells_n: int, total_ms: u32)
    requires
        in_order(scenes, total_ms),
        cols > 0,
        0 <= m <= cells_n,
        cells_n <= cols * 0xffff,
    ensures
        forall|k: int|
            0 <= k < cells::open_spans(scenes, m, cols, total_ms).len() ==> on_grid(
                #[trigger] cells::open_spans(scenes, m, cols, total_ms)[k],
                cols,
                cells_n,
                total_ms,
            ),
    decreases m,
{
    if m > 0 {
        let len = scenes.len() as int;
        lemma_open_grid(scenes, m - 1, cols, cells_n, total_ms);
        lemma_state_follows(scenes, len, m - 1);
        let s = cells::state_after(scenes, len, m - 1);
        lemma_span_of_grid(s, m - 1, cols, cells_n, total_ms, total_ms);
        lemma_grid_concat(
            cells::open_spans(scenes, m - 1, cols, total_ms),
            cells::span_of(s, m - 1, cols, total_ms),
            cols,
            cells_n,
            total_ms,
        );
    }
}

proof fn lemma_lasting_items(s: Seq<CellSpanView>, k: int)
    requires
        0 <= k < cells::lasting(s).len(),
    ensures
        exists|j: int| 0 <= j < s.len() && #[trigger] s[j] == cells::lasting(s)[k],
        cells::lasting(s)[k].start_ms != cells::lasting(s)[k].end_ms,
    decreases s.len(),
{
    if s.len() > 0 {
        let d = s.drop_last();
        if k < cells::lasting(d).len() {
            lemma_lasting_items(d, k);
            let j = choose|j: int| 0 <= j < d.len() && #[trigger] d[j] == cells::lasting(d)[k];
            assert(s[j] == d[j]);
        } else {
            assert(s[s.len() - 1] == cells::lasting(s)[k]);
        }
    }
}

/// Every span takes some time, within that of the recording, and lies on the
/// grid.
pub proof fn lemma_cell_spans_on_grid(
    scenes: Seq<Scene>,
    cols: u16,
    cells_n: int,
    total_ms: u32,
)
    requires
        in_order(scenes, total_ms),
        cols > 0,
        0 <= cells_n <= cols * 0xffff,
    ensures
        forall|k: int|
            0 <= k < cells::cell_spans(scenes, cells_n, cols, total_ms).len() ==> on_grid(
                #[trigger] cells::cell_spans(scenes, cells_n, cols, total_ms)[k],
                cols,
                cells_n,
                total_ms,
            ) && cells::cell_spans(scenes, cells_n, cols, total_ms)[k].start_ms < cells::cell_spans(
                scenes,
                cells_n,
                cols,
                total_ms,
            )[k].end_ms,
{
    let len = scenes.len() as int;
    let ended = cells::ended_before(scenes, len, cells_n, cols);
    let open = cells::open_spans(scenes, cells_n, cols, total_ms);
    lemma_ended_before_grid(scenes, len, cols, cells_n, total_ms);
    lemma_open_grid(scenes, cells_n, cols, cells_n, total_ms);
    lemma_grid_concat(ended, open, cols, cells_n, total_ms);
    let all = cells::cell_spans(scenes, cells_n, cols, total_ms);
    assert forall|k: int| 0 <= k < all.len() implies on_grid(
        #[trigger] all[k],
        cols,
        cells_n,
        total_ms,
    ) && all[k].start_ms < all[k].end_ms by {
        lemma_lasting_items(ended + open, k);
        let j = choose|j: int|
            0 <= j < (ended + open).len() && #[trigger] (ended + open)[j] == all[k];
        assert(on_grid((ended + open)[j], cols, cells_n, total_ms));
    }
}

proof fn lemma_cut_upto_grid(
    list: Seq<CellSpanView>,
    n: int,
    cols: u16,
    cells_n: int,
    total_ms: u32,
)
    requires
        0 <= n <= list.len(),
        forall|i: int|
            0 <= i < list.len() ==> on_grid(#[trigger] list[i], cols, cells_n, total_ms)
                && list[i].start_ms < list[i].end_ms,
    ensures
        forall|i: int|
            0 <= i < cut_upto(list, n).len() ==> on_grid(
                #[trigger] cut_upto(list, n)[i],
                cols,
                cells_n,
                total_ms,
            ),
    decreases n,
{
    if n > 0 {
        lemma_cut_upto_grid(list, n - 1, cols, cells_n, total_ms);
        let s = list[n - 1];
        assert(on_grid(list[n - 1], cols, cells_n, total_ms));
        lemma_latest_bound(list, s.end_ms);
        lemma_grid_concat(
            cut_upto(list, n - 1),
            cut(s, latest_start(list, s.end_ms)),
            cols,
            cells_n,
            total_ms,
        );
    }
}

/// The spans of a row are spans of the list.
pub proof fn lemma_on_row_subset(s: Seq<CellSpanView>, r: u16, k: int)
    requires
        0 <= k < on_row(s, r).len(),
    ensures
        exists|j: int| 0 <= j < s.len() && #[trigger] s[j] == on_row(s, r)[k],
    decreases s.len(),
{
    if s.len() > 0 {
        let d = s.drop_last();
        if k < on_row(d, r).len() {
            lemma_on_row_subset(d, r, k);
            let j = choose|j: int| 0 <= j < d.len() && #[trigger] d[j] == on_row(d, r)[k];
            assert(s[j] == d[j]);
        } else {
            assert(s[s.len() - 1] == on_row(s, r)[k]);
        }
    }
}

/// Cutting leaves spans on the grid.
pub proof fn lemma_cut_rows_on_grid(
    s: Seq<CellSpanView>,
    rows: int,
    cols: u16,
    cells_n: int,
    total_ms: u32,
)
    requires
        0 <= rows <= 0x1_0000,
        forall|i: int|
            0 <= i < s.len() ==> on_grid(#[trigger] s[i], cols, cells_n, total_ms) && s[i].start_ms
                < s[i].end_ms,
    ensures
        forall|i: int|
            0 <= i < cut_rows(s, rows).len() ==> on_grid(
                #[trigger] cut_rows(s, rows)[i],
                cols,
                cells_n,
                total_ms,
            ),
    decreases rows,
{
    if rows > 0 {
        lemma_cut_rows_on_grid(s, rows - 1, cols, cells_n, total_ms);
        let r = (rows - 1) as u16;
        let of_row = on_row(s, r);
        let list = sort::sorted::<CellSpan, SpanByEnd>(of_row);
        sort::lemma_sorted_same_items::<CellSpan, SpanByEnd>(of_row);
        assert forall|i: int| 0 <= i < list.len() implies on_grid(
            #[trigger] list[i],
            cols,
            cells_n,
            total_ms,
        ) && list[i].start_ms < list[i].end_ms by {
            let j = choose|j: int| 0 <= j < of_row.len() && of_row[j] == list[i];
            lemma_on_row_subset(s, r, j);
            let m = choose|m: int| 0 <= m < s.len() && #[trigger] s[m] == of_row[j];
            assert(on_grid(s[m], cols, cells_n, total_ms));
        }
        lemma_cut_upto_grid(list, list.len() as int, cols, cells_n, total_ms);
        lemma_grid_concat(cut_rows(s, rows - 1), cut_row(s, r), cols, cells_n, total_ms);
    }
}

} // verus!
