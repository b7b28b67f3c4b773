//! Elements that stand still: a screenshot shows everything at once.
use vstd::prelude::*;
use vstd::string::*;

use crate::render_svg::elements::{
    BgRect, BgRectView, TSpan, TSpanView, TextElement, TextElementView,
};
use crate::render_svg::text_markup;
use crate::single::Measure;
use crate::sort;

verus! {

/// A rectangle that is visible all the time and does not move.
pub open spec fn still_rect(r: BgRectView) -> BgRectView {
    BgRectView { start_ms: 0, end_ms: u32::MAX, y_animation: None, ..r }
}

pub open spec fn still_rects(v: Seq<BgRectView>) -> Seq<BgRectView> {
    Seq::new(v.len(), |i: int| still_rect(v[i]))
}

/// A run that is visible all the time and keeps its style.
pub open spec fn still_span(s: TSpanView) -> TSpanView {
    TSpanView {
        start_ms: 0,
        end_ms: u32::MAX,
        style_animations: Seq::empty(),
        style_history: Seq::empty(),
        ..s
    }
}

pub open spec fn still_spans(v: Seq<TSpanView>) -> Seq<TSpanView> {
    Seq::new(v.len(), |i: int| still_span(v[i]))
}

/// A row that is visible all the time and does not move, nor change its runs.
pub open spec fn still_row(e: TextElementView) -> TextElementView {
    TextElementView {
        y: e.y,
        y_animation: None,
        start_ms: 0,
        end_ms: u32::MAX,
        tspans: still_spans(e.tspans),
    }
}

pub open spec fn still_rows(v: Seq<TextElementView>) -> Seq<TextElementView> {
    Seq::new(v.len(), |i: int| still_row(v[i]))
}

/// A row that can be printed can also be printed at rest.
pub proof fn lemma_still_row_printable(e: TextElementView)
    requires
        text_markup::row_printable(e),
    ensures
        text_markup::row_printable(still_row(e)),
{
    let r = still_row(e);
    assert forall|i: int| 0 <= i < r.tspans.len() implies text_markup::span_printable(
        #[trigger] r.tspans[i],
    ) && (r.tspans[i].is_box ==> text_markup::box_printable(
        r.tspans[i],
        r.y,
        r.y_animation,
    )) by {
        assert(text_markup::span_printable(e.tspans[i]));
        assert(r.tspans[i].x_coords == e.tspans[i].x_coords);
    }
}

fn freeze_rect(r: &BgRect) -> (out: BgRect)
    ensures
        out@ == still_rect(r@),
{
    let clip: Option<String> = match &r.clip_path {
        Some(p) => Some(p.clone()),
        None => None,
    };
    BgRect {
        x: r.x,
        y: r.y,
        w: r.w,
        h: r.h,
        fill: r.fill,
        start_ms: 0,
        end_ms: u32::MAX,
        clip_path: clip,
        y_animation: None,
    }
}

/// The rectangles at rest.
pub(crate) fn freeze_rects(v: &Vec<BgRect>) -> (out: Vec<BgRect>)
    ensures
        sort::views(out@) == still_rects(sort::views(v@)),
{
    let mut out: Vec<BgRect> = Vec::new();
    let mut i: usize = 0;
    while i < v.len()
        invariant
            i <= v@.len(),
            out@.len() == i,
            forall|k: int| 0 <= k < i ==> (#[trigger] out@[k])@ == still_rect(v@[k]@),
        decreases v@.len() - i,
    {
        out.push(freeze_rect(&v[i]));
        i = i + 1;
    }
    assert(sort::views(out@) =~= still_rects(sort::views(v@)));
    out
}

fn copy_places(x: &Vec<Measure>) -> (out: Vec<Measure>)
    ensures
        out@ == x@,
{
    let mut out: Vec<Measure> = Vec::new();
    let mut i: usize = 0;
    while i < x.len()
        invariant
            i <= x@.len(),
            out@ == x@.take(i as int),
        decreases x@.len() - i,
    {
        out.push(x[i]);
        i = i + 1;
        assert(out@ =~= x@.take(i as int));
    }
    assert(x@.take(x@.len() as int) =~= x@);
    out
}

fn freeze_span(s: &TSpan) -> (out: TSpan)
    ensures
        out@ == still_span(s@),
{
    let out: TSpan = TSpan {
        x_coords: copy_places(&s.x_coords),
        text: s.text.clone(),
        fg: s.fg,
        bold: s.bold,
        italic: s.italic,
        underline: s.underline,
        strikethrough: s.strikethrough,
        is_box: s.is_box,
        scale_y: s.scale_y,
        cell_center_y_offset: s.cell_center_y_offset,
        char_center_y_offset: s.char_center_y_offset,
        cell_w: s.cell_w,
        cell_h: s.cell_h,
        baseline: s.baseline,
        letter_spacing: s.letter_spacing,
        start_ms: 0,
        end_ms: u32::MAX,
        style_animations: Vec::new(),
        style_history: Vec::new(),
    };
    assert(out@ =~= still_span(s@));
    out
}

fn freeze_row(e: &TextElement) -> (out: TextElement)
    ensures
        out@ == still_row(e@),
{
    let mut tspans: Vec<TSpan> = Vec::new();
    let mut i: usize = 0;
    while i < e.tspans.len()
        invariant
            i <= e.tspans@.len(),
            tspans@.len() == i,
            forall|k: int| 0 <= k < i ==> (#[trigger] tspans@[k])@ == still_span(e.tspans@[k]@),
        decreases e.tspans@.len() - i,
    {
        tspans.push(freeze_span(&e.tspans[i]));
        i = i + 1;
    }
    let out: TextElement = TextElement {
        y: e.y,
        y_animation: None,
        start_ms: 0,
        end_ms: u32::MAX,
        tspans,
    };
    assert(out@ =~= still_row(e@));
    out
}

/// The rows at rest.
pub(crate) fn freeze_rows(v: &Vec<TextElement>) -> (out: Vec<TextElement>)
    ensures
        sort::views(out@) == still_rows(sort::views(v@)),
{
    let mut out: Vec<TextElement> = Vec::new();
    let mut i: usize = 0;
    while i < v.len()
        invariant
            i <= v@.len(),
            out@.len() == i,
            forall|k: int| 0 <= k < i ==> (#[trigger] out@[k])@ == still_row(v@[k]@),
        decreases v@.len() - i,
    {
        out.push(freeze_row(&v[i]));
        i = i + 1;
    }
    assert(sort::views(out@) =~= still_rows(sort::views(v@)));
    out
}

} // verus!
