//! The elements an SVG document is made of, and what is visible of them at a
//! given moment.
use vstd::prelude::*;
use vstd::string::*;

use crate::recording::MouseState;
use crate::single::Measure;
use crate::sort;
use crate::style::{same_rgb, Rgb};
use crate::text::same_text;

verus! {

/// A time span during which the mouse rests at one place in one state.
#[derive(Clone, Copy, Debug)]
pub struct MouseSpan {
    pub cx: Measure,
    pub cy: Measure,
    pub state: MouseState,
    pub start_ms: u32,
    pub end_ms: u32,
}

/// The style a text has from `start_ms` on.
#[derive(Clone, Copy, Debug, PartialEq)]
pub struct StyleKeyframe {
    pub start_ms: u32,
    pub fg: Rgb,
    pub bold: bool,
    pub italic: bool,
    pub underline: bool,
    pub strikethrough: bool,
}

/// A property of a text with the moments from which it has each value.
#[derive(Clone, Debug, PartialEq)]
pub enum AnimatedProperty {
    Fg(Vec<(u32, Rgb)>),
    FontWeight(Vec<(u32, bool)>),
    FontStyle(Vec<(u32, bool)>),
    TextDecoration(Vec<(u32, (bool, bool))>),
}

pub enum AnimatedPropertyView {
    Fg(Seq<(u32, Rgb)>),
    FontWeight(Seq<(u32, bool)>),
    FontStyle(Seq<(u32, bool)>),
    TextDecoration(Seq<(u32, (bool, bool))>),
}

impl View for AnimatedProperty {
    type V = AnimatedPropertyView;

    open spec fn view(&self) -> AnimatedPropertyView {
        match self {
            AnimatedProperty::Fg(kf) => AnimatedPropertyView::Fg(kf@),
            AnimatedProperty::FontWeight(kf) => AnimatedPropertyView::FontWeight(kf@),
            AnimatedProperty::FontStyle(kf) => AnimatedPropertyView::FontStyle(kf@),
            AnimatedProperty::TextDecoration(kf) => AnimatedPropertyView::TextDecoration(kf@),
        }
    }
}

/// An animation of one property.
#[derive(Clone, Debug, PartialEq)]
pub struct StyleAnimation {
    pub begin_ms: u32,
    pub dur_ms: u32,
    pub property: AnimatedProperty,
}

pub struct StyleAnimationView {
    pub begin_ms: u32,
    pub dur_ms: u32,
    pub property: AnimatedPropertyView,
}

impl View for StyleAnimation {
    type V = StyleAnimationView;

    open spec fn view(&self) -> StyleAnimationView {
        StyleAnimationView {
            begin_ms: self.begin_ms,
            dur_ms: self.dur_ms,
            property: self.property@,
        }
    }
}

/// A run of characters with one place for each and one style.
#[derive(Clone, Debug, PartialEq)]
pub struct TSpan {
    pub x_coords: Vec<Measure>,
    pub text: String,
    pub fg: Rgb,
    pub bold: bool,
    pub italic: bool,
    pub underline: bool,
    pub strikethrough: bool,
    pub is_box: bool,
    pub scale_y: Measure,
    pub cell_center_y_offset: Measure,
    pub char_center_y_offset: Measure,
    pub cell_w: u32,
    pub cell_h: u32,
    pub baseline: u32,
    pub letter_spacing: Measure,
    pub start_ms: u32,
    pub end_ms: u32,
    pub style_animations: Vec<StyleAnimation>,
    pub style_history: Vec<StyleKeyframe>,
}

#[verifier::ext_equal]
pub struct TSpanView {
    pub x_coords: Seq<Measure>,
    pub text: Seq<char>,
    pub fg: Rgb,
    pub bold: bool,
    pub italic: bool,
    pub underline: bool,
    pub strikethrough: bool,
    pub is_box: bool,
    pub scale_y: Measure,
    pub cell_center_y_offset: Measure,
    pub char_center_y_offset: Measure,
    pub cell_w: u32,
    pub cell_h: u32,
    pub baseline: u32,
    pub letter_spacing: Measure,
    pub start_ms: u32,
    pub end_ms: u32,
    pub style_animations: Seq<StyleAnimationView>,
    pub style_history: Seq<StyleKeyframe>,
}

impl View for TSpan {
    type V = TSpanView;

    open spec fn view(&self) -> TSpanView {
        TSpanView {
            x_coords: self.x_coords@,
            text: self.text@,
            fg: self.fg,
            bold: self.bold,
            italic: self.italic,
            underline: self.underline,
            strikethrough: self.strikethrough,
            is_box: self.is_box,
            scale_y: self.scale_y,
            cell_center_y_offset: self.cell_center_y_offset,
            char_center_y_offset: self.char_center_y_offset,
            cell_w: self.cell_w,
            cell_h: self.cell_h,
            baseline: self.baseline,
            letter_spacing: self.letter_spacing,
            start_ms: self.start_ms,
            end_ms: self.end_ms,
            style_animations: sort::views(self.style_animations@),
            style_history: self.style_history@,
        }
    }
}

/// How an element moves: the rows it stands at, each from its moment on.
#[derive(Clone, Debug, PartialEq)]
pub struct YAnimation {
    pub begin_ms: u32,
    /// Row and the moment from which the element stands there.
    pub segments: Vec<(u32, u32)>,
    pub dur_ms: u32,
}

#[verifier::ext_equal]
pub struct YAnimationView {
    pub begin_ms: u32,
    pub segments: Seq<(u32, u32)>,
    pub dur_ms: u32,
}

impl View for YAnimation {
    type V = YAnimationView;

    open spec fn view(&self) -> YAnimationView {
        YAnimationView {
            begin_ms: self.begin_ms,
            segments: self.segments@,
            dur_ms: self.dur_ms,
        }
    }
}

pub open spec fn motion(a: Option<YAnimation>) -> Option<YAnimationView> {
    match a {
        Some(y) => Some(y@),
        None => None,
    }
}

/// Whether two motions are the same.
pub fn same_motion(a: &Option<YAnimation>, b: &Option<YAnimation>) -> (r: bool)
    ensures
        r == (motion(*a) == motion(*b)),
{
    match (a, b) {
        (None, None) => true,
        (Some(x), Some(y)) => {
            if x.begin_ms != y.begin_ms || x.dur_ms != y.dur_ms || x.segments.len()
                != y.segments.len() {
                return false;
            }
            let mut i: usize = 0;
            while i < x.segments.len()
                invariant
                    x.segments@.len() == y.segments@.len(),
                    i <= x.segments@.len(),
                    forall|k: int| 0 <= k < i ==> x.segments@[k] == y.segments@[k],
                    motion(*a) == Some(x@),
                    motion(*b) == Some(y@),
                decreases x.segments@.len() - i,
            {
                if x.segments[i].0 != y.segments[i].0 || x.segments[i].1 != y.segments[i].1 {
                    return false;
                }
                i = i + 1;
            }
            assert(x.segments@ =~= y.segments@);
            true
        },
        _ => false,
    }
}

/// A row of text.
#[derive(Clone, Debug, PartialEq)]
pub struct TextElement {
    pub y: u32,
    pub y_animation: Option<YAnimation>,
    pub start_ms: u32,
    pub end_ms: u32,
    pub tspans: Vec<TSpan>,
}

#[verifier::ext_equal]
pub struct TextElementView {
    pub y: u32,
    pub y_animation: Option<YAnimationView>,
    pub start_ms: u32,
    pub end_ms: u32,
    pub tspans: Seq<TSpanView>,
}

impl View for TextElement {
    type V = TextElementView;

    open spec fn view(&self) -> TextElementView {
        TextElementView {
            y: self.y,
            y_animation: motion(self.y_animation),
            start_ms: self.start_ms,
            end_ms: self.end_ms,
            tspans: sort::views(self.tspans@),
        }
    }
}

/// A filled background rectangle.
#[derive(Clone, Debug, PartialEq)]
pub struct BgRect {
    pub x: u32,
    pub y: u32,
    pub w: u32,
    pub h: u32,
    pub fill: Rgb,
    pub start_ms: u32,
    pub end_ms: u32,
    pub clip_path: Option<String>,
    pub y_animation: Option<YAnimation>,
}

#[verifier::ext_equal]
pub struct BgRectView {
    pub x: u32,
    pub y: u32,
    pub w: u32,
    pub h: u32,
    pub fill: Rgb,
    pub start_ms: u32,
    pub end_ms: u32,
    pub clip_path: Option<Seq<char>>,
    pub y_animation: Option<YAnimationView>,
}

pub open spec fn clip_text(c: Option<String>) -> Option<Seq<char>> {
    match c {
        Some(s) => Some(s@),
        None => None,
    }
}

impl View for BgRect {
    type V = BgRectView;

    open spec fn view(&self) -> BgRectView {
        BgRectView {
            x: self.x,
            y: self.y,
            w: self.w,
            h: self.h,
            fill: self.fill,
            start_ms: self.start_ms,
            end_ms: self.end_ms,
            clip_path: clip_text(self.clip_path),
            y_animation: motion(self.y_animation),
        }
    }
}

/// Whether two optional texts are the same.
pub fn same_optional_text(a: &Option<String>, b: &Option<String>) -> (r: bool)
    ensures
        r == (clip_text(*a) == clip_text(*b)),
{
    match (a, b) {
        (None, None) => true,
        (Some(x), Some(y)) => same_text(x.as_str(), y.as_str()),
        _ => false,
    }
}

/// The cursor, resting at one place.
#[derive(Clone, Copy, Debug, PartialEq)]
pub struct CursorRect {
    pub x: u32,
    pub y: u32,
    pub w: u32,
    pub h: u32,
    pub fill: Rgb,
    pub start_ms: u32,
    pub end_ms: u32,
}

/// A dot of the window bar.
#[derive(Clone, Copy, Debug, PartialEq)]
pub struct WindowBarCircle {
    pub cx: u32,
    pub cy: u32,
    pub r: u32,
    pub fill: Option<Rgb>,
    pub stroke: Option<Rgb>,
}

/// A title and the time during which the window shows it.
#[derive(Debug, Clone)]
pub struct TitleSegment {
    pub title: String,
    pub start_ms: u32,
    pub end_ms: u32,
}

pub struct TitleSegmentView {
    pub title: Seq<char>,
    pub start_ms: u32,
    pub end_ms: u32,
}

impl View for TitleSegment {
    type V = TitleSegmentView;

    open spec fn view(&self) -> TitleSegmentView {
        TitleSegmentView { title: self.title@, start_ms: self.start_ms, end_ms: self.end_ms }
    }
}

/// The look of a character.
pub struct Look {
    pub fg: Rgb,
    pub bold: bool,
    pub italic: bool,
    pub underline: bool,
    pub strikethrough: bool,
}

pub open spec fn keyframe_look(k: StyleKeyframe) -> Look {
    Look {
        fg: k.fg,
        bold: k.bold,
        italic: k.italic,
        underline: k.underline,
        strikethrough: k.strikethrough,
    }
}

pub open spec fn base_look(s: TSpanView) -> Look {
    Look {
        fg: s.fg,
        bold: s.bold,
        italic: s.italic,
        underline: s.underline,
        strikethrough: s.strikethrough,
    }
}

/// The style of the last keyframe that has begun at `t`; of the first one, if
/// none has.
pub open spec fn history_look(h: Seq<StyleKeyframe>, t: u32) -> Look
    decreases h.len(),
{
    if h.len() <= 1 || h.last().start_ms <= t {
        keyframe_look(h.last())
    } else {
        history_look(h.drop_last(), t)
    }
}

/// How a run looks at the moment `t`.
pub open spec fn look_at(s: TSpanView, t: u32) -> Look {
    if s.style_history.len() == 0 {
        base_look(s)
    } else {
        history_look(s.style_history, t)
    }
}

/// A character of a certain look at a certain place.
pub struct Glyph {
    pub x: Measure,
    pub c: char,
    pub look: Look,
}

/// Whether a run shows the glyph `g` at the moment `t`.
pub open spec fn span_shows(s: TSpanView, t: u32, g: Glyph) -> bool {
    s.start_ms <= t < s.end_ms && g.look == look_at(s, t) && exists|k: int|
        0 <= k < s.x_coords.len() && k < s.text.len() && #[trigger] s.x_coords[k] == g.x
            && s.text[k] == g.c
}

/// The row of the last segment that has begun at `t`; of the first one, if none
/// has.
pub open spec fn segment_row(segments: Seq<(u32, u32)>, t: u32) -> u32
    decreases segments.len(),
{
    if segments.len() <= 1 || segments.last().1 <= t {
        segments.last().0
    } else {
        segment_row(segments.drop_last(), t)
    }
}

/// Where an element stands at the moment `t`.
pub open spec fn row_at(y: u32, m: Option<YAnimationView>, t: u32) -> u32 {
    match m {
        Some(a) => segment_row(a.segments, t),
        None => y,
    }
}

/// Whether a row of text shows the glyph `g` on the line `y` at the moment `t`.
pub open spec fn row_shows(e: TextElementView, t: u32, y: u32, g: Glyph) -> bool {
    e.start_ms <= t < e.end_ms && row_at(e.y, e.y_animation, t) == y && exists|i: int|
        0 <= i < e.tspans.len() && span_shows(#[trigger] e.tspans[i], t, g)
}

/// Whether some row of text shows the glyph.
pub open spec fn text_shows(v: Seq<TextElementView>, t: u32, y: u32, g: Glyph) -> bool {
    exists|i: int| 0 <= i < v.len() && row_shows(#[trigger] v[i], t, y, g)
}

/// Whether a rectangle covers the pixel `px`, `py` with `fill` at the moment `t`.
pub open spec fn rect_covers(r: BgRectView, t: u32, px: int, py: int, fill: Rgb) -> bool {
    let y = row_at(r.y, r.y_animation, t);
    r.start_ms <= t < r.end_ms && r.x <= px < r.x + r.w && y <= py < y + r.h && r.fill == fill
}

/// Whether some rectangle covers the pixel.
pub open spec fn rects_cover(v: Seq<BgRectView>, t: u32, px: int, py: int, fill: Rgb) -> bool {
    exists|i: int| 0 <= i < v.len() && rect_covers(#[trigger] v[i], t, px, py, fill)
}

/// The fields in which two runs with the same content agree.
pub open spec fn same_content(a: TSpanView, b: TSpanView) -> bool {
    a.x_coords == b.x_coords && a.text == b.text && a.fg == b.fg && a.bold == b.bold && a.italic
        == b.italic && a.underline == b.underline && a.strikethrough == b.strikethrough && a.is_box
        == b.is_box && a.scale_y == b.scale_y && a.letter_spacing == b.letter_spacing
}

pub open spec fn content_equal(a: TextElementView, b: TextElementView) -> bool {
    a.tspans.len() == b.tspans.len() && forall|i: int|
        0 <= i < a.tspans.len() ==> same_content(#[trigger] a.tspans[i], b.tspans[i])
}

/// Whether two lists of places are the same.
pub fn same_measures(a: &Vec<Measure>, b: &Vec<Measure>) -> (r: bool)
    ensures
        r == (a@ == b@),
{
    if a.len() != b.len() {
        return false;
    }
    let mut i: usize = 0;
    while i < a.len()
        invariant
            a@.len() == b@.len(),
            i <= a@.len(),
            forall|k: int| 0 <= k < i ==> a@[k] == b@[k],
        decreases a@.len() - i,
    {
        if a[i] != b[i] {
            return false;
        }
        i = i + 1;
    }
    assert(a@ =~= b@);
    true
}

fn is_same_content(a: &TSpan, b: &TSpan) -> (r: bool)
    ensures
        r == same_content(a@, b@),
{
    same_measures(&a.x_coords, &b.x_coords) && same_text(a.text.as_str(), b.text.as_str())
        && same_rgb(a.fg, b.fg) && a.bold == b.bold && a.italic == b.italic && a.underline
        == b.underline && a.strikethrough == b.strikethrough && a.is_box == b.is_box && a.scale_y
        == b.scale_y && a.letter_spacing == b.letter_spacing
}

impl TextElement {
    /// Whether two rows hold the same runs at the same places, whatever their
    /// times.
    pub fn content_equals(&self, other: &Self) -> (r: bool)
        ensures
            r == content_equal(self@, other@),
    {
        if self.tspans.len() != other.tspans.len() {
            return false;
        }
        let mut i: usize = 0;
        while i < self.tspans.len()
            invariant
                self.tspans@.len() == other.tspans@.len(),
                i <= self.tspans@.len(),
                forall|k: int|
                    0 <= k < i ==> same_content(#[trigger] self@.tspans[k], other@.tspans[k]),
            decreases self.tspans@.len() - i,
        {
            assert(self@.tspans[i as int] == self.tspans@[i as int]@);
            assert(other@.tspans[i as int] == other.tspans@[i as int]@);
            if !is_same_content(&self.tspans[i], &other.tspans[i]) {
                return false;
            }
            i = i + 1;
        }
        true
    }
}

} // verus!
