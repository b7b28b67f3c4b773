//! Rows of text as SVG.
use vstd::prelude::*;
use vstd::string::*;

use crate::render_svg::elements;
use crate::render_svg::elements::{
    AnimatedProperty, AnimatedPropertyView, StyleAnimation, StyleAnimationView, TSpan, TSpanView,
    TextElement, TextElementView, YAnimation, YAnimationView,
};
use crate::render_svg::markup;
use crate::render_svg::markup::{
    cell_top, format_begin, format_discrete, format_key_time_list, format_seconds, format_time,
    is_static, visibility_set,
};
use crate::render_svg::shapes;
use crate::render_svg::shapes::{get_box_drawing_path, Geometry, CELL_LIMIT};
use crate::single;
use crate::single::{format_fixed, format_shortest, from_whole, round_single, Measure, ONE};
use crate::sort;
use crate::style;
use crate::style::{rgb_hex, same_rgb, Rgb};
use crate::text;
use crate::text::{chars_text, decimal_text, escape_text, join, to_chars};

verus! {

/// 0.00001 in single precision: spacings closer than this count as equal.
pub const HAIR: i128 = 0xA7C5_AC00_0000;

/// Classes that stand for colours.
pub struct ColorClasses {
    pub entries: Vec<(Rgb, String)>,
}

impl View for ColorClasses {
    type V = Seq<(Rgb, Seq<char>)>;

    open spec fn view(&self) -> Seq<(Rgb, Seq<char>)> {
        Seq::new(self.entries@.len(), |i: int| (self.entries@[i].0, self.entries@[i].1@))
    }
}

/// The class of a colour from the place `i` of the list on.
pub open spec fn class_from(classes: Seq<(Rgb, Seq<char>)>, color: Rgb, i: int) -> Option<Seq<char>>
    decreases classes.len() - i,
{
    if i < 0 || i >= classes.len() {
        None
    } else if classes[i].0 == color {
        Some(classes[i].1)
    } else {
        class_from(classes, color, i + 1)
    }
}

/// The class of a colour, if it has one.
pub open spec fn class_of(classes: Seq<(Rgb, Seq<char>)>, color: Rgb) -> Option<Seq<char>> {
    class_from(classes, color, 0)
}

impl ColorClasses {
    /// No colour has a class.
    pub fn new() -> (r: ColorClasses)
        ensures
            r@ == Seq::<(Rgb, Seq<char>)>::empty(),
    {
        let r: ColorClasses = ColorClasses { entries: Vec::new() };
        assert(r@ =~= Seq::empty());
        r
    }

    /// The class of a colour, if it has one.
    pub fn get(&self, color: Rgb) -> (r: Option<&String>)
        ensures
            match r {
                Some(s) => class_of(self@, color) == Some(s@),
                None => class_of(self@, color) is None,
            },
    {
        let mut i: usize = 0;
        while i < self.entries.len()
            invariant
                i <= self.entries@.len(),
                class_of(self@, color) == class_from(self@, color, i as int),
            decreases self.entries@.len() - i,
        {
            assert(self@[i as int] == (self.entries@[i as int].0, self.entries@[i as int].1@));
            if same_rgb(self.entries[i].0, color) {
                return Some(&self.entries[i].1);
            }
            i = i + 1;
        }
        None
    }
}

/// Moments counted from `begin`.
pub open spec fn since<K>(kf: Seq<(u32, K)>, begin: u32) -> Seq<u32> {
    Seq::new(kf.len(), |i: int| (kf[i].0 - begin) as u32)
}

/// No keyframe comes before `begin`.
pub open spec fn none_before<K>(kf: Seq<(u32, K)>, begin: u32) -> bool {
    forall|i: int| 0 <= i < kf.len() ==> begin <= (#[trigger] kf[i]).0
}

/// Whether every colour has a class.
pub open spec fn all_classed(kf: Seq<(u32, Rgb)>, classes: Seq<(Rgb, Seq<char>)>) -> bool {
    forall|i: int| 0 <= i < kf.len() ==> class_of(classes, (#[trigger] kf[i]).1) is Some
}

/// How a boolean style is spelled.
pub open spec fn word(on: bool, yes: Seq<char>, no: Seq<char>) -> Seq<char> {
    if on {
        yes
    } else {
        no
    }
}

/// The decoration of a text. A line under it is drawn apart, as a rectangle.
pub open spec fn lines_text(strikethrough: bool) -> Seq<char> {
    word(strikethrough, "line-through"@, "none"@)
}

/// The attribute that an animation changes.
pub open spec fn attribute_text(p: AnimatedPropertyView, classes: Seq<(Rgb, Seq<char>)>) -> Seq<
    char,
> {
    match p {
        AnimatedPropertyView::Fg(kf) => if all_classed(kf, classes) {
            "class"@
        } else {
            "fill"@
        },
        AnimatedPropertyView::FontWeight(_) => "font-weight"@,
        AnimatedPropertyView::FontStyle(_) => "font-style"@,
        AnimatedPropertyView::TextDecoration(_) => "text-decoration"@,
    }
}

/// The values that an animation passes.
pub open spec fn values_of(p: AnimatedPropertyView, classes: Seq<(Rgb, Seq<char>)>) -> Seq<
    Seq<char>,
> {
    match p {
        AnimatedPropertyView::Fg(kf) => Seq::new(
            kf.len(),
            |i: int|
                if all_classed(kf, classes) {
                    class_of(classes, kf[i].1)->0
                } else {
                    style::hex(kf[i].1)
                },
        ),
        AnimatedPropertyView::FontWeight(kf) => Seq::new(
            kf.len(),
            |i: int| word(kf[i].1, "bold"@, "normal"@),
        ),
        AnimatedPropertyView::FontStyle(kf) => Seq::new(
            kf.len(),
            |i: int| word(kf[i].1, "italic"@, "normal"@),
        ),
        AnimatedPropertyView::TextDecoration(kf) => Seq::new(
            kf.len(),
            |i: int| lines_text(kf[i].1.1),
        ),
    }
}

/// The moments of an animation, counted from its begin.
pub open spec fn moments_of(p: AnimatedPropertyView, begin: u32) -> Seq<u32> {
    match p {
        AnimatedPropertyView::Fg(kf) => since(kf, begin),
        AnimatedPropertyView::FontWeight(kf) => since(kf, begin),
        AnimatedPropertyView::FontStyle(kf) => since(kf, begin),
        AnimatedPropertyView::TextDecoration(kf) => since(kf, begin),
    }
}

impl StyleAnimationView {
    /// No keyframe comes before the begin.
    pub open spec fn in_time(self) -> bool {
        match self.property {
            AnimatedPropertyView::Fg(kf) => none_before(kf, self.begin_ms),
            AnimatedPropertyView::FontWeight(kf) => none_before(kf, self.begin_ms),
            AnimatedPropertyView::FontStyle(kf) => none_before(kf, self.begin_ms),
            AnimatedPropertyView::TextDecoration(kf) => none_before(kf, self.begin_ms),
        }
    }

    /// The `<animate>` element.
    pub open spec fn svg(self, classes: Seq<(Rgb, Seq<char>)>, is_hidden: bool) -> Seq<char> {
        "<animate attributeName=\""@ + attribute_text(self.property, classes) + "\""@
            + markup::discrete_text(
            text::joined(values_of(self.property, classes), ";"@),
            markup::key_times_text(moments_of(self.property, self.begin_ms), self.dur_ms),
            markup::time_text(self.dur_ms),
            markup::begin_text(self.begin_ms),
        ) + word(is_hidden, ""@, " fill=\"freeze\""@) + " />"@
    }
}

fn times_since<K>(kf: &Vec<(u32, K)>, begin: u32) -> (out: Vec<u32>)
    requires
        none_before(kf@, begin),
    ensures
        out@ == since(kf@, begin),
{
    let mut out: Vec<u32> = Vec::new();
    let mut i: usize = 0;
    while i < kf.len()
        invariant
            none_before(kf@, begin),
            i <= kf@.len(),
            out@.len() == i,
            forall|k: int| 0 <= k < i ==> out@[k] == (kf@[k].0 - begin) as u32,
        decreases kf@.len() - i,
    {
        assert(begin <= kf@[i as int].0);
        out.push(kf[i].0 - begin);
        i = i + 1;
    }
    assert(out@ =~= since(kf@, begin));
    out
}

fn have_classes(kf: &Vec<(u32, Rgb)>, classes: &ColorClasses) -> (r: bool)
    ensures
        r == all_classed(kf@, classes@),
{
    let mut i: usize = 0;
    while i < kf.len()
        invariant
            i <= kf@.len(),
            forall|k: int| 0 <= k < i ==> class_of(classes@, (#[trigger] kf@[k]).1) is Some,
        decreases kf@.len() - i,
    {
        if classes.get(kf[i].1).is_none() {
            assert(class_of(classes@, kf@[i as int].1) is None);
            return false;
        }
        i = i + 1;
    }
    true
}

fn color_values(kf: &Vec<(u32, Rgb)>, classes: &ColorClasses, use_class: bool) -> (out: Vec<String>)
    requires
        use_class == all_classed(kf@, classes@),
    ensures
        text::texts(out@) == values_of(AnimatedPropertyView::Fg(kf@), classes@),
{
    let mut out: Vec<String> = Vec::new();
    let mut i: usize = 0;
    while i < kf.len()
        invariant
            use_class == all_classed(kf@, classes@),
            i <= kf@.len(),
            out@.len() == i,
            forall|k: int|
                0 <= k < i ==> (#[trigger] out@[k])@ == values_of(
                    AnimatedPropertyView::Fg(kf@),
                    classes@,
                )[k],
        decreases kf@.len() - i,
    {
        let color: Rgb = kf[i].1;
        if use_class {
            assert(class_of(classes@, kf@[i as int].1) is Some);
            match classes.get(color) {
                Some(c) => {
                    out.push(c.clone());
                },
                None => {
                    out.push(String::new());
                },
            }
        } else {
            out.push(rgb_hex(color));
        }
        i = i + 1;
    }
    assert(text::texts(out@) =~= values_of(AnimatedPropertyView::Fg(kf@), classes@));
    out
}

fn word_values(kf: &Vec<(u32, bool)>, yes: &str, no: &str) -> (out: Vec<String>)
    ensures
        text::texts(out@) == Seq::new(kf@.len(), |i: int| word(kf@[i].1, yes@, no@)),
{
    let mut out: Vec<String> = Vec::new();
    let mut i: usize = 0;
    while i < kf.len()
        invariant
            i <= kf@.len(),
            out@.len() == i,
            forall|k: int| 0 <= k < i ==> (#[trigger] out@[k])@ == word(kf@[k].1, yes@, no@),
        decreases kf@.len() - i,
    {
        if kf[i].1 {
            out.push(yes.to_string());
        } else {
            out.push(no.to_string());
        }
        i = i + 1;
    }
    assert(text::texts(out@) =~= Seq::new(kf@.len(), |i: int| word(kf@[i].1, yes@, no@)));
    out
}

fn line_values(kf: &Vec<(u32, (bool, bool))>) -> (out: Vec<String>)
    ensures
        text::texts(out@) == Seq::new(kf@.len(), |i: int| lines_text(kf@[i].1.1)),
{
    let mut out: Vec<String> = Vec::new();
    let mut i: usize = 0;
    while i < kf.len()
        invariant
            i <= kf@.len(),
            out@.len() == i,
            forall|k: int|
                0 <= k < i ==> (#[trigger] out@[k])@ == lines_text(kf@[k].1.1),
        decreases kf@.len() - i,
    {
        if kf[i].1.1 {
            out.push("line-through".to_string());
        } else {
            out.push("none".to_string());
        }
        i = i + 1;
    }
    assert(text::texts(out@) =~= Seq::new(
        kf@.len(),
        |i: int| lines_text(kf@[i].1.1),
    ));
    out
}

impl StyleAnimation {
    /// The `<animate>` element.
    pub fn to_svg_string(&self, color_classes: &ColorClasses, is_hidden: bool) -> (out: String)
        requires
            self@.in_time(),
        ensures
            out@ == self@.svg(color_classes@, is_hidden),
    {
        let mut name: String = "fill".to_string();
        let values: Vec<String>;
        let times: Vec<u32>;
        match &self.property {
            AnimatedProperty::Fg(kf) => {
                let use_class: bool = have_classes(kf, color_classes);
                if use_class {
                    name = "class".to_string();
                }
                values = color_values(kf, color_classes, use_class);
                times = times_since(kf, self.begin_ms);
            },
            AnimatedProperty::FontWeight(kf) => {
                name = "font-weight".to_string();
                values = word_values(kf, "bold", "normal");
                assert(text::texts(values@) =~= values_of(self@.property, color_classes@));
                times = times_since(kf, self.begin_ms);
            },
            AnimatedProperty::FontStyle(kf) => {
                name = "font-style".to_string();
                values = word_values(kf, "italic", "normal");
                assert(text::texts(values@) =~= values_of(self@.property, color_classes@));
                times = times_since(kf, self.begin_ms);
            },
            AnimatedProperty::TextDecoration(kf) => {
                name = "text-decoration".to_string();
                values = line_values(kf);
                assert(text::texts(values@) =~= values_of(self@.property, color_classes@));
                times = times_since(kf, self.begin_ms);
            },
        }
        assert(text::texts(values@) == values_of(self@.property, color_classes@));
        assert(times@ == moments_of(self@.property, self.begin_ms));
        let mut out: String = "<animate attributeName=\"".to_string();
        out.append(name.as_str());
        out.append("\"");
        out.append(
            format_discrete(
                join(&values, ";").as_str(),
                format_key_time_list(&times, self.dur_ms).as_str(),
                format_time(self.dur_ms).as_str(),
                format_begin(self.begin_ms).as_str(),
            ).as_str(),
        );
        out.append(
            if is_hidden {
                ""
            } else {
                " fill=\"freeze\""
            },
        );
        out.append(" />");
        out
    }
}

/// Places with up to two decimal places and spaces between them.
pub open spec fn places_text(x: Seq<Measure>) -> Seq<char> {
    text::joined(Seq::new(x.len(), |i: int| single::fixed_text(x[i] as int, 2)), " "@)
}

/// Whether two spacings differ visibly.
pub open spec fn spacing_differs(a: Measure, b: Measure) -> bool {
    single::magnitude(single::single(a - b)) >= HAIR
}

/// The declarations of a run's own `style` attribute.
pub open spec fn span_styles(s: TSpanView, spacing: Measure, transparent: bool) -> Seq<Seq<char>> {
    (if spacing_differs(s.letter_spacing, spacing) {
        seq![
            "letter-spacing: "@ + single::fixed_text(s.letter_spacing as int, 3) + "px"@,
        ]
    } else {
        Seq::empty()
    }) + (if transparent {
        seq!["fill-opacity: 0"@]
    } else {
        Seq::empty()
    })
}

/// `name="value"` with a space before it, or nothing if there are no parts.
pub open spec fn attribute_of(name: Seq<char>, parts: Seq<Seq<char>>, sep: Seq<char>) -> Seq<
    char,
> {
    if parts.len() == 0 {
        ""@
    } else {
        name + text::joined(parts, sep) + "\""@
    }
}

/// Whether a run has to be hidden and shown by itself.
pub open spec fn span_hidden(s: TSpanView, from: u32, to: u32, total_ms: u32) -> bool {
    !markup::always_visible(s.start_ms, s.end_ms, total_ms) && !(s.start_ms <= from && s.end_ms
        >= to)
}

pub open spec fn piece(on: bool, t: Seq<char>) -> Seq<Seq<char>> {
    if on {
        seq![t]
    } else {
        Seq::empty()
    }
}

/// The classes of a run. A line under it is no class of its own: it is a rectangle.
pub open spec fn span_classes(s: TSpanView, hidden: bool, color: Option<Seq<char>>) -> Seq<
    Seq<char>,
> {
    piece(s.bold, "b"@) + piece(s.italic, "i"@) + piece(s.strikethrough, "s"@) + piece(
        hidden,
        "h"@,
    ) + match color {
        Some(c) => seq![c],
        None => Seq::empty(),
    }
}

/// The `fill` attribute of a run, which a class or the default colour replaces.
pub open spec fn span_fill(
    s: TSpanView,
    color: Option<Seq<char>>,
    default_fg: Option<Rgb>,
) -> Seq<char> {
    if color is None && default_fg != Some(s.fg) {
        " fill=\""@ + style::hex(s.fg) + "\""@
    } else {
        ""@
    }
}

/// The attributes of a run that is bold or italic.
pub open spec fn span_font(s: TSpanView) -> Seq<char> {
    word(s.bold, " font-weight=\"bold\""@, ""@) + word(s.italic, " font-style=\"italic\""@, ""@)
}

/// The animations of a run, one behind the other.
pub open spec fn animations_text(
    a: Seq<StyleAnimationView>,
    classes: Seq<(Rgb, Seq<char>)>,
    hidden: bool,
) -> Seq<char>
    decreases a.len(),
{
    if a.len() == 0 {
        ""@
    } else {
        animations_text(a.drop_last(), classes, hidden) + a.last().svg(classes, hidden)
    }
}

/// The time a row lasts, and what it takes for granted.
pub struct RowContext {
    pub from: u32,
    pub to: u32,
    pub total_ms: u32,
    pub spacing: Measure,
    pub default_fg: Option<Rgb>,
}

/// A run as a `<tspan>`.
pub open spec fn span_svg(
    s: TSpanView,
    classes: Seq<(Rgb, Seq<char>)>,
    c: RowContext,
    transparent: bool,
) -> Seq<char> {
    let hidden = span_hidden(s, c.from, c.to, c.total_ms);
    let color = class_of(classes, s.fg);
    "<tspan x=\""@ + places_text(s.x_coords) + "\""@ + span_fill(s, color, c.default_fg)
        + span_font(s) + attribute_of(" class=\""@, span_classes(s, hidden, color), " "@) + attribute_of(
        " style=\""@,
        span_styles(s, c.spacing, transparent),
        "; "@,
    ) + ">"@ + (if hidden {
        markup::visibility_text(s.start_ms, s.end_ms, c.total_ms)
    } else {
        ""@
    }) + animations_text(s.style_animations, classes, hidden) + text::escaped_text(s.text)
        + "</tspan>"@
}

/// Whether the numbers of a run can be printed, and its animations run forward.
pub open spec fn span_printable(s: TSpanView) -> bool {
    &&& forall|i: int| 0 <= i < s.x_coords.len() ==> markup::in_range(#[trigger] s.x_coords[i] as int)
    &&& markup::in_range(s.letter_spacing as int)
    &&& forall|i: int|
        0 <= i < s.style_animations.len() ==> (#[trigger] s.style_animations[i]).in_time()
}

fn format_places(x: &Vec<Measure>) -> (out: String)
    requires
        forall|i: int| 0 <= i < x@.len() ==> markup::in_range(#[trigger] x@[i] as int),
    ensures
        out@ == places_text(x@),
{
    let mut parts: Vec<String> = Vec::new();
    let mut i: usize = 0;
    while i < x.len()
        invariant
            forall|i: int| 0 <= i < x@.len() ==> markup::in_range(#[trigger] x@[i] as int),
            i <= x@.len(),
            parts@.len() == i,
            forall|k: int|
                0 <= k < i ==> (#[trigger] parts@[k])@ == single::fixed_text(x@[k] as int, 2),
        decreases x@.len() - i,
    {
        assert(markup::in_range(x@[i as int] as int));
        parts.push(format_fixed(x[i], 2));
        i = i + 1;
    }
    assert(text::texts(parts@) =~= Seq::new(x@.len(), |i: int| single::fixed_text(x@[i] as int, 2)));
    join(&parts, " ")
}

fn push_piece(out: &mut Vec<String>, on: bool, t: &str)
    ensures
        text::texts(final(out)@) == text::texts(old(out)@) + piece(on, t@),
{
    if on {
        out.push(t.to_string());
    }
    assert(text::texts(out@) =~= text::texts(old(out)@) + piece(on, t@));
}

fn attribute(name: &str, parts: &Vec<String>, sep: &str) -> (out: String)
    ensures
        out@ == attribute_of(name@, text::texts(parts@), sep@),
{
    if parts.len() == 0 {
        "".to_string()
    } else {
        let mut out: String = name.to_string();
        out.append(join(parts, sep).as_str());
        out.append("\"");
        out
    }
}

fn is_default_color(default_fg: Option<Rgb>, c: Rgb) -> (r: bool)
    ensures
        r == (default_fg == Some(c)),
{
    match default_fg {
        Some(d) => same_rgb(d, c),
        None => false,
    }
}

impl TSpan {
    fn style_list(&self, spacing: Measure, make_transparent: bool) -> (styles: Vec<String>)
        requires
            markup::in_range(self.letter_spacing as int),
            markup::in_range(spacing as int),
        ensures
            text::texts(styles@) == span_styles(self@, spacing, make_transparent),
    {
        let mut styles: Vec<String> = Vec::new();
        let d: Measure = round_single(self.letter_spacing - spacing);
        let d: Measure = if d < 0 {
            -d
        } else {
            d
        };
        if d >= HAIR {
            let mut t: String = "letter-spacing: ".to_string();
            t.append(format_seconds(self.letter_spacing).as_str());
            t.append("px");
            styles.push(t);
        }
        push_piece(&mut styles, make_transparent, "fill-opacity: 0");
        assert(text::texts(styles@) =~= span_styles(self@, spacing, make_transparent));
        styles
    }

    fn class_list(&self, hidden: bool, color: Option<&String>) -> (classes: Vec<String>)
        ensures
            text::texts(classes@) == span_classes(
                self@,
                hidden,
                match color {
                    Some(c) => Some(c@),
                    None => None,
                },
            ),
    {
        let mut classes: Vec<String> = Vec::new();
        push_piece(&mut classes, self.bold, "b");
        assert(text::texts(classes@) =~= piece(self.bold, "b"@));
        push_piece(&mut classes, self.italic, "i");
        push_piece(&mut classes, self.strikethrough, "s");
        push_piece(&mut classes, hidden, "h");
        let ghost before = text::texts(classes@);
        match color {
            Some(cls) => {
                classes.push(cls.clone());
                assert(text::texts(classes@) =~= before + seq![cls@]);
            },
            None => {
                assert(text::texts(classes@) =~= before + Seq::empty());
            },
        }
        classes
    }

    fn fill_attribute(&self, has_class: bool, default_fg: Option<Rgb>) -> (fill: String)
        ensures
            fill@ == (if !has_class && default_fg != Some(self.fg) {
                " fill=\""@ + style::hex(self.fg) + "\""@
            } else {
                ""@
            }),
    {
        if !has_class && !is_default_color(default_fg, self.fg) {
            let mut fill: String = " fill=\"".to_string();
            fill.append(rgb_hex(self.fg).as_str());
            fill.append("\"");
            fill
        } else {
            "".to_string()
        }
    }

    fn animation_markup(&self, color_classes: &ColorClasses, hidden: bool) -> (out: String)
        requires
            span_printable(self@),
        ensures
            out@ == animations_text(self@.style_animations, color_classes@, hidden),
    {
        let mut out: String = "".to_string();
        let mut i: usize = 0;
        let ghost all = self@.style_animations;
        while i < self.style_animations.len()
            invariant
                all == sort::views(self.style_animations@),
                forall|k: int| 0 <= k < all.len() ==> (#[trigger] all[k]).in_time(),
                i <= all.len(),
                out@ == animations_text(all.take(i as int), color_classes@, hidden),
            decreases all.len() - i,
        {
            assert(all[i as int].in_time());
            assert(all[i as int] == self.style_animations@[i as int]@);
            out.append(self.style_animations[i].to_svg_string(color_classes, hidden).as_str());
            assert(all.take(i + 1).drop_last() =~= all.take(i as int));
            i = i + 1;
        }
        assert(all.take(all.len() as int) =~= all);
        out
    }

    fn font_attributes(&self) -> (out: String)
        ensures
            out@ == span_font(self@),
    {
        let mut out: String = (if self.bold {
            " font-weight=\"bold\""
        } else {
            ""
        }).to_string();
        out.append(
            if self.italic {
                " font-style=\"italic\""
            } else {
                ""
            },
        );
        out
    }

    /// The run as a `<tspan>`.
    pub fn to_svg_string(
        &self,
        color_classes: &ColorClasses,
        c: &RowContext,
        make_transparent: bool,
    ) -> (out: String)
        requires
            span_printable(self@),
            markup::in_range(c.spacing as int),
        ensures
            out@ == span_svg(self@, color_classes@, *c, make_transparent),
    {
        assert forall|i: int| 0 <= i < self.x_coords@.len() implies markup::in_range(
            #[trigger] self.x_coords@[i] as int,
        ) by {
            assert(markup::in_range(self@.x_coords[i] as int));
        }
        let places: String = format_places(&self.x_coords);
        let styles: Vec<String> = self.style_list(c.spacing, make_transparent);
        let hidden: bool = !is_static(self.start_ms, self.end_ms, c.total_ms) && !(self.start_ms
            <= c.from && self.end_ms >= c.to);
        let color: Option<&String> = color_classes.get(self.fg);
        let classes: Vec<String> = self.class_list(hidden, color);
        let fill: String = self.fill_attribute(color.is_some(), c.default_fg);
        let mut shown: String = "".to_string();
        if hidden {
            shown = visibility_set(self.start_ms, self.end_ms, c.total_ms);
        }
        let mut out: String = "<tspan x=\"".to_string();
        out.append(places.as_str());
        out.append("\"");
        out.append(fill.as_str());
        out.append(self.font_attributes().as_str());
        out.append(attribute(" class=\"", &classes, " ").as_str());
        out.append(attribute(" style=\"", &styles, "; ").as_str());
        out.append(">");
        out.append(shown.as_str());
        out.append(self.animation_markup(color_classes, hidden).as_str());
        out.append(escape_text(self.text.as_str()).as_str());
        out.append("</tspan>");
        out
    }
}

/// The characters that take up a cell.
pub open spec fn drawn(s: Seq<char>) -> Seq<char>
    decreases s.len(),
{
    if s.len() == 0 {
        s
    } else if s.last() == '\n' || s.last() == '\r' {
        drawn(s.drop_last())
    } else {
        drawn(s.drop_last()).push(s.last())
    }
}

/// Whether every character that takes up a cell has a shape.
pub open spec fn all_shaped(s: Seq<char>) -> bool {
    forall|i: int| 0 <= i < drawn(s).len() ==> shapes::shape_of(#[trigger] drawn(s)[i]) is Some
}

/// The motion of a row as markup.
pub open spec fn motion_svg(m: Option<YAnimationView>) -> Seq<char> {
    match m {
        Some(a) => a.svg(),
        None => ""@,
    }
}

pub open spec fn motion_transform_svg(
    m: Option<YAnimationView>,
    x: Measure,
    baseline: u32,
) -> Seq<char> {
    match m {
        Some(a) => a.transform_svg(x, baseline),
        None => ""@,
    }
}

/// The lengths of a run's cells.
pub open spec fn cell_geometry(s: TSpanView) -> Geometry {
    Geometry {
        width: s.cell_w,
        height: s.cell_h,
        light: shapes::light_width(s.cell_w) as i128,
        heavy: shapes::heavy_width(s.cell_w) as i128,
        gap: shapes::double_gap(s.cell_w) as i128,
        radius: shapes::corner_radius(s.cell_w, s.cell_h) as i128,
    }
}

/// The shape of one character of a run as a group of its own.
pub open spec fn shape_group(
    s: TSpanView,
    i: int,
    y: u32,
    m: Option<YAnimationView>,
    hidden: bool,
    total_ms: u32,
) -> Seq<char> {
    "<g transform=\"translate("@ + single::shortest_text(s.x_coords[i] as int) + ", "@
        + single::shortest_text(markup::rise(y, s.baseline)) + ")\""@ + word(
        hidden,
        " visibility=\"hidden\""@,
        ""@,
    ) + " fill=\""@ + style::hex(s.fg) + "\" stroke=\""@ + style::hex(s.fg) + "\">"@ + (if hidden {
        markup::visibility_text(s.start_ms, s.end_ms, total_ms)
    } else {
        ""@
    }) + motion_transform_svg(m, s.x_coords[i], s.baseline) + shapes::filled(
        shapes::shape_of(drawn(s.text)[i])->0,
        cell_geometry(s),
    ) + "</g>"@
}

/// The shapes of the first `n` characters of a run.
pub open spec fn shape_groups(
    s: TSpanView,
    n: int,
    y: u32,
    m: Option<YAnimationView>,
    hidden: bool,
    total_ms: u32,
) -> Seq<char>
    decreases n,
{
    if n <= 0 {
        ""@
    } else {
        shape_groups(s, n - 1, y, m, hidden, total_ms) + shape_group(
            s,
            n - 1,
            y,
            m,
            hidden,
            total_ms,
        )
    }
}

/// Whether a run of shapes can be printed on the line `y`.
pub open spec fn box_printable(s: TSpanView, y: u32, m: Option<YAnimationView>) -> bool {
    &&& drawn(s.text).len() <= s.x_coords.len()
    &&& s.x_coords.len() > 0
    &&& s.cell_w <= CELL_LIMIT
    &&& s.cell_h <= CELL_LIMIT
    &&& s.baseline <= CELL_LIMIT
    &&& y <= CELL_LIMIT
    &&& -0xff_ffff * ONE <= s.cell_center_y_offset <= 0xff_ffff * ONE
    &&& -0xff_ffff * ONE <= s.char_center_y_offset <= 0xff_ffff * ONE
    &&& markup::in_range(s.scale_y as int)
    &&& motion_printable(m)
}

/// Whether a motion can be printed.
pub open spec fn motion_printable(m: Option<YAnimationView>) -> bool {
    match m {
        Some(a) => a.in_time() && forall|i: int|
            0 <= i < a.segments.len() ==> (#[trigger] a.segments[i]).0 <= CELL_LIMIT,
        None => true,
    }
}

fn drawn_chars(s: &str) -> (out: Vec<char>)
    ensures
        out@ == drawn(s@),
{
    let chars: Vec<char> = to_chars(s);
    let mut out: Vec<char> = Vec::new();
    let mut i: usize = 0;
    while i < chars.len()
        invariant
            i <= chars@.len(),
            out@ == drawn(chars@.take(i as int)),
        decreases chars@.len() - i,
    {
        assert(chars@.take(i + 1).drop_last() =~= chars@.take(i as int));
        if chars[i] != '\n' && chars[i] != '\r' {
            out.push(chars[i]);
        }
        i = i + 1;
    }
    assert(chars@.take(chars@.len() as int) =~= chars@);
    out
}

fn motion_text(m: &Option<YAnimation>) -> (out: String)
    requires
        motion_printable(elements::motion(*m)),
    ensures
        out@ == motion_svg(elements::motion(*m)),
{
    match m {
        Some(a) => a.to_svg_string(),
        None => "".to_string(),
    }
}

/// The shapes of a run of box-drawing characters; none, if one of them has no
/// shape.
pub fn render_box_drawing_shape_group(
    tspan: &TSpan,
    baseline_y: u32,
    y_animation: &Option<YAnimation>,
    total_ms: u32,
    parent_start: u32,
    parent_end: u32,
) -> (r: Option<String>)
    requires
        span_printable(tspan@),
        box_printable(tspan@, baseline_y, elements::motion(*y_animation)),
    ensures
        match r {
            Some(out) => all_shaped(tspan@.text) && out@ == shape_groups(
                tspan@,
                drawn(tspan@.text).len() as int,
                baseline_y,
                elements::motion(*y_animation),
                span_hidden(tspan@, parent_start, parent_end, total_ms),
                total_ms,
            ),
            None => !all_shaped(tspan@.text),
        },
{
    let g: Geometry = Geometry::of_cell(tspan.cell_w, tspan.cell_h);
    assert(g == cell_geometry(tspan@));
    let chars: Vec<char> = drawn_chars(tspan.text.as_str());
    let hidden: bool = !is_static(tspan.start_ms, tspan.end_ms, total_ms) && !(tspan.start_ms
        <= parent_start && tspan.end_ms >= parent_end);
    let mut shown: String = "".to_string();
    if hidden {
        shown = visibility_set(tspan.start_ms, tspan.end_ms, total_ms);
    }
    let top: Measure = cell_top(baseline_y, tspan.baseline);
    let color: String = rgb_hex(tspan.fg);
    let mut out: String = "".to_string();
    let ghost m = elements::motion(*y_animation);
    let mut i: usize = 0;
    while i < chars.len()
        invariant
            span_printable(tspan@),
            box_printable(tspan@, baseline_y, m),
            m == elements::motion(*y_animation),
            g.is_of_cell(),
            g == cell_geometry(tspan@),
            chars@ == drawn(tspan@.text),
            i <= chars@.len(),
            hidden == span_hidden(tspan@, parent_start, parent_end, total_ms),
            shown@ == (if hidden {
                markup::visibility_text(tspan.start_ms, tspan.end_ms, total_ms)
            } else {
                ""@
            }),
            top == markup::rise(baseline_y, tspan.baseline),
            markup::in_range(top as int),
            color@ == style::hex(tspan.fg),
            out@ == shape_groups(tspan@, i as int, baseline_y, m, hidden, total_ms),
            forall|k: int| 0 <= k < i ==> shapes::shape_of(#[trigger] drawn(tspan@.text)[k]) is Some,
        decreases chars@.len() - i,
    {
        match get_box_drawing_path(chars[i], &g) {
            None => {
                assert(shapes::shape_of(drawn(tspan@.text)[i as int]) is None);
                return None;
            },
            Some(shape) => {
                let x: Measure = tspan.x_coords[i];
                assert(markup::in_range(tspan@.x_coords[i as int] as int));
                let mut moves: String = "".to_string();
                match y_animation {
                    Some(a) => {
                        assert(m == Some(a@));
                        assert forall|k: int| 0 <= k < a.segments@.len() implies (
                        #[trigger] a.segments@[k]).0 <= 0xff_ffff by {
                            assert(a@.segments[k].0 <= CELL_LIMIT);
                        }
                        moves = a.to_svg_transform_animation(x, tspan.baseline);
                    },
                    None => {},
                }
                let mut group: String = "<g transform=\"translate(".to_string();
                group.append(format_shortest(x).as_str());
                group.append(", ");
                group.append(format_shortest(top).as_str());
                group.append(")\"");
                group.append(
                    if hidden {
                        " visibility=\"hidden\""
                    } else {
                        ""
                    },
                );
                group.append(" fill=\"");
                group.append(color.as_str());
                group.append("\" stroke=\"");
                group.append(color.as_str());
                group.append("\">");
                group.append(shown.as_str());
                group.append(moves.as_str());
                group.append(shape.as_str());
                group.append("</g>");
                assert(group@ == shape_group(
                    tspan@,
                    i as int,
                    baseline_y,
                    m,
                    hidden,
                    total_ms,
                ));
                out.append(group.as_str());
            },
        }
        i = i + 1;
    }
    Some(out)
}

/// The runs from `from` to `to` of a row.
pub open spec fn spans_text(
    v: Seq<TSpanView>,
    from: int,
    to: int,
    classes: Seq<(Rgb, Seq<char>)>,
    c: RowContext,
) -> Seq<char>
    decreases to - from,
{
    if to <= from {
        ""@
    } else {
        spans_text(v, from, to - 1, classes, c) + span_svg(v[to - 1], classes, c, false)
    }
}

/// A stretch of a row without box-drawing characters.
pub open spec fn text_tag(
    e: TextElementView,
    from: int,
    to: int,
    classes: Seq<(Rgb, Seq<char>)>,
    c: RowContext,
) -> Seq<char> {
    "<text y=\""@ + text::decimal(e.y as nat) + "\">"@ + motion_svg(e.y_animation) + spans_text(
        e.tspans,
        from,
        to,
        classes,
        c,
    ) + "</text>"@
}

/// The length a run of box-drawing characters is stretched to.
pub open spec fn text_length(s: TSpanView) -> Seq<char> {
    single::fixed_text(
        single::single(
            single::single(s.x_coords.last() - s.x_coords[0]) + single::whole(s.cell_w),
        ),
        2,
    )
}

/// The transformation that stretches a run to the height of its cell.
pub open spec fn stretch(s: TSpanView, y: u32) -> Seq<char> {
    if s.scale_y > ONE {
        " transform=\"translate(0, "@ + single::shortest_text(
            single::single(single::whole(y) + s.cell_center_y_offset),
        ) + ") scale(1, "@ + single::shortest_text(s.scale_y as int) + ") translate(0, -"@
            + single::shortest_text(single::single(single::whole(y) + s.char_center_y_offset))
            + ")\""@
    } else {
        ""@
    }
}

/// A run of box-drawing characters as text; transparent if its shapes are drawn.
pub open spec fn box_tag(
    e: TextElementView,
    s: TSpanView,
    classes: Seq<(Rgb, Seq<char>)>,
    c: RowContext,
) -> Seq<char> {
    "<text x=\""@ + single::shortest_text(s.x_coords[0] as int) + "\" y=\""@ + text::decimal(
        e.y as nat,
    ) + "\""@ + stretch(s, e.y) + " textLength=\""@ + text_length(s)
        + "\" lengthAdjust=\"spacingAndGlyphs\">"@ + motion_svg(e.y_animation) + span_svg(
        s,
        classes,
        c,
        all_shaped(s.text),
    ) + "</text>"@
}

/// The shapes of a run of box-drawing characters.
pub open spec fn run_shapes(e: TextElementView, s: TSpanView, c: RowContext) -> Seq<char> {
    shape_groups(
        s,
        drawn(s.text).len() as int,
        e.y,
        e.y_animation,
        span_hidden(s, c.from, c.to, c.total_ms),
        c.total_ms,
    )
}

/// The tags of a run of box-drawing characters: its shapes, if it has them, and
/// its text.
#[verifier::opaque]
pub open spec fn box_tags(
    e: TextElementView,
    s: TSpanView,
    classes: Seq<(Rgb, Seq<char>)>,
    c: RowContext,
) -> Seq<Seq<char>> {
    piece(all_shaped(s.text), run_shapes(e, s, c)).push(box_tag(e, s, classes, c))
}

/// `tags`, and behind them the stretch from `from` to `to`, if it is not empty.
#[verifier::opaque]
pub open spec fn flushed(
    tags: Seq<Seq<char>>,
    e: TextElementView,
    from: int,
    to: int,
    classes: Seq<(Rgb, Seq<char>)>,
    c: RowContext,
) -> Seq<Seq<char>> {
    if from < to {
        tags.push(text_tag(e, from, to, classes, c))
    } else {
        tags
    }
}

/// The tags of the first `n` runs of a row, and the place from which on runs wait
/// for a tag.
pub open spec fn tags_upto(
    e: TextElementView,
    n: int,
    classes: Seq<(Rgb, Seq<char>)>,
    c: RowContext,
) -> (Seq<Seq<char>>, int)
    decreases n,
{
    if n <= 0 {
        (Seq::empty(), 0)
    } else {
        let (tags, from) = tags_upto(e, n - 1, classes, c);
        if e.tspans[n - 1].is_box {
            (
                flushed(tags, e, from, n - 1, classes, c) + box_tags(
                    e,
                    e.tspans[n - 1],
                    classes,
                    c,
                ),
                n,
            )
        } else {
            (tags, from)
        }
    }
}

/// The tags of a row.
pub open spec fn row_tags(
    e: TextElementView,
    classes: Seq<(Rgb, Seq<char>)>,
    c: RowContext,
) -> Seq<Seq<char>> {
    let n = e.tspans.len() as int;
    let (tags, from) = tags_upto(e, n, classes, c);
    flushed(tags, e, from, n, classes, c)
}

/// The place of the first `c` in `s` from `i` on.
pub open spec fn first_at(s: Seq<char>, c: char, i: int) -> Option<int>
    decreases s.len() - i,
{
    if i < 0 || i >= s.len() {
        None
    } else if s[i] == c {
        Some(i)
    } else {
        first_at(s, c, i + 1)
    }
}

/// A single tag, hidden until its time.
pub open spec fn hidden_tag(tag: Seq<char>, shown: Seq<char>) -> Seq<char> {
    match first_at(tag, '>', 0) {
        Some(i) => tag.take(i) + " class=\"h\""@ + ">"@ + shown + tag.skip(i + 1),
        None => tag,
    }
}

pub open spec fn row_context(
    e: TextElementView,
    total_ms: u32,
    spacing: Measure,
    default_fg: Option<Rgb>,
) -> RowContext {
    RowContext { from: e.start_ms, to: e.end_ms, total_ms, spacing, default_fg }
}

/// A row as SVG: its tags, hidden until its time if it is not always visible.
pub open spec fn row_svg(
    e: TextElementView,
    classes: Seq<(Rgb, Seq<char>)>,
    total_ms: u32,
    spacing: Measure,
    default_fg: Option<Rgb>,
) -> Seq<char> {
    let tags = row_tags(e, classes, row_context(e, total_ms, spacing, default_fg));
    let shown = markup::visibility_text(e.start_ms, e.end_ms, total_ms);
    if markup::always_visible(e.start_ms, e.end_ms, total_ms) {
        text::joined(tags, ""@)
    } else if tags.len() == 1 {
        hidden_tag(tags[0], shown)
    } else {
        "<g class=\"h\">"@ + shown + text::joined(tags, ""@) + "</g>"@
    }
}

/// Whether a row can be printed.
pub open spec fn row_printable(e: TextElementView) -> bool {
    &&& motion_printable(e.y_animation)
    &&& forall|i: int|
        0 <= i < e.tspans.len() ==> span_printable(#[trigger] e.tspans[i]) && (e.tspans[i].is_box
            ==> box_printable(e.tspans[i], e.y, e.y_animation))
}

fn find_char(chars: &Vec<char>, c: char) -> (r: Option<usize>)
    ensures
        match r {
            Some(i) => first_at(chars@, c, 0) == Some(i as int) && i < chars@.len(),
            None => first_at(chars@, c, 0) is None,
        },
{
    let mut i: usize = 0;
    while i < chars.len()
        invariant
            i <= chars@.len(),
            first_at(chars@, c, 0) == first_at(chars@, c, i as int),
        decreases chars@.len() - i,
    {
        if chars[i] == c {
            return Some(i);
        }
        i = i + 1;
    }
    None
}

fn hide_tag(tag: &str, shown: &str) -> (out: String)
    ensures
        out@ == hidden_tag(tag@, shown@),
{
    let chars: Vec<char> = to_chars(tag);
    let n: usize = chars.len();
    match find_char(&chars, '>') {
        Some(i) => {
            let mut out: String = chars_text(&chars, 0, i);
            assert(out@ =~= tag@.take(i as int));
            out.append(" class=\"h\"");
            out.append(">");
            out.append(shown);
            let rest: String = chars_text(&chars, i + 1, n);
            assert(rest@ =~= tag@.skip(i + 1));
            out.append(rest.as_str());
            out
        },
        None => {
            let out: String = chars_text(&chars, 0, n);
            assert(out@ =~= tag@);
            out
        },
    }
}

fn stretch_attribute(s: &TSpan, y: u32) -> (out: String)
    requires
        box_printable(s@, y, None),
    ensures
        out@ == stretch(s@, y),
{
    if s.scale_y > ONE {
        let top: Measure = from_whole(y);
        proof {
            single::lemma_whole_exact(y);
        }
        let a: Measure = round_single(top + s.cell_center_y_offset);
        let b: Measure = round_single(top + s.char_center_y_offset);
        let mut out: String = " transform=\"translate(0, ".to_string();
        out.append(format_shortest(a).as_str());
        out.append(") scale(1, ");
        out.append(format_shortest(s.scale_y).as_str());
        out.append(") translate(0, -");
        out.append(format_shortest(b).as_str());
        out.append(")\"");
        out
    } else {
        "".to_string()
    }
}

fn length_attribute(s: &TSpan) -> (out: String)
    requires
        span_printable(s@),
        s.x_coords@.len() > 0,
        s.cell_w <= CELL_LIMIT,
    ensures
        out@ == text_length(s@),
{
    let n: usize = s.x_coords.len();
    assert(markup::in_range(s@.x_coords[0] as int));
    assert(markup::in_range(s@.x_coords[n - 1] as int));
    let w: Measure = from_whole(s.cell_w);
    let d: Measure = round_single(s.x_coords[n - 1] - s.x_coords[0]);
    format_fixed(round_single(d + w), 2)
}

impl TextElement {
    fn text_stretch(
        &self,
        from: usize,
        to: usize,
        color_classes: &ColorClasses,
        c: &RowContext,
    ) -> (out: String)
        requires
            from <= to <= self.tspans@.len(),
            row_printable(self@),
            markup::in_range(c.spacing as int),
        ensures
            out@ == text_tag(self@, from as int, to as int, color_classes@, *c),
    {
        let mut spans: String = "".to_string();
        let mut i: usize = from;
        while i < to
            invariant
                from <= i <= to <= self.tspans@.len(),
                row_printable(self@),
                markup::in_range(c.spacing as int),
                spans@ == spans_text(self@.tspans, from as int, i as int, color_classes@, *c),
            decreases to - i,
        {
            assert(span_printable(self@.tspans[i as int]));
            assert(self@.tspans[i as int] == self.tspans@[i as int]@);
            spans.append(self.tspans[i].to_svg_string(color_classes, c, false).as_str());
            i = i + 1;
        }
        let mut out: String = "<text y=\"".to_string();
        out.append(decimal_text(self.y as u128).as_str());
        out.append("\">");
        out.append(motion_text(&self.y_animation).as_str());
        out.append(spans.as_str());
        out.append("</text>");
        out
    }

    fn box_text(
        &self,
        i: usize,
        color_classes: &ColorClasses,
        c: &RowContext,
        shaped: bool,
    ) -> (out: String)
        requires
            i < self.tspans@.len(),
            self.tspans@[i as int].is_box,
            row_printable(self@),
            markup::in_range(c.spacing as int),
            shaped == all_shaped(self@.tspans[i as int].text),
        ensures
            out@ == box_tag(self@, self@.tspans[i as int], color_classes@, *c),
    {
        assert(span_printable(self@.tspans[i as int]));
        assert(self@.tspans[i as int] == self.tspans@[i as int]@);
        let s: &TSpan = &self.tspans[i];
        assert(markup::in_range(s@.x_coords[0] as int));
        let mut out: String = "<text x=\"".to_string();
        out.append(format_shortest(s.x_coords[0]).as_str());
        out.append("\" y=\"");
        out.append(decimal_text(self.y as u128).as_str());
        out.append("\"");
        out.append(stretch_attribute(s, self.y).as_str());
        out.append(" textLength=\"");
        out.append(length_attribute(s).as_str());
        out.append("\" lengthAdjust=\"spacingAndGlyphs\">");
        out.append(motion_text(&self.y_animation).as_str());
        out.append(s.to_svg_string(color_classes, c, shaped).as_str());
        out.append("</text>");
        out
    }

    fn push_stretch(
        &self,
        tags: &mut Vec<String>,
        from: usize,
        to: usize,
        color_classes: &ColorClasses,
        c: &RowContext,
    )
        requires
            from <= to <= self.tspans@.len(),
            row_printable(self@),
            markup::in_range(c.spacing as int),
        ensures
            text::texts(final(tags)@) == flushed(
                text::texts(old(tags)@),
                self@,
                from as int,
                to as int,
                color_classes@,
                *c,
            ),
    {
        reveal(flushed);
        if from < to {
            tags.push(self.text_stretch(from, to, color_classes, c));
        }
        assert(text::texts(tags@) =~= flushed(
            text::texts(old(tags)@),
            self@,
            from as int,
            to as int,
            color_classes@,
            *c,
        ));
    }

    fn push_box(
        &self,
        tags: &mut Vec<String>,
        i: usize,
        color_classes: &ColorClasses,
        c: &RowContext,
    )
        requires
            i < self.tspans@.len(),
            self.tspans@[i as int].is_box,
            row_printable(self@),
            markup::in_range(c.spacing as int),
        ensures
            text::texts(final(tags)@) == text::texts(old(tags)@) + box_tags(
                self@,
                self@.tspans[i as int],
                color_classes@,
                *c,
            ),
    {
        reveal(box_tags);
        let ghost s = self@.tspans[i as int];
        assert(span_printable(s));
        assert(s == self.tspans@[i as int]@);
        let shapes: Option<String> = render_box_drawing_shape_group(
            &self.tspans[i],
            self.y,
            &self.y_animation,
            c.total_ms,
            c.from,
            c.to,
        );
        let shaped: bool = shapes.is_some();
        match shapes {
            Some(svg) => {
                assert(svg@ == run_shapes(self@, s, *c));
                tags.push(svg);
            },
            None => {},
        }
        tags.push(self.box_text(i, color_classes, c, shaped));
        assert(text::texts(tags@) =~= text::texts(old(tags)@) + box_tags(
            self@,
            s,
            color_classes@,
            *c,
        ));
    }

    fn collect_tags(&self, color_classes: &ColorClasses, c: &RowContext) -> (tags: Vec<String>)
        requires
            row_printable(self@),
            markup::in_range(c.spacing as int),
        ensures
            text::texts(tags@) == row_tags(self@, color_classes@, *c),
    {
        let mut tags: Vec<String> = Vec::new();
        let mut from: usize = 0;
        let mut i: usize = 0;
        let n: usize = self.tspans.len();
        assert(text::texts(tags@) =~= Seq::empty());
        while i < n
            invariant
                n == self.tspans@.len(),
                row_printable(self@),
                markup::in_range(c.spacing as int),
                from <= i <= n,
                (text::texts(tags@), from as int) == tags_upto(
                    self@,
                    i as int,
                    color_classes@,
                    *c,
                ),
            decreases n - i,
        {
            assert(self@.tspans[i as int] == self.tspans@[i as int]@);
            if self.tspans[i].is_box {
                self.push_stretch(&mut tags, from, i, color_classes, c);
                self.push_box(&mut tags, i, color_classes, c);
                from = i + 1;
            }
            i = i + 1;
        }
        self.push_stretch(&mut tags, from, n, color_classes, c);
        tags
    }

    /// The row as SVG.
    pub fn to_svg_string(
        &self,
        color_classes: &ColorClasses,
        total_ms: u32,
        default_letter_spacing: Measure,
        default_fg: Option<Rgb>,
    ) -> (out: String)
        requires
            row_printable(self@),
            markup::in_range(default_letter_spacing as int),
        ensures
            out@ == row_svg(
                self@,
                color_classes@,
                total_ms,
                default_letter_spacing,
                default_fg,
            ),
    {
        let c: RowContext = RowContext {
            from: self.start_ms,
            to: self.end_ms,
            total_ms,
            spacing: default_letter_spacing,
            default_fg,
        };
        let tags: Vec<String> = self.collect_tags(color_classes, &c);
        if is_static(self.start_ms, self.end_ms, total_ms) {
            return join(&tags, "");
        }
        let shown: String = visibility_set(self.start_ms, self.end_ms, total_ms);
        if tags.len() == 1 {
            assert(text::texts(tags@)[0] == tags@[0]@);
            hide_tag(tags[0].as_str(), shown.as_str())
        } else {
            let mut out: String = "<g class=\"h\">".to_string();
            out.append(shown.as_str());
            out.append(join(&tags, "").as_str());
            out.append("</g>");
            out
        }
    }
}

} // verus!
