//! The SVG document as a whole.
use vstd::prelude::*;
use vstd::string::*;

use crate::render_svg::elements;
use crate::render_svg::elements::{
    BgRect, BgRectView, CursorRect, MouseSpan, TextElement, TextElementView, TitleSegment,
    TitleSegmentView, WindowBarCircle,
};
use crate::render_svg::markup;
use crate::render_svg::markup::{format_seconds, is_static, visibility_set};
use crate::render_svg::overlay;
use crate::render_svg::overlay::{
    serialize_cursor_rects, serialize_mouse_elements, still_cursors_text, still_mice_text,
};
use crate::render_svg::shapes::CELL_LIMIT;
use crate::render_svg::still;
use crate::render_svg::still::{freeze_rects, freeze_rows};
use crate::render_svg::text_markup;
use crate::render_svg::text_markup::ColorClasses;
use crate::single;
use crate::single::{format_shortest, round_single, Measure, ONE};
use crate::sort;
use crate::sort::sort_distinct;
use crate::style;
use crate::style::{rgb_hex, same_rgb, Rgb};
use crate::text;
use crate::text::{chars_text, decimal_text, escape_attr, escape_text, to_chars};

verus! {

/// 0.535 in single precision: the part of the window bar that its title fills.
pub const TITLE_PART: i128 = 0x88F5_C300_0000_0000;

/// How often a colour must occur to get a class.
pub const CLASS_THRESHOLD: usize = 5;

/// An animated SVG document.
pub struct SvgDoc {
    /// Version and revision of the program, for the comment at the top.
    pub version: String,
    pub revision: String,
    pub canvas_w: u32,
    pub canvas_h: u32,
    pub font_family: String,
    pub font_size: Measure,
    pub letter_spacing: Measure,
    pub style_block: String,
    pub canvas_bg: Rgb,
    pub frame_bg_x: u32,
    pub frame_bg_y: u32,
    pub frame_bg_w: u32,
    pub frame_bg_h: u32,
    pub frame_bg_fill: Rgb,
    /// Column, line, width, height and radius.
    pub frame_clip_path: Option<(u32, u32, u32, u32, u32)>,
    pub window_bar_circles: Vec<WindowBarCircle>,
    pub master_timer_dur: Measure,
    pub bg_rects: Vec<BgRect>,
    /// The lines under the text that is underlined.
    pub underlines: Vec<BgRect>,
    pub text_elements: Vec<TextElement>,
    pub cursor_rects: Vec<CursorRect>,
    pub mouse_spans: Vec<MouseSpan>,
    pub is_static: bool,
    pub bar_h: u32,
    pub title_segments: Vec<TitleSegment>,
    pub window_bar_font_family: Option<String>,
    pub window_bar_font_size: Option<Measure>,
    pub cols: u32,
    pub rows: u32,
    pub framerate: u32,
    pub total_frames: usize,
    pub render_time_ms: u128,
}

/// The duration of the master timer in whole milliseconds.
pub open spec fn timer_ms(dur: Measure) -> u32 {
    let v = single::single(dur * 1000);
    if v <= 0 {
        0
    } else if (v + ONE / 2) / (ONE as int) > u32::MAX {
        u32::MAX
    } else {
        ((v + ONE / 2) / (ONE as int)) as u32
    }
}

pub fn timer_millis(dur: Measure) -> (r: u32)
    requires
        markup::in_range(dur as int),
    ensures
        r == timer_ms(dur),
{
    let v: Measure = round_single(dur * 1000);
    if v <= 0 {
        return 0;
    }
    let ms: i128 = (v + ONE / 2) / ONE;
    if ms > u32::MAX as i128 {
        u32::MAX
    } else {
        ms as u32
    }
}

/// A colour as one number, in the order of colours.
pub open spec fn color_code(c: Rgb) -> u32 {
    (c[0] * 65536 + c[1] * 256 + c[2]) as u32
}

pub open spec fn code_color(n: u32) -> Rgb {
    [((n / 65536) % 256) as u8, ((n / 256) % 256) as u8, (n % 256) as u8]
}

/// A colour can be read back from its number.
pub proof fn lemma_color_code(c: Rgb)
    ensures
        code_color(color_code(c)) == c,
{
    let n = color_code(c);
    assert(n / 65536 == c[0]);
    assert((n / 256) % 256 == c[1]);
    assert(n % 256 == c[2]);
    assert(code_color(n) =~= c);
}

fn to_code(c: Rgb) -> (n: u32)
    ensures
        n == color_code(c),
{
    c[0] as u32 * 65536 + c[1] as u32 * 256 + c[2] as u32
}

fn from_code(n: u32) -> (c: Rgb)
    ensures
        c == code_color(n),
{
    let c: Rgb = [((n / 65536) % 256) as u8, ((n / 256) % 256) as u8, (n % 256) as u8];
    assert(c =~= code_color(n));
    c
}

/// The colours of the runs of a row.
pub open spec fn row_codes(e: TextElementView) -> Seq<u32> {
    Seq::new(e.tspans.len(), |i: int| color_code(e.tspans[i].fg))
}

/// The colours of all runs.
pub open spec fn text_codes(v: Seq<TextElementView>) -> Seq<u32>
    decreases v.len(),
{
    if v.len() == 0 {
        Seq::empty()
    } else {
        text_codes(v.drop_last()) + row_codes(v.last())
    }
}

/// The colours of all backgrounds.
pub open spec fn fill_codes(v: Seq<BgRectView>) -> Seq<u32> {
    Seq::new(v.len(), |i: int| color_code(v[i].fill))
}

/// How often `n` occurs in `s`.
pub open spec fn occurrences(s: Seq<u32>, n: u32) -> nat
    decreases s.len(),
{
    if s.len() == 0 {
        0
    } else {
        occurrences(s.drop_last(), n) + (if s.last() == n {
            1nat
        } else {
            0nat
        })
    }
}

/// The first of the first `n` candidates that occurs most often in `s`.
pub open spec fn commonest(s: Seq<u32>, candidates: Seq<u32>, n: int) -> Option<u32>
    decreases n,
{
    if n <= 0 {
        None
    } else {
        let c = candidates[n - 1];
        match commonest(s, candidates, n - 1) {
            None => Some(c),
            Some(best) => if occurrences(s, c) > occurrences(s, best) {
                Some(c)
            } else {
                Some(best)
            },
        }
    }
}

/// The colour that most runs have; of several, the least.
pub open spec fn common_code(s: Seq<u32>) -> Option<u32> {
    let d = sort::distinct_ascending(s);
    commonest(s, d, d.len() as int)
}

/// No colour is more common than the commonest.
pub proof fn lemma_common_code(s: Seq<u32>, n: u32)
    ensures
        s.len() == 0 <==> common_code(s) is None,
        common_code(s) matches Some(c) ==> s.contains(c) && occurrences(s, n) <= occurrences(s, c),
{
    let d = sort::distinct_ascending(s);
    sort::lemma_distinct_ascending(s);
    lemma_commonest(s, d, d.len() as int);
    if s.len() > 0 {
        assert(common_code(s) is Some);
        let c = common_code(s)->0;
        assert(d.contains(c));
        if !s.contains(n) {
            lemma_no_occurrence(s, n);
        } else {
            assert(d.contains(n));
            let i = choose|i: int| 0 <= i < d.len() && d[i] == n;
            assert(occurrences(s, d[i]) <= occurrences(s, c));
        }
    } else {
        assert(d.len() == 0);
    }
}

proof fn lemma_no_occurrence(s: Seq<u32>, n: u32)
    requires
        !s.contains(n),
    ensures
        occurrences(s, n) == 0,
    decreases s.len(),
{
    if s.len() > 0 {
        assert(s[s.len() - 1] != n);
        assert(!s.drop_last().contains(n)) by {
            if s.drop_last().contains(n) {
                let i = choose|i: int| 0 <= i < s.drop_last().len() && s.drop_last()[i] == n;
                assert(s[i] == n);
            }
        }
        lemma_no_occurrence(s.drop_last(), n);
    }
}

proof fn lemma_commonest(s: Seq<u32>, d: Seq<u32>, n: int)
    requires
        0 <= n <= d.len(),
    ensures
        n == 0 <==> commonest(s, d, n) is None,
        commonest(s, d, n) matches Some(c) ==> d.contains(c) && forall|i: int|
            0 <= i < n ==> occurrences(s, #[trigger] d[i]) <= occurrences(s, c),
    decreases n,
{
    if n > 0 {
        lemma_commonest(s, d, n - 1);
        assert(d.contains(d[n - 1]));
    }
}

/// The classes of the first `n` colours of `colors`: every colour that occurs
/// often enough in `all` gets one, except for the default colour.
pub open spec fn classes_upto(
    all: Seq<u32>,
    colors: Seq<u32>,
    default_code: Option<u32>,
    n: int,
) -> Seq<(Rgb, Seq<char>)>
    decreases n,
{
    if n <= 0 {
        Seq::empty()
    } else {
        let before = classes_upto(all, colors, default_code, n - 1);
        let c = colors[n - 1];
        if default_code == Some(c) || occurrences(all, c) < CLASS_THRESHOLD {
            before
        } else {
            before.push((code_color(c), "c"@ + text::decimal(before.len())))
        }
    }
}

fn count_code(s: &Vec<u32>, n: u32) -> (r: usize)
    ensures
        r == occurrences(s@, n),
{
    let mut r: usize = 0;
    let mut i: usize = 0;
    while i < s.len()
        invariant
            i <= s@.len(),
            r <= i,
            r == occurrences(s@.take(i as int), n),
        decreases s@.len() - i,
    {
        assert(s@.take(i + 1).drop_last() =~= s@.take(i as int));
        if s[i] == n {
            r = r + 1;
        }
        i = i + 1;
    }
    assert(s@.take(s@.len() as int) =~= s@);
    r
}

fn copy_codes(s: &Vec<u32>) -> (r: Vec<u32>)
    ensures
        r@ == s@,
{
    let mut r: Vec<u32> = Vec::new();
    let mut i: usize = 0;
    while i < s.len()
        invariant
            i <= s@.len(),
            r@ == s@.take(i as int),
        decreases s@.len() - i,
    {
        r.push(s[i]);
        i = i + 1;
        assert(r@ =~= s@.take(i as int));
    }
    assert(s@.take(s@.len() as int) =~= s@);
    r
}

fn find_common(s: &Vec<u32>) -> (r: Option<u32>)
    ensures
        r == common_code(s@),
{
    let d: Vec<u32> = sort_distinct(copy_codes(s));
    let mut best: Option<u32> = None;
    let mut most: usize = 0;
    let mut i: usize = 0;
    while i < d.len()
        invariant
            i <= d@.len(),
            best == commonest(s@, d@, i as int),
            best matches Some(b) ==> most == occurrences(s@, b),
        decreases d@.len() - i,
    {
        let n: usize = count_code(s, d[i]);
        if best.is_none() || n > most {
            best = Some(d[i]);
            most = n;
        }
        i = i + 1;
    }
    best
}

fn build_classes(all: &Vec<u32>, default_code: Option<u32>) -> (r: ColorClasses)
    ensures
        r@ == classes_upto(
            all@,
            sort::distinct_ascending(all@),
            default_code,
            sort::distinct_ascending(all@).len() as int,
        ),
{
    let colors: Vec<u32> = sort_distinct(copy_codes(all));
    let mut r: ColorClasses = ColorClasses::new();
    let mut i: usize = 0;
    while i < colors.len()
        invariant
            i <= colors@.len(),
            r@ == classes_upto(all@, colors@, default_code, i as int),
        decreases colors@.len() - i,
    {
        let c: u32 = colors[i];
        let is_default: bool = match default_code {
            Some(d) => d == c,
            None => false,
        };
        let ghost before = r@;
        if !is_default && count_code(all, c) >= CLASS_THRESHOLD {
            let mut name: String = "c".to_string();
            let n: usize = r.entries.len();
            name.append(decimal_text(n as u128).as_str());
            r.entries.push((from_code(c), name));
            assert(r@ =~= before.push((code_color(c), "c"@ + text::decimal(before.len()))));
        }
        i = i + 1;
    }
    r
}

/// A rule for each class.
pub open spec fn class_rules(c: Seq<(Rgb, Seq<char>)>) -> Seq<char>
    decreases c.len(),
{
    if c.len() == 0 {
        ""@
    } else {
        class_rules(c.drop_last()) + "."@ + c.last().1 + " { fill: "@ + style::hex(c.last().0)
            + "; }\n"@
    }
}

/// The rules of the document's own style sheet.
pub open spec fn extra_css(
    is_static: bool,
    spacing: Measure,
    default_fg: Option<Rgb>,
    classes: Seq<(Rgb, Seq<char>)>,
) -> Seq<char> {
    let spacing_rule = if spacing != 0 {
        "letter-spacing: "@ + single::fixed_text(spacing as int, 3) + "px; "@
    } else {
        ""@
    };
    let fill_rule = match default_fg {
        Some(c) => "fill: "@ + style::hex(c) + "; "@,
        None => ""@,
    };
    text_markup::word(is_static, ""@, ".h { visibility: hidden; }\n"@)
        + ".b { font-weight: bold; }\n.i { font-style: italic; }\n.s { text-decoration: line-through; }\ntext, tspan { font-kerning: none; font-variant-ligatures: none; text-rendering: geometricPrecision; }\n"@
        + (if spacing != 0 || default_fg is Some {
        "text { "@ + spacing_rule + fill_rule + " }\n"@
    } else {
        ""@
    }) + class_rules(classes)
}

/// Whether `s` ends with `tail`.
pub open spec fn ends_with(s: Seq<char>, tail: Seq<char>) -> bool {
    s.len() >= tail.len() && s.skip(s.len() - tail.len()) == tail
}

/// The closing tag of a style block, with the line break behind it.
pub open spec fn style_end() -> Seq<char> {
    "</style>\n"@
}

/// The style block with the document's own rules added: before its closing tag,
/// in place of the character before it, or in a block of their own.
pub open spec fn with_rules(block: Seq<char>, rules: Seq<char>) -> Seq<char> {
    if ends_with(block, style_end()) {
        block.take(block.len() - 10) + rules + style_end()
    } else {
        block + "<style>\n"@ + rules + style_end()
    }
}

/// A closed style block has a character of one byte before its closing tag.
pub open spec fn block_fits(block: Seq<char>) -> bool {
    ends_with(block, style_end()) ==> block.len() >= 10 && (block[block.len() - 10] as u32) < 128
}

fn has_style_end(chars: &Vec<char>) -> (r: bool)
    ensures
        r == ends_with(chars@, style_end()),
{
    let tail: Vec<char> = to_chars("</style>\n");
    let n: usize = chars.len();
    let m: usize = tail.len();
    if n < m {
        return false;
    }
    let mut i: usize = 0;
    let ghost end = chars@.skip(n - m);
    while i < m
        invariant
            tail@ == style_end(),
            n == chars@.len(),
            m == tail@.len(),
            m <= n,
            end == chars@.skip(n - m),
            i <= m,
            forall|k: int| 0 <= k < i ==> end[k] == tail@[k],
        decreases m - i,
    {
        if chars[n - m + i] != tail[i] {
            assert(end[i as int] != tail@[i as int]);
            return false;
        }
        i = i + 1;
    }
    assert(end =~= tail@);
    true
}

fn add_rules(block: &str, rules: &str) -> (out: String)
    requires
        block_fits(block@),
    ensures
        out@ == with_rules(block@, rules@),
{
    let chars: Vec<char> = to_chars(block);
    let n: usize = chars.len();
    if has_style_end(&chars) {
        let mut out: String = chars_text(&chars, 0, n - 10);
        assert(out@ =~= block@.take(block@.len() - 10));
        out.append(rules);
        out.append("</style>\n");
        out
    } else {
        let mut out: String = block.to_string();
        out.append("<style>\n");
        out.append(rules);
        out.append("</style>\n");
        out
    }
}

fn format_class_rules(c: &ColorClasses) -> (out: String)
    ensures
        out@ == class_rules(c@),
{
    let mut out: String = "".to_string();
    let mut i: usize = 0;
    while i < c.entries.len()
        invariant
            i <= c.entries@.len(),
            out@ == class_rules(c@.take(i as int)),
        decreases c.entries@.len() - i,
    {
        assert(c@.take(i + 1).drop_last() =~= c@.take(i as int));
        assert(c@.take(i + 1).last() == (c.entries@[i as int].0, c.entries@[i as int].1@));
        out.append(".");
        out.append(c.entries[i].1.as_str());
        out.append(" { fill: ");
        out.append(rgb_hex(c.entries[i].0).as_str());
        out.append("; }\n");
        i = i + 1;
    }
    assert(c@.take(c@.len() as int) =~= c@);
    out
}

fn format_css(
    is_static_doc: bool,
    spacing: Measure,
    default_fg: Option<Rgb>,
    classes: &ColorClasses,
) -> (out: String)
    requires
        markup::in_range(spacing as int),
    ensures
        out@ == extra_css(is_static_doc, spacing, default_fg, classes@),
{
    let mut spacing_rule: String = "".to_string();
    if spacing != 0 {
        spacing_rule = "letter-spacing: ".to_string();
        spacing_rule.append(format_seconds(spacing).as_str());
        spacing_rule.append("px; ");
    }
    let mut fill_rule: String = "".to_string();
    match default_fg {
        Some(c) => {
            fill_rule = "fill: ".to_string();
            fill_rule.append(rgb_hex(c).as_str());
            fill_rule.append("; ");
        },
        None => {},
    }
    let mut text_rule: String = "".to_string();
    if spacing != 0 || default_fg.is_some() {
        text_rule = "text { ".to_string();
        text_rule.append(spacing_rule.as_str());
        text_rule.append(fill_rule.as_str());
        text_rule.append(" }\n");
    }
    let mut out: String = (if is_static_doc {
        ""
    } else {
        ".h { visibility: hidden; }\n"
    }).to_string();
    out.append(
        ".b { font-weight: bold; }\n.i { font-style: italic; }\n.s { text-decoration: line-through; }\ntext, tspan { font-kerning: none; font-variant-ligatures: none; text-rendering: geometricPrecision; }\n",
    );
    out.append(text_rule.as_str());
    out.append(format_class_rules(classes).as_str());
    out
}

/// A dot of the window bar as SVG.
pub open spec fn circle_svg(c: WindowBarCircle) -> Seq<char> {
    let head = "<circle cx=\""@ + text::decimal(c.cx as nat) + "\" cy=\""@ + text::decimal(
        c.cy as nat,
    ) + "\" r=\""@ + text::decimal(c.r as nat);
    match c.fill {
        Some(f) => head + "\" fill=\""@ + style::hex(f) + "\"/>"@,
        None => match c.stroke {
            Some(s) => head + "\" fill=\"none\" stroke=\""@ + style::hex(s)
                + "\" stroke-width=\"2\"/>"@,
            None => ""@,
        },
    }
}

impl WindowBarCircle {
    /// The dot as SVG.
    pub fn to_svg_string(&self) -> (out: String)
        ensures
            out@ == circle_svg(*self),
    {
        let mut out: String = "<circle cx=\"".to_string();
        out.append(decimal_text(self.cx as u128).as_str());
        out.append("\" cy=\"");
        out.append(decimal_text(self.cy as u128).as_str());
        out.append("\" r=\"");
        out.append(decimal_text(self.r as u128).as_str());
        match self.fill {
            Some(f) => {
                out.append("\" fill=\"");
                out.append(rgb_hex(f).as_str());
                out.append("\"/>");
                out
            },
            None => match self.stroke {
                Some(s) => {
                    out.append("\" fill=\"none\" stroke=\"");
                    out.append(rgb_hex(s).as_str());
                    out.append("\" stroke-width=\"2\"/>");
                    out
                },
                None => "".to_string(),
            },
        }
    }
}

pub open spec fn circles_svg(v: Seq<WindowBarCircle>) -> Seq<char>
    decreases v.len(),
{
    if v.len() == 0 {
        ""@
    } else {
        circles_svg(v.drop_last()) + circle_svg(v.last())
    }
}

fn format_circles(v: &Vec<WindowBarCircle>) -> (out: String)
    ensures
        out@ == circles_svg(v@),
{
    let mut out: String = "".to_string();
    let mut i: usize = 0;
    while i < v.len()
        invariant
            i <= v@.len(),
            out@ == circles_svg(v@.take(i as int)),
        decreases v@.len() - i,
    {
        assert(v@.take(i + 1).drop_last() =~= v@.take(i as int));
        out.append(v[i].to_svg_string().as_str());
        i = i + 1;
    }
    assert(v@.take(v@.len() as int) =~= v@);
    out
}

/// The fill of a background: its class or its colour, and whether it is hidden.
pub open spec fn rect_fill(r: BgRectView, classes: Seq<(Rgb, Seq<char>)>, visible: bool) -> Seq<
    char,
> {
    match text_markup::class_of(classes, r.fill) {
        Some(c) => " class=\""@ + c + text_markup::word(visible, "\""@, " h\""@),
        None => " fill=\""@ + style::hex(r.fill) + text_markup::word(
            visible,
            "\""@,
            "\" class=\"h\""@,
        ),
    }
}

/// A background as SVG.
pub open spec fn rect_svg(r: BgRectView, classes: Seq<(Rgb, Seq<char>)>, total_ms: u32) -> Seq<
    char,
> {
    let visible = markup::always_visible(r.start_ms, r.end_ms, total_ms);
    "<rect x=\""@ + text::decimal(r.x as nat) + "\" y=\""@ + text::decimal(r.y as nat)
        + "\" width=\""@ + text::decimal(r.w as nat) + "\" height=\""@ + text::decimal(r.h as nat)
        + "\""@ + rect_fill(r, classes, visible) + (match r.clip_path {
        Some(p) => " clip-path=\"url(#"@ + p + ")\""@,
        None => ""@,
    }) + (if visible {
        "/>"@
    } else {
        ">"@ + markup::visibility_text(r.start_ms, r.end_ms, total_ms) + text_markup::motion_svg(
            r.y_animation,
        ) + "</rect>"@
    })
}

fn format_rect_fill(r: &BgRect, classes: &ColorClasses, visible: bool) -> (out: String)
    ensures
        out@ == rect_fill(r@, classes@, visible),
{
    match classes.get(r.fill) {
        Some(c) => {
            let mut out: String = " class=\"".to_string();
            out.append(c.as_str());
            out.append(
                if visible {
                    "\""
                } else {
                    " h\""
                },
            );
            out
        },
        None => {
            let mut out: String = " fill=\"".to_string();
            out.append(rgb_hex(r.fill).as_str());
            out.append(
                if visible {
                    "\""
                } else {
                    "\" class=\"h\""
                },
            );
            out
        },
    }
}

fn format_rect(r: &BgRect, classes: &ColorClasses, total_ms: u32) -> (out: String)
    requires
        text_markup::motion_printable(r@.y_animation),
    ensures
        out@ == rect_svg(r@, classes@, total_ms),
{
    let visible: bool = is_static(r.start_ms, r.end_ms, total_ms);
    let mut clip: String = "".to_string();
    match &r.clip_path {
        Some(p) => {
            clip = " clip-path=\"url(#".to_string();
            clip.append(p.as_str());
            clip.append(")\"");
        },
        None => {},
    }
    let mut tail: String = "/>".to_string();
    if !visible {
        tail = ">".to_string();
        tail.append(visibility_set(r.start_ms, r.end_ms, total_ms).as_str());
        match &r.y_animation {
            Some(a) => {
                assert(elements::motion(r.y_animation) == Some(a@));
                tail.append(a.to_svg_string().as_str());
            },
            None => {
                tail.append("");
            },
        }
        tail.append("</rect>");
    }
    let mut out: String = "<rect x=\"".to_string();
    out.append(decimal_text(r.x as u128).as_str());
    out.append("\" y=\"");
    out.append(decimal_text(r.y as u128).as_str());
    out.append("\" width=\"");
    out.append(decimal_text(r.w as u128).as_str());
    out.append("\" height=\"");
    out.append(decimal_text(r.h as u128).as_str());
    out.append("\"");
    out.append(format_rect_fill(r, classes, visible).as_str());
    out.append(clip.as_str());
    out.append(tail.as_str());
    out
}

pub open spec fn rects_svg(
    v: Seq<BgRectView>,
    classes: Seq<(Rgb, Seq<char>)>,
    total_ms: u32,
) -> Seq<char>
    decreases v.len(),
{
    if v.len() == 0 {
        ""@
    } else {
        rects_svg(v.drop_last(), classes, total_ms) + rect_svg(v.last(), classes, total_ms)
    }
}

fn format_rects(v: &Vec<BgRect>, classes: &ColorClasses, total_ms: u32) -> (out: String)
    requires
        forall|i: int|
            0 <= i < v@.len() ==> text_markup::motion_printable(
                (#[trigger] sort::views(v@)[i]).y_animation,
            ),
    ensures
        out@ == rects_svg(sort::views(v@), classes@, total_ms),
{
    let ghost all = sort::views(v@);
    let mut out: String = "".to_string();
    let mut i: usize = 0;
    while i < v.len()
        invariant
            all == sort::views(v@),
            forall|i: int|
                0 <= i < all.len() ==> text_markup::motion_printable((#[trigger] all[i]).y_animation),
            i <= v@.len(),
            out@ == rects_svg(all.take(i as int), classes@, total_ms),
        decreases v@.len() - i,
    {
        assert(all.take(i + 1).drop_last() =~= all.take(i as int));
        assert(all[i as int] == v@[i as int]@);
        assert(text_markup::motion_printable(all[i as int].y_animation));
        out.append(format_rect(&v[i], classes, total_ms).as_str());
        i = i + 1;
    }
    assert(all.take(all.len() as int) =~= all);
    out
}

pub open spec fn rows_svg(
    v: Seq<TextElementView>,
    classes: Seq<(Rgb, Seq<char>)>,
    total_ms: u32,
    spacing: Measure,
    default_fg: Option<Rgb>,
) -> Seq<char>
    decreases v.len(),
{
    if v.len() == 0 {
        ""@
    } else {
        rows_svg(v.drop_last(), classes, total_ms, spacing, default_fg) + text_markup::row_svg(
            v.last(),
            classes,
            total_ms,
            spacing,
            default_fg,
        )
    }
}

fn format_rows(
    v: &Vec<TextElement>,
    classes: &ColorClasses,
    total_ms: u32,
    spacing: Measure,
    default_fg: Option<Rgb>,
) -> (out: String)
    requires
        markup::in_range(spacing as int),
        forall|i: int|
            0 <= i < v@.len() ==> text_markup::row_printable(#[trigger] sort::views(v@)[i]),
    ensures
        out@ == rows_svg(sort::views(v@), classes@, total_ms, spacing, default_fg),
{
    let ghost all = sort::views(v@);
    let mut out: String = "".to_string();
    let mut i: usize = 0;
    while i < v.len()
        invariant
            markup::in_range(spacing as int),
            all == sort::views(v@),
            forall|i: int| 0 <= i < all.len() ==> text_markup::row_printable(#[trigger] all[i]),
            i <= v@.len(),
            out@ == rows_svg(all.take(i as int), classes@, total_ms, spacing, default_fg),
        decreases v@.len() - i,
    {
        assert(all.take(i + 1).drop_last() =~= all.take(i as int));
        assert(all[i as int] == v@[i as int]@);
        assert(text_markup::row_printable(all[i as int]));
        out.append(v[i].to_svg_string(classes, total_ms, spacing, default_fg).as_str());
        i = i + 1;
    }
    assert(all.take(all.len() as int) =~= all);
    out
}

fn collect_text_codes(v: &Vec<TextElement>) -> (out: Vec<u32>)
    ensures
        out@ == text_codes(sort::views(v@)),
{
    let ghost all = sort::views(v@);
    let mut out: Vec<u32> = Vec::new();
    let mut i: usize = 0;
    while i < v.len()
        invariant
            all == sort::views(v@),
            i <= v@.len(),
            out@ == text_codes(all.take(i as int)),
        decreases v@.len() - i,
    {
        assert(all.take(i + 1).drop_last() =~= all.take(i as int));
        let ghost e = v@[i as int]@;
        let ghost before = out@;
        let mut k: usize = 0;
        while k < v[i].tspans.len()
            invariant
                i < v@.len(),
                e == v@[i as int]@,
                k <= e.tspans.len(),
                out@ == before + row_codes(e).take(k as int),
            decreases e.tspans.len() - k,
        {
            assert(e.tspans[k as int] == v@[i as int].tspans@[k as int]@);
            out.push(to_code(v[i].tspans[k].fg));
            k = k + 1;
            assert(out@ =~= before + row_codes(e).take(k as int));
        }
        assert(row_codes(e).take(k as int) =~= row_codes(e));
        i = i + 1;
    }
    assert(all.take(all.len() as int) =~= all);
    out
}

fn collect_fill_codes(v: &Vec<BgRect>) -> (out: Vec<u32>)
    ensures
        out@ == fill_codes(sort::views(v@)),
{
    let mut out: Vec<u32> = Vec::new();
    let mut i: usize = 0;
    while i < v.len()
        invariant
            i <= v@.len(),
            out@.len() == i,
            forall|k: int| 0 <= k < i ==> out@[k] == color_code(v@[k].fill),
        decreases v@.len() - i,
    {
        out.push(to_code(v[i].fill));
        i = i + 1;
    }
    assert(out@ =~= fill_codes(sort::views(v@)));
    out
}

impl SvgDoc {
    pub open spec fn rects(&self) -> Seq<BgRectView> {
        sort::views(self.bg_rects@)
    }

    pub open spec fn strokes(&self) -> Seq<BgRectView> {
        sort::views(self.underlines@)
    }

    pub open spec fn lines(&self) -> Seq<TextElementView> {
        sort::views(self.text_elements@)
    }

    /// The colour that text has by default.
    pub open spec fn default_code(&self) -> Option<u32> {
        common_code(text_codes(self.lines()))
    }

    pub open spec fn default_fg(&self) -> Option<Rgb> {
        match self.default_code() {
            Some(c) => Some(code_color(c)),
            None => None,
        }
    }

    /// The colours of all backgrounds and runs.
    pub open spec fn all_codes(&self) -> Seq<u32> {
        fill_codes(self.rects()) + text_codes(self.lines())
    }

    /// The classes of the colours.
    pub open spec fn classes(&self) -> Seq<(Rgb, Seq<char>)> {
        let d = sort::distinct_ascending(self.all_codes());
        classes_upto(self.all_codes(), d, self.default_code(), d.len() as int)
    }

    /// The top of the document.
    pub open spec fn head(&self) -> Seq<char> {
        "<?xml version=\"1.0\" encoding=\"UTF-8\"?>\n<!-- Created with EVP v"@ + self.version@
            + " (sha: "@ + self.revision@ + ", frames: "@ + text::decimal(self.total_frames as nat)
            + ", cols: "@ + text::decimal(self.cols as nat) + ", rows: "@ + text::decimal(
            self.rows as nat,
        ) + ", fps: "@ + text::decimal(self.framerate as nat) + ", render_time: "@ + text::decimal(
            self.render_time_ms as nat,
        ) + "ms) -->\n<svg xmlns=\"http://www.w3.org/2000/svg\" viewBox=\"0 0 "@ + text::decimal(
            self.canvas_w as nat,
        ) + " "@ + text::decimal(self.canvas_h as nat) + "\" width=\""@ + text::decimal(
            self.canvas_w as nat,
        ) + "\" height=\""@ + text::decimal(self.canvas_h as nat) + "\" font-family=\""@
            + text::escaped_attr(self.font_family@) + "\" font-size=\""@ + single::shortest_text(
            self.font_size as int,
        ) + "\" xml:space=\"preserve\">\n"@ + with_rules(
            self.style_block@,
            extra_css(self.is_static, self.letter_spacing, self.default_fg(), self.classes()),
        )
    }

    /// Whether the canvas can be seen around or behind the frame.
    pub open spec fn shows_canvas(&self) -> bool {
        self.frame_clip_path is Some || self.frame_bg_x != 0 || self.frame_bg_y != 0
            || self.frame_bg_w != self.canvas_w || self.frame_bg_h != self.canvas_h
            || self.frame_bg_fill != self.canvas_bg
    }

    /// The canvas, the clip path of the frame and the frame itself.
    pub open spec fn frame(&self) -> Seq<char> {
        (if self.shows_canvas() {
            "<rect width=\""@ + text::decimal(self.canvas_w as nat) + "\" height=\""@
                + text::decimal(self.canvas_h as nat) + "\" fill=\""@ + style::hex(self.canvas_bg)
                + "\"/>\n"@
        } else {
            ""@
        }) + (match self.frame_clip_path {
            Some((x, y, w, h, r)) => "<defs><clipPath id=\"frame-clip\"><rect x=\""@
                + text::decimal(x as nat) + "\" y=\""@ + text::decimal(y as nat) + "\" width=\""@
                + text::decimal(w as nat) + "\" height=\""@ + text::decimal(h as nat) + "\" rx=\""@
                + text::decimal(r as nat) + "\" ry=\""@ + text::decimal(r as nat)
                + "\"/></clipPath></defs>"@,
            None => ""@,
        }) + "<rect "@ + (if self.frame_bg_x != 0 {
            "x=\""@ + text::decimal(self.frame_bg_x as nat) + "\" "@
        } else {
            ""@
        }) + (if self.frame_bg_y != 0 {
            "y=\""@ + text::decimal(self.frame_bg_y as nat) + "\" "@
        } else {
            ""@
        }) + "width=\""@ + text::decimal(self.frame_bg_w as nat) + "\" height=\""@ + text::decimal(
            self.frame_bg_h as nat,
        ) + "\" fill=\""@ + style::hex(self.frame_bg_fill) + "\""@ + text_markup::word(
            self.frame_clip_path is Some,
            " clip-path=\"url(#frame-clip)\""@,
            ""@,
        ) + "/>\n"@
    }

    /// The size of the title: as given, or what fits the bar, but not below 12.
    pub open spec fn title_size(&self) -> int {
        match self.window_bar_font_size {
            Some(s) => s as int,
            None => {
                let s = single::single(self.bar_h * TITLE_PART);
                if s < 12 * ONE {
                    12 * ONE
                } else {
                    s
                }
            },
        }
    }

    /// The title of one segment of time.
    pub open spec fn title_svg(&self, s: TitleSegmentView) -> Seq<char> {
        "<text x=\""@ + text::decimal((self.frame_bg_x + self.frame_bg_w / 2) as nat) + "\" y=\""@
            + text::decimal((self.frame_bg_y + self.bar_h / 2) as nat)
            + "\" fill=\"#626268\" text-anchor=\"middle\" dominant-baseline=\"central\" font-size=\""@
            + single::fixed_text(self.title_size(), 3) + "\""@ + (
        match self.window_bar_font_family {
            Some(f) => " font-family=\""@ + text::escaped_attr(f@) + "\""@,
            None => ""@,
        }) + " font-weight=\"normal\""@ + (if self.is_static {
            ">"@
        } else {
            " class=\"h\">"@ + markup::visibility_text(
                s.start_ms,
                s.end_ms,
                timer_ms(self.master_timer_dur),
            )
        }) + text::escaped_text(s.title) + "</text>\n"@
    }

    pub open spec fn titles_svg(&self, v: Seq<TitleSegmentView>) -> Seq<char>
        decreases v.len(),
    {
        if v.len() == 0 {
            ""@
        } else {
            self.titles_svg(v.drop_last()) + self.title_svg(v.last())
        }
    }

    /// The window bar with its dots and titles.
    pub open spec fn bar(&self) -> Seq<char> {
        circles_svg(self.window_bar_circles@) + (if self.window_bar_circles@.len() > 0 && self.bar_h
            > 0 {
            self.titles_svg(sort::views(self.title_segments@))
        } else {
            ""@
        })
    }

    /// The master timer, which repeats for ever. Each of its runs lasts as long as the
    /// recording and begins where the one before it ends, so that what is timed by its
    /// begin starts anew in each of them.
    pub open spec fn timer(&self) -> Seq<char> {
        if self.is_static {
            ""@
        } else {
            "<animate id=\"t\" attributeName=\"x\" from=\"0\" to=\"0\" dur=\""@
                + single::fixed_text(self.master_timer_dur as int, 3)
                + "\" repeatCount=\"indefinite\" repeatDur=\""@ + single::fixed_text(
                self.master_timer_dur as int,
                3,
            ) + "\" begin=\"0s;t.end\"/>\n"@
        }
    }

    /// Backgrounds, underlines and text, in the order in which they are drawn.
    pub open spec fn content(
        &self,
        rects: Seq<BgRectView>,
        strokes: Seq<BgRectView>,
        lines: Seq<TextElementView>,
    ) -> Seq<char> {
        let total_ms = timer_ms(self.master_timer_dur);
        rects_svg(rects, self.classes(), total_ms) + rects_svg(strokes, self.classes(), total_ms)
            + rows_svg(lines, self.classes(), total_ms, self.letter_spacing, self.default_fg())
    }

    /// What the window holds. In a static document everything is drawn as it stands,
    /// without any animation.
    pub open spec fn body(&self) -> Seq<char> {
        let total_ms = timer_ms(self.master_timer_dur);
        if self.is_static {
            self.content(
                still::still_rects(self.rects()),
                still::still_rects(self.strokes()),
                still::still_rows(self.lines()),
            ) + overlay::still_cursors_svg(self.cursor_rects@) + overlay::still_mice_svg(
                self.mouse_spans@,
            )
        } else {
            self.content(self.rects(), self.strokes(), self.lines()) + overlay::cursors_svg(
                self.cursor_rects@,
                total_ms,
            ) + overlay::mouse_svg(self.mouse_spans@, total_ms)
        }
    }

    /// The whole document.
    pub open spec fn svg(&self) -> Seq<char> {
        self.head() + self.frame() + self.bar() + self.timer() + self.body() + "\n</svg>\n"@
    }

    /// Whether every number of the document can be printed.
    pub open spec fn printable(&self) -> bool {
        let total_ms = timer_ms(self.master_timer_dur);
        &&& markup::in_range(self.font_size as int)
        &&& markup::in_range(self.letter_spacing as int)
        &&& markup::in_range(self.master_timer_dur as int)
        &&& self.window_bar_font_size matches Some(s) ==> markup::in_range(s as int)
        &&& self.bar_h <= CELL_LIMIT
        &&& self.frame_bg_x + self.frame_bg_w / 2 <= u32::MAX
        &&& self.frame_bg_y + self.bar_h / 2 <= u32::MAX
        &&& block_fits(self.style_block@)
        &&& forall|i: int|
            0 <= i < self.rects().len() ==> text_markup::motion_printable(
                (#[trigger] self.rects()[i]).y_animation,
            )
        &&& forall|i: int|
            0 <= i < self.strokes().len() ==> text_markup::motion_printable(
                (#[trigger] self.strokes()[i]).y_animation,
            )
        &&& forall|i: int|
            0 <= i < self.lines().len() ==> text_markup::row_printable(#[trigger] self.lines()[i])
        &&& overlay::mouse_printable(self.mouse_spans@)
        &&& self.mouse_spans@.len() > 0 ==> sort::distinct_ascending(
            overlay::mouse_moments(self.mouse_spans@, total_ms),
        ).len() >= 2
    }

    fn format_head(&self, default_fg: Option<Rgb>, classes: &ColorClasses) -> (out: String)
        requires
            self.printable(),
            default_fg == self.default_fg(),
            classes@ == self.classes(),
        ensures
            out@ == self.head(),
    {
        let css: String = format_css(self.is_static, self.letter_spacing, default_fg, classes);
        let w: String = decimal_text(self.canvas_w as u128);
        let h: String = decimal_text(self.canvas_h as u128);
        let mut out: String =
            "<?xml version=\"1.0\" encoding=\"UTF-8\"?>\n<!-- Created with EVP v".to_string();
        out.append(self.version.as_str());
        out.append(" (sha: ");
        out.append(self.revision.as_str());
        out.append(", frames: ");
        out.append(decimal_text(self.total_frames as u128).as_str());
        out.append(", cols: ");
        out.append(decimal_text(self.cols as u128).as_str());
        out.append(", rows: ");
        out.append(decimal_text(self.rows as u128).as_str());
        out.append(", fps: ");
        out.append(decimal_text(self.framerate as u128).as_str());
        out.append(", render_time: ");
        out.append(decimal_text(self.render_time_ms).as_str());
        out.append("ms) -->\n<svg xmlns=\"http://www.w3.org/2000/svg\" viewBox=\"0 0 ");
        out.append(w.as_str());
        out.append(" ");
        out.append(h.as_str());
        out.append("\" width=\"");
        out.append(w.as_str());
        out.append("\" height=\"");
        out.append(h.as_str());
        out.append("\" font-family=\"");
        out.append(escape_attr(self.font_family.as_str()).as_str());
        out.append("\" font-size=\"");
        out.append(format_shortest(self.font_size).as_str());
        out.append("\" xml:space=\"preserve\">\n");
        out.append(add_rules(self.style_block.as_str(), css.as_str()).as_str());
        out
    }

    fn format_frame(&self) -> (out: String)
        ensures
            out@ == self.frame(),
    {
        let shows: bool = self.frame_clip_path.is_some() || self.frame_bg_x != 0 || self.frame_bg_y
            != 0 || self.frame_bg_w != self.canvas_w || self.frame_bg_h != self.canvas_h
            || !same_rgb(self.frame_bg_fill, self.canvas_bg);
        let mut out: String = "".to_string();
        if shows {
            out = "<rect width=\"".to_string();
            out.append(decimal_text(self.canvas_w as u128).as_str());
            out.append("\" height=\"");
            out.append(decimal_text(self.canvas_h as u128).as_str());
            out.append("\" fill=\"");
            out.append(rgb_hex(self.canvas_bg).as_str());
            out.append("\"/>\n");
        }
        let mut clip: String = "".to_string();
        match self.frame_clip_path {
            Some((x, y, w, h, r)) => {
                clip = "<defs><clipPath id=\"frame-clip\"><rect x=\"".to_string();
                clip.append(decimal_text(x as u128).as_str());
                clip.append("\" y=\"");
                clip.append(decimal_text(y as u128).as_str());
                clip.append("\" width=\"");
                clip.append(decimal_text(w as u128).as_str());
                clip.append("\" height=\"");
                clip.append(decimal_text(h as u128).as_str());
                clip.append("\" rx=\"");
                clip.append(decimal_text(r as u128).as_str());
                clip.append("\" ry=\"");
                clip.append(decimal_text(r as u128).as_str());
                clip.append("\"/></clipPath></defs>");
            },
            None => {},
        }
        let mut x: String = "".to_string();
        if self.frame_bg_x != 0 {
            x = "x=\"".to_string();
            x.append(decimal_text(self.frame_bg_x as u128).as_str());
            x.append("\" ");
        }
        let mut y: String = "".to_string();
        if self.frame_bg_y != 0 {
            y = "y=\"".to_string();
            y.append(decimal_text(self.frame_bg_y as u128).as_str());
            y.append("\" ");
        }
        out.append(clip.as_str());
        out.append("<rect ");
        out.append(x.as_str());
        out.append(y.as_str());
        out.append("width=\"");
        out.append(decimal_text(self.frame_bg_w as u128).as_str());
        out.append("\" height=\"");
        out.append(decimal_text(self.frame_bg_h as u128).as_str());
        out.append("\" fill=\"");
        out.append(rgb_hex(self.frame_bg_fill).as_str());
        out.append("\"");
        out.append(
            if self.frame_clip_path.is_some() {
                " clip-path=\"url(#frame-clip)\""
            } else {
                ""
            },
        );
        out.append("/>\n");
        out
    }

    fn title_font_size(&self) -> (r: Measure)
        requires
            self.printable(),
        ensures
            r == self.title_size(),
            markup::in_range(r as int),
    {
        match self.window_bar_font_size {
            Some(s) => s,
            None => {
                let s: Measure = round_single(self.bar_h as i128 * TITLE_PART);
                if s < 12 * ONE {
                    12 * ONE
                } else {
                    s
                }
            },
        }
    }

    fn format_title(&self, s: &TitleSegment, total_ms: u32) -> (out: String)
        requires
            self.printable(),
            total_ms == timer_ms(self.master_timer_dur),
        ensures
            out@ == self.title_svg(s@),
    {
        let mut family: String = "".to_string();
        match &self.window_bar_font_family {
            Some(f) => {
                family = " font-family=\"".to_string();
                family.append(escape_attr(f.as_str()).as_str());
                family.append("\"");
            },
            None => {},
        }
        let mut shown: String = ">".to_string();
        if !self.is_static {
            shown = " class=\"h\">".to_string();
            shown.append(visibility_set(s.start_ms, s.end_ms, total_ms).as_str());
        }
        let mut out: String = "<text x=\"".to_string();
        out.append(decimal_text((self.frame_bg_x + self.frame_bg_w / 2) as u128).as_str());
        out.append("\" y=\"");
        out.append(decimal_text((self.frame_bg_y + self.bar_h / 2) as u128).as_str());
        out.append(
            "\" fill=\"#626268\" text-anchor=\"middle\" dominant-baseline=\"central\" font-size=\"",
        );
        out.append(format_seconds(self.title_font_size()).as_str());
        out.append("\"");
        out.append(family.as_str());
        out.append(" font-weight=\"normal\"");
        out.append(shown.as_str());
        out.append(escape_text(s.title.as_str()).as_str());
        out.append("</text>\n");
        out
    }

    fn format_bar(&self, total_ms: u32) -> (out: String)
        requires
            self.printable(),
            total_ms == timer_ms(self.master_timer_dur),
        ensures
            out@ == self.bar(),
    {
        let mut titles: String = "".to_string();
        if self.window_bar_circles.len() > 0 && self.bar_h > 0 {
            let ghost all = sort::views(self.title_segments@);
            let mut i: usize = 0;
            while i < self.title_segments.len()
                invariant
                    self.printable(),
                    total_ms == timer_ms(self.master_timer_dur),
                    all == sort::views(self.title_segments@),
                    i <= self.title_segments@.len(),
                    titles@ == self.titles_svg(all.take(i as int)),
                decreases self.title_segments@.len() - i,
            {
                assert(all.take(i + 1).drop_last() =~= all.take(i as int));
                assert(all.take(i + 1).last() == self.title_segments@[i as int]@);
                titles.append(self.format_title(&self.title_segments[i], total_ms).as_str());
                i = i + 1;
            }
            assert(all.take(all.len() as int) =~= all);
        }
        let mut out: String = format_circles(&self.window_bar_circles);
        out.append(titles.as_str());
        out
    }

    fn format_timer(&self) -> (out: String)
        requires
            self.printable(),
        ensures
            out@ == self.timer(),
    {
        if self.is_static {
            "".to_string()
        } else {
            let mut out: String =
                "<animate id=\"t\" attributeName=\"x\" from=\"0\" to=\"0\" dur=\"".to_string();
            out.append(format_seconds(self.master_timer_dur).as_str());
            out.append("\" repeatCount=\"indefinite\" repeatDur=\"");
            out.append(format_seconds(self.master_timer_dur).as_str());
            out.append("\" begin=\"0s;t.end\"/>\n");
            out
        }
    }

    fn format_content(
        &self,
        rects: &Vec<BgRect>,
        strokes: &Vec<BgRect>,
        lines: &Vec<TextElement>,
        classes: &ColorClasses,
        default_fg: Option<Rgb>,
    ) -> (out: String)
        requires
            self.printable(),
            default_fg == self.default_fg(),
            classes@ == self.classes(),
            forall|i: int|
                0 <= i < rects@.len() ==> text_markup::motion_printable(
                    (#[trigger] sort::views(rects@)[i]).y_animation,
                ),
            forall|i: int|
                0 <= i < strokes@.len() ==> text_markup::motion_printable(
                    (#[trigger] sort::views(strokes@)[i]).y_animation,
                ),
            forall|i: int|
                0 <= i < lines@.len() ==> text_markup::row_printable(
                    #[trigger] sort::views(lines@)[i],
                ),
        ensures
            out@ == self.content(
                sort::views(rects@),
                sort::views(strokes@),
                sort::views(lines@),
            ),
    {
        let total_ms: u32 = timer_millis(self.master_timer_dur);
        let mut out: String = format_rects(rects, classes, total_ms);
        out.append(format_rects(strokes, classes, total_ms).as_str());
        out.append(format_rows(lines, classes, total_ms, self.letter_spacing, default_fg).as_str());
        out
    }

    fn format_body(&self, classes: &ColorClasses, default_fg: Option<Rgb>) -> (out: String)
        requires
            self.printable(),
            default_fg == self.default_fg(),
            classes@ == self.classes(),
        ensures
            out@ == self.body(),
    {
        let total_ms: u32 = timer_millis(self.master_timer_dur);
        if self.is_static {
            let rects: Vec<BgRect> = freeze_rects(&self.bg_rects);
            let strokes: Vec<BgRect> = freeze_rects(&self.underlines);
            let lines: Vec<TextElement> = freeze_rows(&self.text_elements);
            proof {
                assert(sort::views(lines@).len() == self.lines().len());
                assert(sort::views(rects@).len() == self.rects().len());
                assert(sort::views(strokes@).len() == self.strokes().len());
                assert forall|i: int| 0 <= i < lines@.len() implies text_markup::row_printable(
                    #[trigger] sort::views(lines@)[i],
                ) by {
                    assert(sort::views(lines@)[i] == still::still_row(self.lines()[i]));
                    still::lemma_still_row_printable(self.lines()[i]);
                }
                assert forall|i: int| 0 <= i < rects@.len() implies text_markup::motion_printable(
                    (#[trigger] sort::views(rects@)[i]).y_animation,
                ) by {
                    assert(sort::views(rects@)[i] == still::still_rect(self.rects()[i]));
                }
                assert forall|i: int| 0 <= i < strokes@.len() implies text_markup::motion_printable(
                    (#[trigger] sort::views(strokes@)[i]).y_animation,
                ) by {
                    assert(sort::views(strokes@)[i] == still::still_rect(self.strokes()[i]));
                }
            }
            let mut out: String = self.format_content(
                &rects,
                &strokes,
                &lines,
                classes,
                default_fg,
            );
            out.append(still_cursors_text(&self.cursor_rects).as_str());
            out.append(still_mice_text(&self.mouse_spans).as_str());
            out
        } else {
            proof {
                assert forall|i: int|
                    0 <= i < self.bg_rects@.len() implies text_markup::motion_printable(
                    (#[trigger] sort::views(self.bg_rects@)[i]).y_animation,
                ) by {
                    assert(text_markup::motion_printable(self.rects()[i].y_animation));
                }
                assert forall|i: int|
                    0 <= i < self.underlines@.len() implies text_markup::motion_printable(
                    (#[trigger] sort::views(self.underlines@)[i]).y_animation,
                ) by {
                    assert(text_markup::motion_printable(self.strokes()[i].y_animation));
                }
            }
            let mut out: String = self.format_content(
                &self.bg_rects,
                &self.underlines,
                &self.text_elements,
                classes,
                default_fg,
            );
            out.append(serialize_cursor_rects(&self.cursor_rects, total_ms).as_str());
            out.append(serialize_mouse_elements(&self.mouse_spans, total_ms).as_str());
            out
        }
    }

    /// The whole document.
    pub fn to_svg(&self) -> (out: String)
        requires
            self.printable(),
        ensures
            out@ == self.svg(),
    {
        let total_ms: u32 = timer_millis(self.master_timer_dur);
        let codes: Vec<u32> = collect_text_codes(&self.text_elements);
        let default_code: Option<u32> = find_common(&codes);
        let default_fg: Option<Rgb> = match default_code {
            Some(c) => Some(from_code(c)),
            None => None,
        };
        let mut all: Vec<u32> = collect_fill_codes(&self.bg_rects);
        let mut rest: Vec<u32> = codes;
        all.append(&mut rest);
        assert(all@ =~= self.all_codes());
        let classes: ColorClasses = build_classes(&all, default_code);
        let mut out: String = self.format_head(default_fg, &classes);
        out.append(self.format_frame().as_str());
        out.append(self.format_bar(total_ms).as_str());
        out.append(self.format_timer().as_str());
        out.append(self.format_body(&classes, default_fg).as_str());
        out.append("\n</svg>\n");
        out
    }
}

} // verus!
