//! What is written into a document: numbers and colours that can be read back, and for
//! each background and each run of text its place, its colour and its text.
use vstd::prelude::*;
use vstd::string::*;

use crate::render_svg::document;
use crate::render_svg::document::SvgDoc;
use crate::render_svg::elements::{BgRectView, CursorRect, TitleSegmentView, WindowBarCircle};
use crate::render_svg::fonts;
use crate::render_svg::fonts::{FontData, FontUse};
use crate::render_svg::markup;
use crate::render_svg::optimize;
use crate::render_svg::overlay;
use crate::render_svg::overlay::CursorByStart;
use crate::render_svg::still;
use crate::render_svg::text_markup;
use crate::single;
use crate::single::Measure;
use crate::sort;
use crate::style;
use crate::style::Rgb;
use crate::text;

verus! {

/// The number that decimal digits stand for.
pub open spec fn number_of(s: Seq<char>) -> nat
    decreases s.len(),
{
    if s.len() == 0 {
        0
    } else {
        10 * number_of(s.drop_last()) + (s.last() as u32 - '0' as u32) as nat
    }
}

/// A numeral consists of digits, does not begin with a zero unless it is one, and stands
/// for its number.
pub proof fn lemma_decimal_read(n: nat)
    ensures
        text::decimal(n).len() > 0,
        forall|i: int| 0 <= i < text::decimal(n).len() ==> '0' <= #[trigger] text::decimal(n)[i] <= '9',
        n > 0 ==> text::decimal(n)[0] != '0',
        number_of(text::decimal(n)) == n,
    decreases n,
{
    let s = text::decimal(n);
    reveal_with_fuel(number_of, 2);
    if n < 10 {
        assert(s.drop_last() =~= Seq::<char>::empty());
    } else {
        lemma_decimal_read(n / 10);
        assert(s.drop_last() =~= text::decimal(n / 10));
        assert(s[0] == text::decimal(n / 10)[0]);
    }
}

/// The number that a hexadecimal digit stands for.
pub open spec fn digit_of(c: char) -> int {
    if '0' <= c <= '9' {
        c as u32 - '0' as u32
    } else {
        c as u32 - 'a' as u32 + 10
    }
}

/// A colour is written as a number sign and six hexadecimal digits, two for red, two for
/// green and two for blue.
pub proof fn lemma_color_read(c: Rgb, k: int)
    requires
        0 <= k < 3,
    ensures
        style::hex(c).len() == 7,
        style::hex(c)[0] == '#',
        16 * digit_of(style::hex(c)[1 + 2 * k]) + digit_of(style::hex(c)[2 + 2 * k]) == c[k],
{
    reveal_strlit("#");
    assert(k == 0 || k == 1 || k == 2);
    let b = c[k];
    assert(16 * (b / 16) + b % 16 == b);
    let h = text::hex_byte(b);
    assert(style::hex(c)[1 + 2 * k] == h[0]);
    assert(style::hex(c)[2 + 2 * k] == h[1]);
    assert(digit_of(h[0]) == b / 16);
    assert(digit_of(h[1]) == b % 16);
}

/// Whether `t` is somewhere in `s`.
#[verifier::opaque]
pub open spec fn says(s: Seq<char>, t: Seq<char>) -> bool {
    exists|a: Seq<char>, b: Seq<char>| s == #[trigger] (a + t + b)
}

/// A whole says each of its parts.
pub(crate) proof fn lemma_says(a: Seq<char>, t: Seq<char>, b: Seq<char>)
    ensures
        says(a + t + b, t),
        says(a + t, t),
        says(t + b, t),
{
    reveal(says);
    let none = Seq::<char>::empty();
    assert(a + t =~= a + t + none);
    assert(t + b =~= none + t + b);
}

/// What a part says, the whole says.
pub(crate) proof fn lemma_says_around(a: Seq<char>, s: Seq<char>, b: Seq<char>, t: Seq<char>)
    requires
        says(s, t),
    ensures
        says(a + s + b, t),
        says(a + s, t),
        says(s + b, t),
{
    reveal(says);
    let none = Seq::<char>::empty();
    let (x, y) = choose|x: Seq<char>, y: Seq<char>| s == #[trigger] (x + t + y);
    assert(a + s + b =~= (a + x) + t + (y + b));
    assert(a + s =~= (a + x) + t + y);
    assert(s + b =~= x + t + (y + b));
}

pub(crate) proof fn lemma_says_through(s: Seq<char>, t: Seq<char>, u: Seq<char>)
    requires
        says(s, t),
        says(t, u),
    ensures
        says(s, u),
{
    reveal(says);
    let (x, y) = choose|x: Seq<char>, y: Seq<char>| s == #[trigger] (x + t + y);
    lemma_says_around(x, t, y, u);
}

/// Whether an attribute gives something a colour in a document: as its fill, or as a class
/// that a rule of the document fills with it.
pub open spec fn gives_color(doc: SvgDoc, attribute: Seq<char>, c: Rgb) -> bool {
    ||| attribute == " fill=\""@ + style::hex(c)
    ||| exists|k: Seq<char>|
        attribute == " class=\""@ + k && #[trigger] rule_written(doc, k, c)
}

/// Whether a document has a rule by which a class is filled with a colour.
pub open spec fn rule_written(doc: SvgDoc, k: Seq<char>, c: Rgb) -> bool {
    says(doc.svg(), "."@ + k + " { fill: "@ + style::hex(c) + "; }\n"@)
}

proof fn lemma_class_from(classes: Seq<(Rgb, Seq<char>)>, c: Rgb, i: int)
    requires
        0 <= i,
    ensures
        match text_markup::class_from(classes, c, i) {
            Some(k) => exists|n: int|
                i <= n < classes.len() && (#[trigger] classes[n]).0 == c && classes[n].1 == k,
            None => forall|n: int| i <= n < classes.len() ==> (#[trigger] classes[n]).0 != c,
        },
    decreases classes.len() - i,
{
    if i < classes.len() && classes[i].0 != c {
        lemma_class_from(classes, c, i + 1);
    }
}

proof fn lemma_class_rule(classes: Seq<(Rgb, Seq<char>)>, n: int)
    requires
        0 <= n < classes.len(),
    ensures
        says(
            document::class_rules(classes),
            "."@ + classes[n].1 + " { fill: "@ + style::hex(classes[n].0) + "; }\n"@,
        ),
    decreases classes.len(),
{
    let d = classes.drop_last();
    let rule = "."@ + classes[n].1 + " { fill: "@ + style::hex(classes[n].0) + "; }\n"@;
    let last = "."@ + classes.last().1 + " { fill: "@ + style::hex(classes.last().0) + "; }\n"@;
    let before = document::class_rules(d);
    assert(document::class_rules(classes) =~= before + last);
    if n < d.len() {
        lemma_class_rule(d, n);
        assert(d[n] == classes[n]);
        lemma_says_around(before, before, last, rule);
    } else {
        lemma_says(before, last, last);
    }
}

/// What the style sheet says, the document says.
pub(crate) proof fn lemma_sheet_written(doc: SvgDoc, rule: Seq<char>)
    requires
        says(
            document::with_rules(
                doc.style_block@,
                document::extra_css(
                    doc.is_static,
                    doc.letter_spacing,
                    doc.default_fg(),
                    doc.classes(),
                ),
            ),
            rule,
        ),
    ensures
        says(doc.svg(), rule),
{
    let sheet = document::with_rules(
        doc.style_block@,
        document::extra_css(doc.is_static, doc.letter_spacing, doc.default_fg(), doc.classes()),
    );
    let front = "<?xml version=\"1.0\" encoding=\"UTF-8\"?>\n<!-- Created with EVP v"@ + doc.version@
        + " (sha: "@ + doc.revision@ + ", frames: "@ + text::decimal(doc.total_frames as nat)
        + ", cols: "@ + text::decimal(doc.cols as nat) + ", rows: "@ + text::decimal(
        doc.rows as nat,
    ) + ", fps: "@ + text::decimal(doc.framerate as nat) + ", render_time: "@ + text::decimal(
        doc.render_time_ms as nat,
    ) + "ms) -->\n<svg xmlns=\"http://www.w3.org/2000/svg\" viewBox=\"0 0 "@ + text::decimal(
        doc.canvas_w as nat,
    ) + " "@ + text::decimal(doc.canvas_h as nat) + "\" width=\""@ + text::decimal(
        doc.canvas_w as nat,
    ) + "\" height=\""@ + text::decimal(doc.canvas_h as nat) + "\" font-family=\""@
        + text::escaped_attr(doc.font_family@) + "\" font-size=\""@ + single::shortest_text(
        doc.font_size as int,
    ) + "\" xml:space=\"preserve\">\n"@;
    lemma_says_around(front, sheet, sheet, rule);
    assert(doc.head() == front + sheet);
    lemma_parts_written(
        doc.head(),
        doc.frame(),
        doc.bar(),
        doc.timer(),
        doc.body(),
        "\n</svg>\n"@,
    );
    lemma_says_through(doc.svg(), doc.head(), rule);
}

proof fn lemma_parts_written(
    a: Seq<char>,
    b: Seq<char>,
    c: Seq<char>,
    d: Seq<char>,
    e: Seq<char>,
    f: Seq<char>,
)
    ensures
        says(a + b + c + d + e + f, a),
        says(a + b + c + d + e + f, b),
        says(a + b + c + d + e + f, c),
        says(a + b + c + d + e + f, d),
        says(a + b + c + d + e + f, e),
{
    let s = a + b + c + d + e + f;
    lemma_says(a, a, b + c + d + e + f);
    assert(s =~= a + (b + c + d + e + f));
    lemma_says(a, b, c + d + e + f);
    assert(s =~= a + b + (c + d + e + f));
    lemma_says(a + b, c, d + e + f);
    assert(s =~= a + b + c + (d + e + f));
    lemma_says(a + b + c, d, e + f);
    assert(s =~= a + b + c + d + (e + f));
    lemma_says(a + b + c + d, e, f);
}

/// The rules of the classes are in the document.
pub(crate) proof fn lemma_rules_written(doc: SvgDoc, k: Seq<char>, c: Rgb)
    requires
        text_markup::class_of(doc.classes(), c) == Some(k),
    ensures
        rule_written(doc, k, c),
{
    let classes = doc.classes();
    lemma_class_from(classes, c, 0);
    let n = choose|n: int|
        0 <= n < classes.len() && (#[trigger] classes[n]).0 == c && classes[n].1 == k;
    lemma_class_rule(classes, n);
    let rule = "."@ + k + " { fill: "@ + style::hex(c) + "; }\n"@;
    let css = document::extra_css(doc.is_static, doc.letter_spacing, doc.default_fg(), classes);
    lemma_css(doc.is_static, doc.letter_spacing, doc.default_fg(), classes, rule);
    lemma_sheet(doc.style_block@, css, rule);
    lemma_sheet_written(doc, rule);
}

/// What the rules of the classes say, the document's own rules say.
proof fn lemma_css(
    is_static: bool,
    spacing: Measure,
    default_fg: Option<Rgb>,
    classes: Seq<(Rgb, Seq<char>)>,
    rule: Seq<char>,
)
    requires
        says(document::class_rules(classes), rule),
    ensures
        says(document::extra_css(is_static, spacing, default_fg, classes), rule),
{
    let css = document::extra_css(is_static, spacing, default_fg, classes);
    let rules = document::class_rules(classes);
    let front = css.take(css.len() - rules.len());
    assert(css =~= front + rules);
    lemma_says_around(front, rules, rules, rule);
}

pub(crate) proof fn lemma_sheet(block: Seq<char>, rules: Seq<char>, rule: Seq<char>)
    requires
        says(rules, rule),
    ensures
        says(document::with_rules(block, rules), rule),
{
    if document::ends_with(block, document::style_end()) {
        lemma_says_around(block.take(block.len() - 10), rules, document::style_end(), rule);
    } else {
        lemma_says_around(block + "<style>\n"@, rules, document::style_end(), rule);
    }
}

/// The tag of a background, up to its colour.
pub open spec fn rect_tag(r: BgRectView, attribute: Seq<char>) -> Seq<char> {
    "<rect x=\""@ + text::decimal(r.x as nat) + "\" y=\""@ + text::decimal(r.y as nat)
        + "\" width=\""@ + text::decimal(r.w as nat) + "\" height=\""@ + text::decimal(r.h as nat)
        + "\""@ + attribute
}

proof fn lemma_rects_written(
    v: Seq<BgRectView>,
    classes: Seq<(Rgb, Seq<char>)>,
    total_ms: u32,
    i: int,
)
    requires
        0 <= i < v.len(),
    ensures
        says(document::rects_svg(v, classes, total_ms), document::rect_svg(v[i], classes, total_ms)),
    decreases v.len(),
{
    let d = v.drop_last();
    let before = document::rects_svg(d, classes, total_ms);
    let last = document::rect_svg(v.last(), classes, total_ms);
    if i < d.len() {
        lemma_rects_written(d, classes, total_ms, i);
        lemma_says_around(before, before, last, document::rect_svg(v[i], classes, total_ms));
    } else {
        lemma_says(before, last, last);
    }
}

/// A rectangle is written as its tag and something behind it.
proof fn lemma_rect_tag(r: BgRectView, classes: Seq<(Rgb, Seq<char>)>, total_ms: u32)
    ensures
        match text_markup::class_of(classes, r.fill) {
            Some(k) => says(
                document::rect_svg(r, classes, total_ms),
                rect_tag(r, " class=\""@ + k),
            ),
            None => says(
                document::rect_svg(r, classes, total_ms),
                rect_tag(r, " fill=\""@ + style::hex(r.fill)),
            ),
        },
{
    let visible = markup::always_visible(r.start_ms, r.end_ms, total_ms);
    let clip = match r.clip_path {
        Some(p) => " clip-path=\"url(#"@ + p + ")\""@,
        None => ""@,
    };
    let end = if visible {
        "/>"@
    } else {
        ">"@ + markup::visibility_text(r.start_ms, r.end_ms, total_ms) + text_markup::motion_svg(
            r.y_animation,
        ) + "</rect>"@
    };
    let front = "<rect x=\""@ + text::decimal(r.x as nat) + "\" y=\""@ + text::decimal(r.y as nat)
        + "\" width=\""@ + text::decimal(r.w as nat) + "\" height=\""@ + text::decimal(r.h as nat)
        + "\""@;
    match text_markup::class_of(classes, r.fill) {
        Some(k) => {
            let w = text_markup::word(visible, "\""@, " h\""@);
            lemma_tag(front, " class=\""@ + k, w, clip, end);
        },
        None => {
            let w = text_markup::word(visible, "\""@, "\" class=\"h\""@);
            lemma_tag(front, " fill=\""@ + style::hex(r.fill), w, clip, end);
        },
    }
}

proof fn lemma_tag(a: Seq<char>, b: Seq<char>, c: Seq<char>, d: Seq<char>, e: Seq<char>)
    ensures
        says(a + (b + c) + d + e, a + b),
{
    lemma_says(a, a + b, c + d + e);
    assert(a + (b + c) + d + e =~= (a + b) + (c + d + e));
}

/// The content of a document that is not static is in it.
pub(crate) proof fn lemma_content_written(doc: SvgDoc)
    requires
        !doc.is_static,
    ensures
        says(
            doc.svg(),
            document::rects_svg(
                doc.rects(),
                doc.classes(),
                document::timer_ms(doc.master_timer_dur),
            ),
        ),
        says(
            doc.svg(),
            document::rects_svg(
                doc.strokes(),
                doc.classes(),
                document::timer_ms(doc.master_timer_dur),
            ),
        ),
        says(
            doc.svg(),
            document::rows_svg(
                doc.lines(),
                doc.classes(),
                document::timer_ms(doc.master_timer_dur),
                doc.letter_spacing,
                doc.default_fg(),
            ),
        ),
        says(
            doc.svg(),
            overlay::cursors_svg(doc.cursor_rects@, document::timer_ms(doc.master_timer_dur)),
        ),
        says(
            doc.svg(),
            overlay::mouse_svg(doc.mouse_spans@, document::timer_ms(doc.master_timer_dur)),
        ),
{
    let total_ms = document::timer_ms(doc.master_timer_dur);
    let a = document::rects_svg(doc.rects(), doc.classes(), total_ms);
    let b = document::rects_svg(doc.strokes(), doc.classes(), total_ms);
    let c = document::rows_svg(
        doc.lines(),
        doc.classes(),
        total_ms,
        doc.letter_spacing,
        doc.default_fg(),
    );
    let d = overlay::cursors_svg(doc.cursor_rects@, total_ms);
    let e = overlay::mouse_svg(doc.mouse_spans@, total_ms);
    assert(doc.body() == a + b + c + d + e);
    lemma_body(a, b, c, d, e);
    lemma_parts_written(
        doc.head(),
        doc.frame(),
        doc.bar(),
        doc.timer(),
        doc.body(),
        "\n</svg>\n"@,
    );
    lemma_says_through(doc.svg(), doc.body(), a);
    lemma_says_through(doc.svg(), doc.body(), b);
    lemma_says_through(doc.svg(), doc.body(), c);
    lemma_says_through(doc.svg(), doc.body(), d);
    lemma_says_through(doc.svg(), doc.body(), e);
}

proof fn lemma_body(a: Seq<char>, b: Seq<char>, c: Seq<char>, d: Seq<char>, e: Seq<char>)
    ensures
        says(a + b + c + d + e, a),
        says(a + b + c + d + e, b),
        says(a + b + c + d + e, c),
        says(a + b + c + d + e, d),
        says(a + b + c + d + e, e),
{
    lemma_parts_written(a, b, c, d, e, Seq::empty());
    assert(a + b + c + d + e =~= a + b + c + d + e + Seq::<char>::empty());
}

/// Whether a document has the tag of a rectangle, in its colour.
pub open spec fn rect_written(doc: SvgDoc, r: BgRectView) -> bool {
    exists|a: Seq<char>| #[trigger]
        gives_color(doc, a, r.fill) && says(doc.svg(), rect_tag(r, a))
}

/// A document that is not static holds a rectangle for every background and every line
/// under a text: with its place and its size, and in its colour.
pub proof fn lemma_document_writes_rect(doc: SvgDoc, i: int, line: bool)
    requires
        !doc.is_static,
        0 <= i < if line {
            doc.strokes().len()
        } else {
            doc.rects().len()
        },
    ensures
        ({
            let r = if line {
                doc.strokes()[i]
            } else {
                doc.rects()[i]
            };
            rect_written(doc, r)
        }),
{
    lemma_content_written(doc);
    if line {
        lemma_rect_in(doc, doc.strokes(), i);
    } else {
        lemma_rect_in(doc, doc.rects(), i);
    }
}

/// A document that says some rectangles has the tag of each of them.
proof fn lemma_rect_in(doc: SvgDoc, v: Seq<BgRectView>, i: int)
    requires
        0 <= i < v.len(),
        says(
            doc.svg(),
            document::rects_svg(v, doc.classes(), document::timer_ms(doc.master_timer_dur)),
        ),
    ensures
        rect_written(doc, v[i]),
{
    let total_ms = document::timer_ms(doc.master_timer_dur);
    lemma_rects_written(v, doc.classes(), total_ms, i);
    let all = document::rects_svg(v, doc.classes(), total_ms);
    let one = document::rect_svg(v[i], doc.classes(), total_ms);
    lemma_says_through(doc.svg(), all, one);
    lemma_rect_tag(v[i], doc.classes(), total_ms);
    match text_markup::class_of(doc.classes(), v[i].fill) {
        Some(k) => {
            lemma_rules_written(doc, k, v[i].fill);
            let a = " class=\""@ + k;
            lemma_says_through(doc.svg(), one, rect_tag(v[i], a));
            assert(gives_color(doc, a, v[i].fill));
        },
        None => {
            let a = " fill=\""@ + style::hex(v[i].fill);
            lemma_says_through(doc.svg(), one, rect_tag(v[i], a));
            assert(gives_color(doc, a, v[i].fill));
        },
    }
}

/// The content of a static document is in it, at rest.
pub(crate) proof fn lemma_still_content_written(doc: SvgDoc)
    requires
        doc.is_static,
    ensures
        says(
            doc.svg(),
            document::rects_svg(
                still::still_rects(doc.rects()),
                doc.classes(),
                document::timer_ms(doc.master_timer_dur),
            ),
        ),
        says(
            doc.svg(),
            document::rects_svg(
                still::still_rects(doc.strokes()),
                doc.classes(),
                document::timer_ms(doc.master_timer_dur),
            ),
        ),
        says(
            doc.svg(),
            document::rows_svg(
                still::still_rows(doc.lines()),
                doc.classes(),
                document::timer_ms(doc.master_timer_dur),
                doc.letter_spacing,
                doc.default_fg(),
            ),
        ),
        says(doc.svg(), overlay::still_cursors_svg(doc.cursor_rects@)),
        says(doc.svg(), overlay::still_mice_svg(doc.mouse_spans@)),
{
    let total_ms = document::timer_ms(doc.master_timer_dur);
    let a = document::rects_svg(still::still_rects(doc.rects()), doc.classes(), total_ms);
    let b = document::rects_svg(still::still_rects(doc.strokes()), doc.classes(), total_ms);
    let c = document::rows_svg(
        still::still_rows(doc.lines()),
        doc.classes(),
        total_ms,
        doc.letter_spacing,
        doc.default_fg(),
    );
    let d = overlay::still_cursors_svg(doc.cursor_rects@);
    let e = overlay::still_mice_svg(doc.mouse_spans@);
    assert(doc.body() == a + b + c + d + e);
    lemma_body(a, b, c, d, e);
    lemma_parts_written(
        doc.head(),
        doc.frame(),
        doc.bar(),
        doc.timer(),
        doc.body(),
        "\n</svg>\n"@,
    );
    lemma_says_through(doc.svg(), doc.body(), a);
    lemma_says_through(doc.svg(), doc.body(), b);
    lemma_says_through(doc.svg(), doc.body(), c);
    lemma_says_through(doc.svg(), doc.body(), d);
    lemma_says_through(doc.svg(), doc.body(), e);
}

/// A static document holds a rectangle for every background and every line under a text,
/// with its place and its size, and in its colour.
pub proof fn lemma_still_document_writes_rect(doc: SvgDoc, i: int, line: bool)
    requires
        doc.is_static,
        0 <= i < if line {
            doc.strokes().len()
        } else {
            doc.rects().len()
        },
    ensures
        ({
            let r = if line {
                doc.strokes()[i]
            } else {
                doc.rects()[i]
            };
            rect_written(doc, r)
        }),
{
    let v = if line {
        doc.strokes()
    } else {
        doc.rects()
    };
    lemma_still_content_written(doc);
    let s = still::still_rects(v);
    lemma_rect_in(doc, s, i);
    let a = choose|a: Seq<char>| #[trigger]
        gives_color(doc, a, s[i].fill) && says(doc.svg(), rect_tag(s[i], a));
    assert(gives_color(doc, a, v[i].fill));
    assert(rect_tag(v[i], a) == rect_tag(s[i], a));
}

/// How the size and the colour of a cursor are written.
pub open spec fn cursor_look(c: CursorRect) -> Seq<char> {
    " width=\""@ + text::decimal(c.w as nat) + "\" height=\""@ + text::decimal(c.h as nat)
        + "\" fill=\""@ + style::hex(c.fill) + "\" fill-opacity=\"0.7\""@
}

/// A document holds a rectangle with the size and the colour of every cursor; a static one
/// has it at the place of the cursor.
pub proof fn lemma_document_writes_cursor(doc: SvgDoc, i: int)
    requires
        0 <= i < doc.cursor_rects@.len(),
    ensures
        ({
            let c = doc.cursor_rects@[i];
            &&& says(doc.svg(), cursor_look(c))
            &&& doc.is_static ==> says(
                doc.svg(),
                "<rect x=\""@ + text::decimal(c.x as nat) + "\" y=\""@ + text::decimal(c.y as nat)
                    + "\""@ + cursor_look(c) + "/>"@,
            )
        }),
{
    let v = doc.cursor_rects@;
    let c = v[i];
    let look = cursor_look(c);
    if doc.is_static {
        lemma_still_content_written(doc);
        lemma_still_cursors_written(v, i);
        let front = "<rect x=\""@ + text::decimal(c.x as nat) + "\" y=\""@ + text::decimal(
            c.y as nat,
        ) + "\""@;
        lemma_says(front, look, "/>"@);
        lemma_says_through(
            doc.svg(),
            overlay::still_cursors_svg(v),
            overlay::still_cursor_svg(c),
        );
        lemma_says_through(doc.svg(), overlay::still_cursor_svg(c), look);
    } else {
        let total_ms = document::timer_ms(doc.master_timer_dur);
        lemma_content_written(doc);
        lemma_cursors_written(v, i, total_ms);
        lemma_says_through(doc.svg(), overlay::cursors_svg(v, total_ms), look);
    }
}

proof fn lemma_still_cursors_written(v: Seq<CursorRect>, i: int)
    requires
        0 <= i < v.len(),
    ensures
        says(overlay::still_cursors_svg(v), overlay::still_cursor_svg(v[i])),
    decreases v.len(),
{
    let d = v.drop_last();
    let before = overlay::still_cursors_svg(d);
    let last = overlay::still_cursor_svg(v.last());
    if i < d.len() {
        lemma_still_cursors_written(d, i);
        assert(d[i] == v[i]);
        lemma_says_around(before, before, last, overlay::still_cursor_svg(v[i]));
    } else {
        lemma_says(before, last, last);
    }
}

proof fn lemma_cursors_written(v: Seq<CursorRect>, i: int, total_ms: u32)
    requires
        0 <= i < v.len(),
    ensures
        says(overlay::cursors_svg(v, total_ms), cursor_look(v[i])),
{
    overlay::lemma_every_cursor_has_group(v, i);
    let keys = overlay::cursor_keys(v);
    let key = overlay::cursor_key(v[i]);
    let k = choose|k: int| 0 <= k < keys.len() && keys[k] == key;
    lemma_group_written(v, keys, keys.len() as int, total_ms, k);
}

proof fn lemma_group_written(
    v: Seq<CursorRect>,
    keys: Seq<(u32, u32, Rgb)>,
    n: int,
    total_ms: u32,
    k: int,
)
    requires
        0 <= k < n <= keys.len(),
    ensures
        says(overlay::cursor_groups(v, keys, n, total_ms), overlay::cursor_box(keys[k])),
    decreases n,
{
    let before = overlay::cursor_groups(v, keys, n - 1, total_ms);
    let list = sort::sorted::<CursorRect, CursorByStart>(overlay::cursors_like(v, keys[n - 1]));
    let last = overlay::cursor_group_svg(list, keys[n - 1], total_ms);
    if k < n - 1 {
        lemma_group_written(v, keys, n - 1, total_ms, k);
        lemma_says_around(before, before, last, overlay::cursor_box(keys[k]));
    } else {
        lemma_box_written(list, keys[k], total_ms);
        lemma_says_around(before, last, last, overlay::cursor_box(keys[k]));
    }
}

proof fn lemma_box_written(list: Seq<CursorRect>, key: (u32, u32, Rgb), total_ms: u32)
    ensures
        says(overlay::cursor_group_svg(list, key, total_ms), overlay::cursor_box(key)),
{
    let b = sort::distinct_ascending(overlay::cursor_moments(list, total_ms));
    let n = (b.len() - 1) as nat;
    let times = b.drop_last();
    let xs = optimize::changes(markup::paired(times, overlay::cursor_xs(list, b, n)));
    let ys = optimize::changes(markup::paired(times, overlay::cursor_ys(list, b, n)));
    let shown = optimize::changes(markup::paired(times, overlay::cursor_shown(list, b, n)));
    let look = overlay::cursor_box(key);
    let all = overlay::cursor_group_svg(list, key, total_ms);
    if n == 1 && overlay::cursor_state(list, b, 0).2 {
        lemma_says(
            "<rect x=\""@ + text::decimal(overlay::cursor_state(list, b, 0).0 as nat) + "\" y=\""@
                + text::decimal(overlay::cursor_state(list, b, 0).1 as nat) + "\""@,
            look,
            "/>"@,
        );
    } else {
        let front = "<rect"@ + overlay::fixed_attribute(" x=\""@, xs) + overlay::fixed_attribute(
            " y=\""@,
            ys,
        );
        let moves = overlay::number_animation(
            "  <animate attributeName=\"x\""@,
            xs,
            total_ms,
        ) + overlay::number_animation("  <animate attributeName=\"y\""@, ys, total_ms)
            + overlay::shown_animation(shown, total_ms);
        let class = if shown.len() == 1 && shown[0].1 {
            ""@
        } else {
            " class=\"h\""@
        };
        let end = if moves.len() == 0 {
            "/>"@
        } else {
            ">\n"@ + text::joined(moves, "\n"@) + "\n</rect>\n"@
        };
        lemma_says(front, look, class);
        lemma_says_around(front, front + look + class, end, look);
    }
}

/// A document has the size of its canvas, and shows all of it.
pub proof fn lemma_document_sized(doc: SvgDoc)
    ensures
        ({
            let (w, h) = (text::decimal(doc.canvas_w as nat), text::decimal(doc.canvas_h as nat));
            says(
                doc.svg(),
                " viewBox=\"0 0 "@ + w + " "@ + h + "\" width=\""@ + w + "\" height=\""@ + h + "\""@,
            )
        }),
{
    let (w, h) = (text::decimal(doc.canvas_w as nat), text::decimal(doc.canvas_h as nat));
    let front = "<?xml version=\"1.0\" encoding=\"UTF-8\"?>\n<!-- Created with EVP v"@ + doc.version@
        + " (sha: "@ + doc.revision@ + ", frames: "@ + text::decimal(doc.total_frames as nat)
        + ", cols: "@ + text::decimal(doc.cols as nat) + ", rows: "@ + text::decimal(
        doc.rows as nat,
    ) + ", fps: "@ + text::decimal(doc.framerate as nat) + ", render_time: "@ + text::decimal(
        doc.render_time_ms as nat,
    );
    let back = text::escaped_attr(doc.font_family@) + "\" font-size=\""@ + single::shortest_text(
        doc.font_size as int,
    ) + "\" xml:space=\"preserve\">\n"@ + document::with_rules(
        doc.style_block@,
        document::extra_css(doc.is_static, doc.letter_spacing, doc.default_fg(), doc.classes()),
    );
    lemma_size_written(
        front,
        "ms) -->\n<svg xmlns=\"http://www.w3.org/2000/svg\" viewBox=\"0 0 "@,
        w,
        h,
        "\" font-family=\""@,
        text::escaped_attr(doc.font_family@),
        "\" font-size=\""@,
        single::shortest_text(doc.font_size as int),
        "\" xml:space=\"preserve\">\n"@,
        document::with_rules(
            doc.style_block@,
            document::extra_css(
                doc.is_static,
                doc.letter_spacing,
                doc.default_fg(),
                doc.classes(),
            ),
        ),
    );
    lemma_parts_written(
        doc.head(),
        doc.frame(),
        doc.bar(),
        doc.timer(),
        doc.body(),
        "\n</svg>\n"@,
    );
    lemma_says_through(
        doc.svg(),
        doc.head(),
        " viewBox=\"0 0 "@ + w + " "@ + h + "\" width=\""@ + w + "\" height=\""@ + h + "\""@,
    );
}

proof fn lemma_size_written(
    front: Seq<char>,
    open: Seq<char>,
    w: Seq<char>,
    h: Seq<char>,
    a: Seq<char>,
    b: Seq<char>,
    c: Seq<char>,
    d: Seq<char>,
    e: Seq<char>,
    f: Seq<char>,
)
    requires
        open == "ms) -->\n<svg xmlns=\"http://www.w3.org/2000/svg\" viewBox=\"0 0 "@,
        a == "\" font-family=\""@,
    ensures
        says(
            front + open + w + " "@ + h + "\" width=\""@ + w + "\" height=\""@ + h + a + b + c + d
                + e + f,
            " viewBox=\"0 0 "@ + w + " "@ + h + "\" width=\""@ + w + "\" height=\""@ + h + "\""@,
        ),
{
    reveal_strlit("ms) -->\n<svg xmlns=\"http://www.w3.org/2000/svg\" viewBox=\"0 0 ");
    reveal_strlit(" viewBox=\"0 0 ");
    reveal_strlit("\" font-family=\"");
    reveal_strlit("\"");
    let box_text = " viewBox=\"0 0 "@;
    let n = open.len() - box_text.len();
    assert(open =~= open.take(n) + box_text);
    assert(a =~= "\""@ + a.skip(1));
    let size = box_text + w + " "@ + h + "\" width=\""@ + w + "\" height=\""@ + h + "\""@;
    let all = front + open + w + " "@ + h + "\" width=\""@ + w + "\" height=\""@ + h + a + b + c + d
        + e + f;
    lemma_says(front + open.take(n), size, a.skip(1) + b + c + d + e + f);
    assert(all =~= (front + open.take(n)) + size + (a.skip(1) + b + c + d + e + f));
}

/// The frame of a document has its size and is filled with its colour; where the canvas
/// can be seen around it, that has the size of the document and its own colour.
pub proof fn lemma_document_framed(doc: SvgDoc)
    ensures
        says(
            doc.svg(),
            "width=\""@ + text::decimal(doc.frame_bg_w as nat) + "\" height=\""@ + text::decimal(
                doc.frame_bg_h as nat,
            ) + "\" fill=\""@ + style::hex(doc.frame_bg_fill) + "\""@,
        ),
        doc.frame_bg_fill != doc.canvas_bg ==> says(
            doc.svg(),
            "<rect width=\""@ + text::decimal(doc.canvas_w as nat) + "\" height=\""@ + text::decimal(
                doc.canvas_h as nat,
            ) + "\" fill=\""@ + style::hex(doc.canvas_bg) + "\"/>\n"@,
        ),
{
    let fill = "width=\""@ + text::decimal(doc.frame_bg_w as nat) + "\" height=\""@ + text::decimal(
        doc.frame_bg_h as nat,
    ) + "\" fill=\""@ + style::hex(doc.frame_bg_fill) + "\""@;
    let canvas = "<rect width=\""@ + text::decimal(doc.canvas_w as nat) + "\" height=\""@
        + text::decimal(doc.canvas_h as nat) + "\" fill=\""@ + style::hex(doc.canvas_bg)
        + "\"/>\n"@;
    let clip = text_markup::word(
        doc.frame_clip_path is Some,
        " clip-path=\"url(#frame-clip)\""@,
        ""@,
    );
    let defs = match doc.frame_clip_path {
        Some((x, y, w, h, r)) => "<defs><clipPath id=\"frame-clip\"><rect x=\""@ + text::decimal(
            x as nat,
        ) + "\" y=\""@ + text::decimal(y as nat) + "\" width=\""@ + text::decimal(w as nat)
            + "\" height=\""@ + text::decimal(h as nat) + "\" rx=\""@ + text::decimal(r as nat)
            + "\" ry=\""@ + text::decimal(r as nat) + "\"/></clipPath></defs>"@,
        None => ""@,
    };
    let left = if doc.frame_bg_x != 0 {
        "x=\""@ + text::decimal(doc.frame_bg_x as nat) + "\" "@
    } else {
        ""@
    };
    let top = if doc.frame_bg_y != 0 {
        "y=\""@ + text::decimal(doc.frame_bg_y as nat) + "\" "@
    } else {
        ""@
    };
    let around = if doc.shows_canvas() {
        canvas
    } else {
        ""@
    };
    lemma_frame_written(
        around,
        defs + "<rect "@ + left + top,
        fill,
        clip + "/>\n"@,
    );
    lemma_frame_joined(
        around,
        defs,
        "<rect "@,
        left,
        top,
        "width=\""@,
        text::decimal(doc.frame_bg_w as nat),
        "\" height=\""@,
        text::decimal(doc.frame_bg_h as nat),
        "\" fill=\""@,
        style::hex(doc.frame_bg_fill),
        "\""@,
        clip,
        "/>\n"@,
    );
    lemma_parts_written(
        doc.head(),
        doc.frame(),
        doc.bar(),
        doc.timer(),
        doc.body(),
        "\n</svg>\n"@,
    );
    lemma_says_through(doc.svg(), doc.frame(), fill);
    lemma_says_through(doc.svg(), doc.frame(), around);
}

proof fn lemma_frame_written(a: Seq<char>, b: Seq<char>, fill: Seq<char>, end: Seq<char>)
    ensures
        says(a + b + fill + end, a),
        says(a + b + fill + end, fill),
{
    lemma_says(a + b, fill, end);
    lemma_says(a, a, b + fill + end);
    assert(a + b + fill + end =~= a + (b + fill + end));
}

proof fn lemma_frame_joined(
    a: Seq<char>,
    b: Seq<char>,
    c: Seq<char>,
    d: Seq<char>,
    e: Seq<char>,
    f: Seq<char>,
    g: Seq<char>,
    h: Seq<char>,
    i: Seq<char>,
    j: Seq<char>,
    k: Seq<char>,
    l: Seq<char>,
    m: Seq<char>,
    n: Seq<char>,
)
    ensures
        a + b + c + d + e + f + g + h + i + j + k + l + m + n == a + (b + c + d + e) + (f + g + h
            + i + j + k + l) + (m + n),
{
    assert(a + b + c + d + e =~= a + (b + c + d + e));
    let front = a + b + c + d + e;
    assert(front + f + g + h + i + j + k + l =~= front + (f + g + h + i + j + k + l));
    let most = front + f + g + h + i + j + k + l;
    assert(most + m + n =~= most + (m + n));
}

/// A window bar that has dots holds each of its titles, escaped.
pub proof fn lemma_document_writes_title(doc: SvgDoc, i: int)
    requires
        0 <= i < doc.title_segments@.len(),
        doc.window_bar_circles@.len() > 0,
        doc.bar_h > 0,
    ensures
        says(
            doc.svg(),
            text::escaped_text(sort::views(doc.title_segments@)[i].title) + "</text>\n"@,
        ),
{
    let v = sort::views(doc.title_segments@);
    let title = text::escaped_text(v[i].title) + "</text>\n"@;
    lemma_titles_written(doc, v, i);
    let one = doc.title_svg(v[i]);
    let front = one.take(one.len() - title.len());
    assert(one =~= front + title);
    lemma_says(front, title, title);
    lemma_says_through(doc.titles_svg(v), one, title);
    lemma_says_around(
        document::circles_svg(doc.window_bar_circles@),
        doc.titles_svg(v),
        title,
        title,
    );
    lemma_parts_written(
        doc.head(),
        doc.frame(),
        doc.bar(),
        doc.timer(),
        doc.body(),
        "\n</svg>\n"@,
    );
    lemma_says_through(doc.svg(), doc.bar(), title);
}

proof fn lemma_titles_written(doc: SvgDoc, v: Seq<TitleSegmentView>, i: int)
    requires
        0 <= i < v.len(),
    ensures
        says(doc.titles_svg(v), doc.title_svg(v[i])),
    decreases v.len(),
{
    let d = v.drop_last();
    let before = doc.titles_svg(d);
    let last = doc.title_svg(v.last());
    if i < d.len() {
        lemma_titles_written(doc, d, i);
        assert(d[i] == v[i]);
        lemma_says_around(before, before, last, doc.title_svg(v[i]));
    } else {
        lemma_says(before, last, last);
    }
}

/// A dot of the window bar is a circle with its place, its radius and its colour, and all
/// dots are in the document.
pub proof fn lemma_document_writes_dot(doc: SvgDoc, i: int)
    requires
        0 <= i < doc.window_bar_circles@.len(),
        doc.window_bar_circles@[i].fill is Some,
    ensures
        ({
            let c = doc.window_bar_circles@[i];
            says(
                doc.svg(),
                "<circle cx=\""@ + text::decimal(c.cx as nat) + "\" cy=\""@ + text::decimal(
                    c.cy as nat,
                ) + "\" r=\""@ + text::decimal(c.r as nat) + "\" fill=\""@ + style::hex(c.fill->0)
                    + "\"/>"@,
            )
        }),
{
    let v = doc.window_bar_circles@;
    let one = document::circle_svg(v[i]);
    lemma_circles_written(v, i);
    let titles = doc.bar().skip(document::circles_svg(v).len() as int);
    assert(doc.bar() =~= document::circles_svg(v) + titles);
    lemma_says_around(titles, document::circles_svg(v), titles, one);
    lemma_parts_written(
        doc.head(),
        doc.frame(),
        doc.bar(),
        doc.timer(),
        doc.body(),
        "\n</svg>\n"@,
    );
    lemma_says_through(doc.svg(), doc.bar(), one);
}

proof fn lemma_circles_written(v: Seq<WindowBarCircle>, i: int)
    requires
        0 <= i < v.len(),
    ensures
        says(document::circles_svg(v), document::circle_svg(v[i])),
    decreases v.len(),
{
    let d = v.drop_last();
    let before = document::circles_svg(d);
    let last = document::circle_svg(v.last());
    let one = document::circle_svg(v[i]);
    let rest = document::circles_svg(v).skip(before.len() as int);
    assert(document::circles_svg(v) =~= before + rest);
    if i < d.len() {
        lemma_circles_written(d, i);
        assert(d[i] == v[i]);
        lemma_says_around(before, before, rest, one);
    } else {
        let tail = rest.skip(last.len() as int);
        assert(rest =~= last + tail);
        lemma_says(before, last, tail);
        assert(document::circles_svg(v) =~= before + last + tail);
    }
}

/// What is not always visible is made visible from its begin to its end: from the begin
/// of the timer on, if it begins within the first forty milliseconds, and to its end, if
/// it lasts that long. What begins then and lasts to the last fifth of a second is
/// always visible.
pub proof fn lemma_visible(start_ms: u32, end_ms: u32, total_ms: u32)
    ensures
        ({
            let begin = if start_ms <= 40 {
                "t.begin"@
            } else {
                "t.begin+"@ + markup::time_text(start_ms)
            };
            let end = if end_ms < total_ms {
                "t.begin+"@ + markup::time_text(end_ms)
            } else {
                "t.end"@
            };
            markup::visibility_text(start_ms, end_ms, total_ms)
                == "<set attributeName=\"visibility\" to=\"visible\" begin=\""@ + begin + "\" end=\""@
                + end + "\"/>"@
        }),
        markup::always_visible(start_ms, end_ms, total_ms) <==> start_ms <= 40 && end_ms + 200
            >= total_ms,
{
}

/// The rules of every font that is used are in the style block of a document that carries
/// its fonts along.
pub proof fn lemma_used_font_embedded(uses: Seq<FontUse>, data: Seq<FontData>, i: int)
    requires
        0 <= i < uses.len(),
        uses[i].font < data.len(),
    ensures
        says(fonts::style_block_text(uses, data, true), data[uses[i].font as int].css()),
{
    let places = fonts::used_places(uses);
    let font = uses[i].font;
    crate::render_svg::choices::lemma_used_fonts(uses, font);
    assert(uses[i].font == font);
    let k = choose|k: int| 0 <= k < places.len() && places[k] == font;
    lemma_face_written(data, places, places.len() as int, k);
    lemma_says_around(
        "<style>\n"@,
        fonts::faces_css(data, places, places.len() as int),
        "</style>\n"@,
        data[font as int].css(),
    );
}

proof fn lemma_face_written(data: Seq<FontData>, places: Seq<u32>, n: int, k: int)
    requires
        0 <= k < n <= places.len(),
        places[k] < data.len(),
    ensures
        says(fonts::faces_css(data, places, n), data[places[k] as int].css()),
    decreases n,
{
    let before = fonts::faces_css(data, places, n - 1);
    let css = data[places[k] as int].css();
    let last = if places[n - 1] < data.len() {
        data[places[n - 1] as int].css()
    } else {
        ""@
    };
    if k < n - 1 {
        lemma_face_written(data, places, n - 1, k);
        lemma_says_around(before, before, last, css);
    } else {
        lemma_says(before, css, css);
    }
}

} // verus!
