//! What is written into a document for each run of text: its place, its colour, its style
//! and its characters.
use vstd::prelude::*;
use vstd::string::*;

use crate::render_svg::document;
use crate::render_svg::document::SvgDoc;
use crate::render_svg::elements::{TSpanView, TextElementView};
use crate::render_svg::markup;
use crate::render_svg::still;
use crate::render_svg::text_markup;
use crate::render_svg::text_markup::RowContext;
use crate::render_svg::written;
use crate::style;
use crate::style::Rgb;
use crate::text;

verus! {

/// A run, written from its place to its end. `paint` is how it is filled, `names` are its
/// classes, `more` is what else its tag says, and `motion` what stands before its text.
pub open spec fn run_tag(
    s: TSpanView,
    paint: Seq<char>,
    names: Seq<Seq<char>>,
    more: Seq<char>,
    motion: Seq<char>,
) -> Seq<char> {
    "<tspan x=\""@ + text_markup::places_text(s.x_coords) + "\""@ + paint + (if s.bold {
        " font-weight=\"bold\""@
    } else {
        ""@
    }) + (if s.italic {
        " font-style=\"italic\""@
    } else {
        ""@
    }) + (if names.len() == 0 {
        ""@
    } else {
        " class=\""@ + text::joined(names, " "@) + "\""@
    }) + more + ">"@ + motion + text::escaped_text(s.text) + "</tspan>"@
}

/// Whether a run is filled with its colour: by an attribute of its own, by its last class,
/// or because it is the colour that the document gives to all text.
pub open spec fn filled(
    doc: SvgDoc,
    s: TSpanView,
    paint: Seq<char>,
    names: Seq<Seq<char>>,
) -> bool {
    ||| paint == " fill=\""@ + style::hex(s.fg) + "\""@
    ||| paint.len() == 0 && names.len() > 0 && written::rule_written(doc, names.last(), s.fg)
    ||| paint.len() == 0 && written::says(doc.svg(), "fill: "@ + style::hex(s.fg) + "; "@)
}

/// Whether a run is in a document: at its place, in its colour, with its text, and bold,
/// italic and struck out if it is.
pub open spec fn run_written(doc: SvgDoc, s: TSpanView) -> bool {
    exists|paint: Seq<char>, names: Seq<Seq<char>>, more: Seq<char>, motion: Seq<char>|
        filled(doc, s, paint, names) && (s.strikethrough ==> names.contains("s"@))
            && #[trigger] written::says(doc.svg(), run_tag(s, paint, names, more, motion))
}

proof fn lemma_spans_written(
    v: Seq<TSpanView>,
    from: int,
    to: int,
    classes: Seq<(Rgb, Seq<char>)>,
    c: RowContext,
    k: int,
)
    requires
        from <= k < to,
    ensures
        written::says(
            text_markup::spans_text(v, from, to, classes, c),
            text_markup::span_svg(v[k], classes, c, false),
        ),
    decreases to - from,
{
    let before = text_markup::spans_text(v, from, to - 1, classes, c);
    let last = text_markup::span_svg(v[to - 1], classes, c, false);
    let one = text_markup::span_svg(v[k], classes, c, false);
    if k < to - 1 {
        lemma_spans_written(v, from, to - 1, classes, c, k);
        written::lemma_says_around(before, before, last, one);
    } else {
        written::lemma_says(before, last, last);
    }
}

/// A tag, and what is left of it behind its opening.
proof fn lemma_text_tag(
    e: TextElementView,
    from: int,
    to: int,
    classes: Seq<(Rgb, Seq<char>)>,
    c: RowContext,
    k: int,
    shown: Seq<char>,
)
    requires
        from <= k < to,
    ensures
        ({
            let tag = text_markup::text_tag(e, from, to, classes, c);
            let one = text_markup::span_svg(e.tspans[k], classes, c, false);
            &&& written::says(tag, one)
            &&& written::says(text_markup::hidden_tag(tag, shown), one)
        }),
{
    let one = text_markup::span_svg(e.tspans[k], classes, c, false);
    let spans = text_markup::spans_text(e.tspans, from, to, classes, c);
    let motion = text_markup::motion_svg(e.y_animation);
    let tag = text_markup::text_tag(e, from, to, classes, c);
    lemma_spans_written(e.tspans, from, to, classes, c, k);
    lemma_opened(text::decimal(e.y as nat), motion, spans, one, shown);
    written::lemma_decimal_read(e.y as nat);
    assert(tag == "<text y=\""@ + text::decimal(e.y as nat) + "\">"@ + motion + spans
        + "</text>"@);
}

proof fn lemma_opened(
    y: Seq<char>,
    motion: Seq<char>,
    spans: Seq<char>,
    one: Seq<char>,
    shown: Seq<char>,
)
    requires
        written::says(spans, one),
    ensures
        ({
            let tag = "<text y=\""@ + y + "\">"@ + motion + spans + "</text>"@;
            &&& written::says(tag, one)
            &&& (forall|i: int| 0 <= i < y.len() ==> '0' <= #[trigger] y[i] <= '9')
                ==> written::says(text_markup::hidden_tag(tag, shown), one)
        }),
{
    let tag = "<text y=\""@ + y + "\">"@ + motion + spans + "</text>"@;
    written::lemma_says_around("<text y=\""@ + y + "\">"@ + motion, spans, "</text>"@, one);
    if forall|i: int| 0 <= i < y.len() ==> '0' <= #[trigger] y[i] <= '9' {
        reveal_strlit("<text y=\"");
        reveal_strlit("\">");
        let n = 10 + y.len() as int;
        assert("<text y=\""@.len() == 9);
        assert forall|i: int| 0 <= i < n implies tag[i] != '>' by {
            if 9 <= i < 9 + y.len() {
                assert(tag[i] == y[i - 9]);
            } else if i < 9 {
                assert(tag[i] == "<text y=\""@[i]);
            } else {
                assert(tag[i] == "\">"@[0]);
            }
        }
        assert(tag[n] == "\">"@[1]);
        lemma_first_at(tag, '>', 0, n);
        let rest = tag.skip(n + 1);
        assert(rest =~= motion + spans + "</text>"@);
        written::lemma_says_around(motion, spans, "</text>"@, one);
        let front = tag.take(n) + " class=\"h\""@ + ">"@ + shown;
        written::lemma_says_around(front, rest, rest, one);
        assert(text_markup::hidden_tag(tag, shown) == front + rest);
    }
}

proof fn lemma_first_at(s: Seq<char>, c: char, i: int, n: int)
    requires
        0 <= i <= n < s.len(),
        s[n] == c,
        forall|k: int| i <= k < n ==> s[k] != c,
    ensures
        text_markup::first_at(s, c, i) == Some(n),
    decreases n - i,
{
    if i < n {
        lemma_first_at(s, c, i + 1, n);
    }
}

/// Whether a tag is a stretch of a row with run `k` in it.
spec fn holds_run(
    tag: Seq<char>,
    e: TextElementView,
    classes: Seq<(Rgb, Seq<char>)>,
    c: RowContext,
    k: int,
) -> bool {
    exists|from: int, to: int|
        from <= k < to && tag == #[trigger] text_markup::text_tag(e, from, to, classes, c)
}

/// A run without box-drawing characters waits for its tag, or is in one.
proof fn lemma_tags_hold_run(
    e: TextElementView,
    n: int,
    classes: Seq<(Rgb, Seq<char>)>,
    c: RowContext,
    k: int,
)
    requires
        0 <= k < n <= e.tspans.len(),
        !e.tspans[k].is_box,
    ensures
        ({
            let (tags, from) = text_markup::tags_upto(e, n, classes, c);
            from <= k || exists|j: int|
                0 <= j < tags.len() && holds_run(#[trigger] tags[j], e, classes, c, k)
        }),
    decreases n,
{
    reveal(text_markup::flushed);
    let (tags, from) = text_markup::tags_upto(e, n - 1, classes, c);
    let (after, next) = text_markup::tags_upto(e, n, classes, c);
    if n - 1 == 0 || k == n - 1 {
        lemma_from(e, n - 1, classes, c);
    } else {
        lemma_tags_hold_run(e, n - 1, classes, c, k);
        if e.tspans[n - 1].is_box {
            let f = text_markup::flushed(tags, e, from, n - 1, classes, c);
            if from <= k {
                let tag = text_markup::text_tag(e, from, n - 1, classes, c);
                assert(f[tags.len() as int] == tag);
                assert(after[tags.len() as int] == tag);
                assert(holds_run(after[tags.len() as int], e, classes, c, k));
            } else {
                let j = choose|j: int|
                    0 <= j < tags.len() && holds_run(#[trigger] tags[j], e, classes, c, k);
                assert(f[j] == tags[j]);
                assert(after[j] == tags[j]);
            }
        }
    }
}

proof fn lemma_from(e: TextElementView, n: int, classes: Seq<(Rgb, Seq<char>)>, c: RowContext)
    requires
        0 <= n,
    ensures
        0 <= text_markup::tags_upto(e, n, classes, c).1 <= n,
    decreases n,
{
    if n > 0 {
        lemma_from(e, n - 1, classes, c);
    }
}

proof fn lemma_joined_says(parts: Seq<Seq<char>>, j: int)
    requires
        0 <= j < parts.len(),
    ensures
        written::says(text::joined(parts, ""@), parts[j]),
    decreases parts.len(),
{
    let none = Seq::<char>::empty();
    if parts.len() == 1 {
        written::lemma_says(none, parts[0], none);
        assert(none + parts[0] =~= parts[0]);
    } else {
        let before = text::joined(parts.drop_last(), ""@);
        if j < parts.len() - 1 {
            lemma_joined_says(parts.drop_last(), j);
            assert(parts.drop_last()[j] == parts[j]);
            written::lemma_says_around(before, before, ""@ + parts.last(), parts[j]);
            assert(before + ""@ + parts.last() =~= before + (""@ + parts.last()));
        } else {
            written::lemma_says(before + ""@, parts.last(), none);
        }
    }
}

/// A row says each of its runs.
proof fn lemma_row_written(
    e: TextElementView,
    classes: Seq<(Rgb, Seq<char>)>,
    total_ms: u32,
    spacing: crate::single::Measure,
    default_fg: Option<Rgb>,
    k: int,
)
    requires
        0 <= k < e.tspans.len(),
        !e.tspans[k].is_box,
    ensures
        written::says(
            text_markup::row_svg(e, classes, total_ms, spacing, default_fg),
            text_markup::span_svg(
                e.tspans[k],
                classes,
                text_markup::row_context(e, total_ms, spacing, default_fg),
                false,
            ),
        ),
{
    let c = text_markup::row_context(e, total_ms, spacing, default_fg);
    let one = text_markup::span_svg(e.tspans[k], classes, c, false);
    let tags = text_markup::row_tags(e, classes, c);
    let shown = markup::visibility_text(e.start_ms, e.end_ms, total_ms);
    let j = lemma_row_holds_run(e, classes, c, k, shown);
    lemma_joined_says(tags, j);
    let all = text::joined(tags, ""@);
    written::lemma_says_through(all, tags[j], one);
    written::lemma_says_around("<g class=\"h\">"@ + shown, all, "</g>"@, one);
}

/// Some tag of a row says the run `k`, hidden or not.
proof fn lemma_row_holds_run(
    e: TextElementView,
    classes: Seq<(Rgb, Seq<char>)>,
    c: RowContext,
    k: int,
    shown: Seq<char>,
) -> (j: int)
    requires
        0 <= k < e.tspans.len(),
        !e.tspans[k].is_box,
    ensures
        ({
            let tags = text_markup::row_tags(e, classes, c);
            let one = text_markup::span_svg(e.tspans[k], classes, c, false);
            &&& 0 <= j < tags.len()
            &&& written::says(tags[j], one)
            &&& written::says(text_markup::hidden_tag(tags[j], shown), one)
        }),
{
    let n = e.tspans.len() as int;
    let (before, from) = text_markup::tags_upto(e, n, classes, c);
    let tags = text_markup::row_tags(e, classes, c);
    lemma_tags_hold_run(e, n, classes, c, k);
    lemma_flushed(before, e, from, n, classes, c);
    if from <= k {
        lemma_text_tag(e, from, n, classes, c, k, shown);
        before.len() as int
    } else {
        let j = choose|j: int|
            0 <= j < before.len() && holds_run(#[trigger] before[j], e, classes, c, k);
        let (a, b) = choose|a: int, b: int|
            a <= k < b && before[j] == #[trigger] text_markup::text_tag(e, a, b, classes, c);
        lemma_text_tag(e, a, b, classes, c, k, shown);
        assert(tags[j] == before[j]);
        j
    }
}

proof fn lemma_flushed(
    tags: Seq<Seq<char>>,
    e: TextElementView,
    from: int,
    to: int,
    classes: Seq<(Rgb, Seq<char>)>,
    c: RowContext,
)
    ensures
        ({
            let f = text_markup::flushed(tags, e, from, to, classes, c);
            &&& f.len() >= tags.len()
            &&& forall|j: int| 0 <= j < tags.len() ==> #[trigger] f[j] == tags[j]
            &&& from < to ==> f.len() == tags.len() + 1 && f[tags.len() as int]
                == text_markup::text_tag(e, from, to, classes, c)
        }),
{
    reveal(text_markup::flushed);
}

proof fn lemma_rows_written(
    v: Seq<TextElementView>,
    classes: Seq<(Rgb, Seq<char>)>,
    total_ms: u32,
    spacing: crate::single::Measure,
    default_fg: Option<Rgb>,
    i: int,
)
    requires
        0 <= i < v.len(),
    ensures
        written::says(
            document::rows_svg(v, classes, total_ms, spacing, default_fg),
            text_markup::row_svg(v[i], classes, total_ms, spacing, default_fg),
        ),
    decreases v.len(),
{
    let d = v.drop_last();
    let before = document::rows_svg(d, classes, total_ms, spacing, default_fg);
    let last = text_markup::row_svg(v.last(), classes, total_ms, spacing, default_fg);
    if i < d.len() {
        lemma_rows_written(d, classes, total_ms, spacing, default_fg, i);
        written::lemma_says_around(
            before,
            before,
            last,
            text_markup::row_svg(v[i], classes, total_ms, spacing, default_fg),
        );
    } else {
        written::lemma_says(before, last, last);
    }
}

proof fn lemma_run_joined(
    a: Seq<char>,
    b: Seq<char>,
    c: Seq<char>,
    paint: Seq<char>,
    bold: Seq<char>,
    italic: Seq<char>,
    names: Seq<char>,
    more: Seq<char>,
    end: Seq<char>,
    shown: Seq<char>,
    motion: Seq<char>,
    t: Seq<char>,
    close: Seq<char>,
)
    ensures
        a + b + c + paint + (bold + italic) + names + more + end + shown + motion + t + close == a
            + b + c + paint + bold + italic + names + more + end + (shown + motion) + t + close,
{
    assert(a + b + c + paint + (bold + italic) =~= a + b + c + paint + bold + italic);
    let front = a + b + c + paint + bold + italic + names + more + end;
    assert(front + shown + motion =~= front + (shown + motion));
}

/// A run is written as its tag says.
proof fn lemma_run_tag(s: TSpanView, classes: Seq<(Rgb, Seq<char>)>, c: RowContext)
    ensures
        ({
            let hidden = text_markup::span_hidden(s, c.from, c.to, c.total_ms);
            let color = text_markup::class_of(classes, s.fg);
            text_markup::span_svg(s, classes, c, false) == run_tag(
                s,
                text_markup::span_fill(s, color, c.default_fg),
                text_markup::span_classes(s, hidden, color),
                text_markup::attribute_of(
                    " style=\""@,
                    text_markup::span_styles(s, c.spacing, false),
                    "; "@,
                ),
                (if hidden {
                    markup::visibility_text(s.start_ms, s.end_ms, c.total_ms)
                } else {
                    ""@
                }) + text_markup::animations_text(s.style_animations, classes, hidden),
            )
        }),
{
    let hidden = text_markup::span_hidden(s, c.from, c.to, c.total_ms);
    let color = text_markup::class_of(classes, s.fg);
    lemma_run_joined(
        "<tspan x=\""@,
        text_markup::places_text(s.x_coords),
        "\""@,
        text_markup::span_fill(s, color, c.default_fg),
        text_markup::word(s.bold, " font-weight=\"bold\""@, ""@),
        text_markup::word(s.italic, " font-style=\"italic\""@, ""@),
        text_markup::attribute_of(
            " class=\""@,
            text_markup::span_classes(s, hidden, color),
            " "@,
        ),
        text_markup::attribute_of(
            " style=\""@,
            text_markup::span_styles(s, c.spacing, false),
            "; "@,
        ),
        ">"@,
        if hidden {
            markup::visibility_text(s.start_ms, s.end_ms, c.total_ms)
        } else {
            ""@
        },
        text_markup::animations_text(s.style_animations, classes, hidden),
        text::escaped_text(s.text),
        "</tspan>"@,
    );
}

/// The colour that the document gives to all text is in its rules.
proof fn lemma_default_written(doc: SvgDoc, c: Rgb)
    requires
        doc.default_fg() == Some(c),
    ensures
        written::says(doc.svg(), "fill: "@ + style::hex(c) + "; "@),
{
    let rule = "fill: "@ + style::hex(c) + "; "@;
    let css = document::extra_css(
        doc.is_static,
        doc.letter_spacing,
        doc.default_fg(),
        doc.classes(),
    );
    lemma_css_default(doc.is_static, doc.letter_spacing, c, doc.classes());
    written::lemma_sheet(doc.style_block@, css, rule);
    written::lemma_sheet_written(doc, rule);
}

proof fn lemma_css_default(
    is_static: bool,
    spacing: crate::single::Measure,
    c: Rgb,
    classes: Seq<(Rgb, Seq<char>)>,
)
    ensures
        written::says(
            document::extra_css(is_static, spacing, Some(c), classes),
            "fill: "@ + style::hex(c) + "; "@,
        ),
{
    let rule = "fill: "@ + style::hex(c) + "; "@;
    let spacing_rule = if spacing != 0 {
        "letter-spacing: "@ + crate::single::fixed_text(spacing as int, 3) + "px; "@
    } else {
        ""@
    };
    let block = "text { "@ + spacing_rule + rule + " }\n"@;
    written::lemma_says("text { "@ + spacing_rule, rule, " }\n"@);
    let front = text_markup::word(is_static, ""@, ".h { visibility: hidden; }\n"@)
        + ".b { font-weight: bold; }\n.i { font-style: italic; }\n.s { text-decoration: line-through; }\ntext, tspan { font-kerning: none; font-variant-ligatures: none; text-rendering: geometricPrecision; }\n"@;
    written::lemma_says_around(front, block, document::class_rules(classes), rule);
}

/// Every run of text without box-drawing characters is in a document that is not static:
/// with the places of its characters, in its colour, bold, italic and struck out if it is,
/// and with its characters, escaped.
pub proof fn lemma_document_writes_run(doc: SvgDoc, i: int, k: int)
    requires
        !doc.is_static,
        0 <= i < doc.lines().len(),
        0 <= k < doc.lines()[i].tspans.len(),
        !doc.lines()[i].tspans[k].is_box,
    ensures
        run_written(doc, doc.lines()[i].tspans[k]),
{
    written::lemma_content_written(doc);
    lemma_run_in(doc, doc.lines(), i, k);
}

/// Every run of text without box-drawing characters is in a static document too.
pub proof fn lemma_still_document_writes_run(doc: SvgDoc, i: int, k: int)
    requires
        doc.is_static,
        0 <= i < doc.lines().len(),
        0 <= k < doc.lines()[i].tspans.len(),
        !doc.lines()[i].tspans[k].is_box,
    ensures
        run_written(doc, doc.lines()[i].tspans[k]),
{
    let v = still::still_rows(doc.lines());
    let s = doc.lines()[i].tspans[k];
    written::lemma_still_content_written(doc);
    assert(v[i].tspans[k] == still::still_span(s));
    lemma_run_in(doc, v, i, k);
    let q = v[i].tspans[k];
    let (paint, names, more, motion) = choose|
        paint: Seq<char>,
        names: Seq<Seq<char>>,
        more: Seq<char>,
        motion: Seq<char>,
    |
        filled(doc, q, paint, names) && (q.strikethrough ==> names.contains("s"@))
            && #[trigger] written::says(doc.svg(), run_tag(q, paint, names, more, motion));
    assert(run_tag(s, paint, names, more, motion) == run_tag(q, paint, names, more, motion));
    assert(filled(doc, s, paint, names));
}

/// A document that says some rows has the tag of each of their runs.
proof fn lemma_run_in(doc: SvgDoc, v: Seq<TextElementView>, i: int, k: int)
    requires
        0 <= i < v.len(),
        0 <= k < v[i].tspans.len(),
        !v[i].tspans[k].is_box,
        written::says(
            doc.svg(),
            document::rows_svg(
                v,
                doc.classes(),
                document::timer_ms(doc.master_timer_dur),
                doc.letter_spacing,
                doc.default_fg(),
            ),
        ),
    ensures
        run_written(doc, v[i].tspans[k]),
{
    let e = v[i];
    let s = e.tspans[k];
    let total_ms = document::timer_ms(doc.master_timer_dur);
    let c = text_markup::row_context(e, total_ms, doc.letter_spacing, doc.default_fg());
    let classes = doc.classes();
    let rows = document::rows_svg(v, classes, total_ms, doc.letter_spacing, doc.default_fg());
    let row = text_markup::row_svg(e, classes, total_ms, doc.letter_spacing, doc.default_fg());
    let one = text_markup::span_svg(s, classes, c, false);
    lemma_rows_written(v, classes, total_ms, doc.letter_spacing, doc.default_fg(), i);
    lemma_row_written(e, classes, total_ms, doc.letter_spacing, doc.default_fg(), k);
    written::lemma_says_through(doc.svg(), rows, row);
    written::lemma_says_through(doc.svg(), row, one);
    lemma_run_colored(doc, s, c);
}

proof fn lemma_run_colored(doc: SvgDoc, s: TSpanView, c: RowContext)
    requires
        c.default_fg == doc.default_fg(),
        written::says(doc.svg(), text_markup::span_svg(s, doc.classes(), c, false)),
    ensures
        run_written(doc, s),
{
    let hidden = text_markup::span_hidden(s, c.from, c.to, c.total_ms);
    let color = text_markup::class_of(doc.classes(), s.fg);
    let paint = text_markup::span_fill(s, color, c.default_fg);
    let names = text_markup::span_classes(s, hidden, color);
    let more = text_markup::attribute_of(
        " style=\""@,
        text_markup::span_styles(s, c.spacing, false),
        "; "@,
    );
    let motion = (if hidden {
        markup::visibility_text(s.start_ms, s.end_ms, c.total_ms)
    } else {
        ""@
    }) + text_markup::animations_text(s.style_animations, doc.classes(), hidden);
    lemma_run_tag(s, doc.classes(), c);
    reveal_strlit("");
    match color {
        Some(k) => {
            written::lemma_rules_written(doc, k, s.fg);
            assert(names.last() == k);
        },
        None => {
            if doc.default_fg() == Some(s.fg) {
                lemma_default_written(doc, s.fg);
            }
        },
    }
    assert(filled(doc, s, paint, names));
    if s.strikethrough {
        let front = text_markup::piece(s.bold, "b"@) + text_markup::piece(s.italic, "i"@);
        assert(names[front.len() as int] == "s"@);
    }
    assert(written::says(doc.svg(), run_tag(s, paint, names, more, motion)));
}

} // verus!
