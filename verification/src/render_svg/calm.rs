//! Static documents hold no animation.
use vstd::prelude::*;
use vstd::string::*;

use crate::pointer;
use crate::recording::{MouseState, RawFrame};
use crate::render_svg::bounds;
use crate::render_svg::document;
use crate::render_svg::document::SvgDoc;
use crate::render_svg::drawings;
use crate::render_svg::elements::{
    BgRectView, CursorRect, MouseSpan, TSpanView, TextElementView, TitleSegmentView,
    WindowBarCircle,
};
use crate::render_svg::fonts;
use crate::render_svg::layout;
use crate::render_svg::overlay;
use crate::render_svg::render;
use crate::render_svg::render::RenderInput;
use crate::render_svg::shapes;
use crate::render_svg::shapes::Geometry;
use crate::render_svg::still;
use crate::render_svg::text_markup;
use crate::render_svg::text_markup::RowContext;
use crate::single;
use crate::single::Measure;
use crate::sort;
use crate::style;
use crate::style::Rgb;
use crate::text;

verus! {

/// Whether `s` holds `w`.
pub open spec fn holds(s: Seq<char>, w: Seq<char>) -> bool {
    exists|i: int| 0 <= i && i + w.len() <= s.len() && #[trigger] s.subrange(i, i + w.len()) == w
}

/// Whether no element that animates another begins in `s`.
pub open spec fn free(s: Seq<char>) -> bool {
    !holds(s, "<animate"@) && !holds(s, "<set"@)
}

/// Whether `w` may begin at `i`, as far as `s` tells.
spec fn may_begin(s: Seq<char>, i: int, w: Seq<char>) -> bool {
    forall|k: int| 0 <= k < w.len() && i + k < s.len() ==> s[i + k] == #[trigger] w[k]
}

/// Whether no animation begins in `s`, whatever stands behind it.
#[verifier::opaque]
spec fn settled(s: Seq<char>) -> bool {
    forall|i: int|
        0 <= i < s.len() ==> !(#[trigger] may_begin(s, i, "<animate"@)) && !may_begin(
            s,
            i,
            "<set"@,
        )
}

/// Whether the character at `i` shows with the one or two behind it that it does not
/// open an animation.
spec fn calm_at(s: Seq<char>, i: int) -> bool {
    s[i] == '<' ==> {
        &&& i + 1 < s.len()
        &&& s[i + 1] != 'a'
        &&& s[i + 1] == 's' ==> i + 2 < s.len() && s[i + 2] != 'e'
    }
}

#[verifier::opaque]
spec fn calm(s: Seq<char>) -> bool {
    forall|i: int| 0 <= i < s.len() ==> #[trigger] calm_at(s, i)
}

/// Whether `s` opens nothing at all.
spec fn plain(s: Seq<char>) -> bool {
    forall|i: int| 0 <= i < s.len() ==> #[trigger] s[i] != '<'
}

/// Whether `c` occurs in the words that open animations, behind their first character.
spec fn in_words(c: char) -> bool {
    c == 'a' || c == 'n' || c == 'i' || c == 'm' || c == 't' || c == 'e' || c == 's'
}

proof fn lemma_words()
    ensures
        "<animate"@ =~= seq!['<', 'a', 'n', 'i', 'm', 'a', 't', 'e'],
        "<set"@ =~= seq!['<', 's', 'e', 't'],
{
    reveal_strlit("<animate");
    reveal_strlit("<set");
}

proof fn lemma_plain_calm(s: Seq<char>)
    requires
        plain(s),
    ensures
        calm(s),
{
    reveal(calm);
    assert forall|i: int| 0 <= i < s.len() implies #[trigger] calm_at(s, i) by {
        assert(s[i] != '<');
    }
}

proof fn lemma_calm_pair(a: Seq<char>, b: Seq<char>)
    requires
        calm(a),
        calm(b),
    ensures
        calm(a + b),
{
    reveal(calm);
    let s = a + b;
    assert forall|i: int| 0 <= i < s.len() implies #[trigger] calm_at(s, i) by {
        if i < a.len() {
            assert(calm_at(a, i));
        } else {
            assert(calm_at(b, i - a.len()));
        }
    }
}

/// Calm pieces make a calm whole.
proof fn lemma_calm_adds()
    ensures
        forall|a: Seq<char>, b: Seq<char>| calm(a) && calm(b) ==> calm(#[trigger] (a + b)),
{
    assert forall|a: Seq<char>, b: Seq<char>| calm(a) && calm(b) implies calm(
        #[trigger] (a + b),
    ) by {
        lemma_calm_pair(a, b);
    }
}

proof fn lemma_calm_settled(s: Seq<char>)
    requires
        calm(s),
    ensures
        settled(s),
{
    reveal(calm);
    reveal(settled);
    lemma_words();
    let x = "<animate"@;
    let y = "<set"@;
    assert forall|i: int| 0 <= i < s.len() implies !(#[trigger] may_begin(s, i, x)) && !may_begin(
        s,
        i,
        y,
    ) by {
        assert(calm_at(s, i));
        assert(x[0] == '<' && x[1] == 'a');
        assert(y[0] == '<' && y[1] == 's' && y[2] == 'e');
        if may_begin(s, i, x) {
            assert(s[i + 0] == x[0]);
            assert(s[i + 1] == x[1]);
        }
        if may_begin(s, i, y) {
            assert(s[i + 0] == y[0]);
            assert(s[i + 1] == y[1]);
            assert(s[i + 2] == y[2]);
        }
    }
}

proof fn lemma_settled_at(s: Seq<char>, i: int)
    requires
        settled(s),
        0 <= i < s.len(),
    ensures
        !may_begin(s, i, "<animate"@),
        !may_begin(s, i, "<set"@),
{
    reveal(settled);
    assert(!may_begin(s, i, "<animate"@));
}

proof fn lemma_begins_in(a: Seq<char>, b: Seq<char>, i: int, w: Seq<char>)
    requires
        may_begin(a + b, i, w),
    ensures
        0 <= i < a.len() ==> may_begin(a, i, w),
        a.len() <= i ==> may_begin(b, i - a.len(), w),
{
    let s = a + b;
    if 0 <= i < a.len() {
        assert forall|k: int| 0 <= k < w.len() && i + k < a.len() implies a[i + k]
            == #[trigger] w[k] by {
            assert(s[i + k] == w[k]);
        }
    }
    if a.len() <= i {
        let j = i - a.len();
        assert forall|k: int| 0 <= k < w.len() && j + k < b.len() implies b[j + k]
            == #[trigger] w[k] by {
            assert(s[i + k] == w[k]);
        }
    }
}

proof fn lemma_settled_pair(a: Seq<char>, b: Seq<char>)
    requires
        settled(a),
        settled(b),
    ensures
        settled(a + b),
{
    let s = a + b;
    let x = "<animate"@;
    let y = "<set"@;
    assert forall|i: int| 0 <= i < s.len() implies !(#[trigger] may_begin(s, i, x)) && !may_begin(
        s,
        i,
        y,
    ) by {
        if i < a.len() {
            lemma_settled_at(a, i);
        } else {
            lemma_settled_at(b, i - a.len());
        }
        if may_begin(s, i, x) {
            lemma_begins_in(a, b, i, x);
        }
        if may_begin(s, i, y) {
            lemma_begins_in(a, b, i, y);
        }
    }
    reveal(settled);
}

/// Settled pieces make a settled whole.
proof fn lemma_settled_adds()
    ensures
        forall|a: Seq<char>, b: Seq<char>|
            settled(a) && settled(b) ==> settled(#[trigger] (a + b)),
        forall|s: Seq<char>| calm(s) ==> #[trigger] settled(s),
{
    assert forall|a: Seq<char>, b: Seq<char>| settled(a) && settled(b) implies settled(
        #[trigger] (a + b),
    ) by {
        lemma_settled_pair(a, b);
    }
    assert forall|s: Seq<char>| calm(s) implies #[trigger] settled(s) by {
        lemma_calm_settled(s);
    }
}

proof fn lemma_held_begins(s: Seq<char>, w: Seq<char>, i: int)
    requires
        0 <= i,
        i + w.len() <= s.len(),
        s.subrange(i, i + w.len()) == w,
    ensures
        may_begin(s, i, w),
{
    assert forall|k: int| 0 <= k < w.len() && i + k < s.len() implies s[i + k]
        == #[trigger] w[k] by {
        assert(s.subrange(i, i + w.len())[k] == w[k]);
    }
}

proof fn lemma_settled_free(s: Seq<char>)
    requires
        settled(s),
    ensures
        free(s),
{
    lemma_words();
    let x = "<animate"@;
    let y = "<set"@;
    if holds(s, x) {
        let i = choose|i: int|
            0 <= i && i + x.len() <= s.len() && #[trigger] s.subrange(i, i + x.len()) == x;
        lemma_held_begins(s, x, i);
        lemma_settled_at(s, i);
    }
    if holds(s, y) {
        let i = choose|i: int|
            0 <= i && i + y.len() <= s.len() && #[trigger] s.subrange(i, i + y.len()) == y;
        lemma_held_begins(s, y, i);
        lemma_settled_at(s, i);
    }
}

proof fn lemma_word_behind(a: Seq<char>, b: Seq<char>, w: Seq<char>)
    requires
        forall|i: int| 0 <= i < a.len() ==> !(#[trigger] may_begin(a, i, w)),
        !holds(b, w),
        w.len() > 0,
    ensures
        !holds(a + b, w),
{
    let s = a + b;
    if holds(s, w) {
        let i = choose|i: int|
            0 <= i && i + w.len() <= s.len() && #[trigger] s.subrange(i, i + w.len()) == w;
        lemma_held_begins(s, w, i);
        lemma_begins_in(a, b, i, w);
        if i < a.len() {
            assert(!may_begin(a, i, w));
        } else {
            let j = i - a.len();
            assert(b.subrange(j, j + w.len()) =~= s.subrange(i, i + w.len()));
        }
    }
}

/// Behind what is settled, a text without animations leaves none.
proof fn lemma_free_behind(a: Seq<char>, b: Seq<char>)
    requires
        settled(a),
        free(b),
    ensures
        free(a + b),
{
    lemma_words();
    let x = "<animate"@;
    let y = "<set"@;
    assert forall|i: int| 0 <= i < a.len() implies !(#[trigger] may_begin(a, i, x)) by {
        lemma_settled_at(a, i);
    }
    assert forall|i: int| 0 <= i < a.len() implies !(#[trigger] may_begin(a, i, y)) by {
        lemma_settled_at(a, i);
    }
    lemma_word_behind(a, b, x);
    lemma_word_behind(a, b, y);
}

proof fn lemma_word_before(a: Seq<char>, b: Seq<char>, w: Seq<char>, i: int)
    requires
        !holds(a, w),
        forall|k: int| 1 <= k < w.len() ==> in_words(#[trigger] w[k]),
        b.len() > 0,
        !in_words(b[0]),
        0 <= i < a.len(),
        w.len() > 0,
    ensures
        !may_begin(a + b, i, w),
{
    let s = a + b;
    if may_begin(s, i, w) {
        if i + w.len() <= a.len() {
            assert(a.subrange(i, i + w.len()) =~= w) by {
                assert forall|k: int| 0 <= k < w.len() implies a.subrange(i, i + w.len())[k]
                    == w[k] by {
                    assert(s[i + k] == w[k]);
                }
            }
        } else {
            let k = a.len() - i;
            assert(s[i + k] == w[k]);
            assert(in_words(w[k]));
        }
    }
}

/// What follows a text without animations settles it, unless it goes on with a letter
/// of theirs.
proof fn lemma_settled_by(a: Seq<char>, b: Seq<char>)
    requires
        free(a),
        settled(b),
        b.len() > 0,
        !in_words(b[0]),
    ensures
        settled(a + b),
{
    lemma_words();
    let x = "<animate"@;
    let y = "<set"@;
    let s = a + b;
    assert forall|i: int| 0 <= i < s.len() implies !(#[trigger] may_begin(s, i, x)) && !may_begin(
        s,
        i,
        y,
    ) by {
        if i < a.len() {
            lemma_word_before(a, b, x, i);
            lemma_word_before(a, b, y, i);
        } else {
            lemma_settled_at(b, i - a.len());
            if may_begin(s, i, x) {
                lemma_begins_in(a, b, i, x);
            }
            if may_begin(s, i, y) {
                lemma_begins_in(a, b, i, y);
            }
        }
    }
    reveal(settled);
}

proof fn lemma_decimal_plain(n: nat)
    ensures
        plain(text::decimal(n)),
    decreases n,
{
    if n >= 10 {
        lemma_decimal_plain(n / 10);
        let (before, last) = (text::decimal(n / 10), text::digit_char(n % 10));
        assert forall|i: int| 0 <= i < text::decimal(n).len() implies #[trigger] text::decimal(n)[i]
            != '<' by {
            if i < before.len() {
                assert(text::decimal(n)[i] == before[i]);
            }
        }
    }
}

proof fn lemma_padded_plain(n: nat, width: nat)
    ensures
        plain(text::padded(n, width)),
    decreases width,
{
    if width > 0 {
        lemma_padded_plain(n / 10, (width - 1) as nat);
        let before = text::padded(n / 10, (width - 1) as nat);
        assert forall|i: int| 0 <= i < text::padded(n, width).len() implies #[trigger] text::padded(
            n,
            width,
        )[i] != '<' by {
            if i < before.len() {
                assert(text::padded(n, width)[i] == before[i]);
            }
        }
    }
}

proof fn lemma_trimmed_plain(s: Seq<char>)
    requires
        plain(s),
    ensures
        plain(text::without_trailing_zeros(s)),
    decreases s.len(),
{
    if s.len() > 0 && s.last() == '0' {
        assert forall|i: int| 0 <= i < s.drop_last().len() implies #[trigger] s.drop_last()[i]
            != '<' by {
            assert(s[i] != '<');
        }
        lemma_trimmed_plain(s.drop_last());
    }
}

proof fn lemma_fixed_calm(v: int, places: nat)
    ensures
        calm(single::fixed_text(v, places)),
{
    let d = single::fixed_digits(single::magnitude(v), places);
    let t = single::power_of_ten(places);
    lemma_calm_adds();
    lemma_decimal_plain(d / t);
    lemma_plain_calm(text::decimal(d / t));
    lemma_padded_plain(d % t, places);
    lemma_trimmed_plain(text::padded(d % t, places));
    lemma_plain_calm(text::without_trailing_zeros(text::padded(d % t, places)));
    lemma_plain_calm(seq!['.']);
    lemma_plain_calm(seq!['-']);
    lemma_plain_calm(Seq::<char>::empty());
}

proof fn lemma_hex_calm(c: Rgb)
    ensures
        calm(style::hex(c)),
{
    reveal_strlit("#");
    lemma_calm_adds();
    lemma_plain_calm("#"@);
    lemma_plain_calm(text::hex_byte(c[0]));
    lemma_plain_calm(text::hex_byte(c[1]));
    lemma_plain_calm(text::hex_byte(c[2]));
}

/// Numbers, colours and escaped texts are calm.
proof fn lemma_pieces_calm()
    ensures
        forall|a: Seq<char>, b: Seq<char>| calm(a) && calm(b) ==> calm(#[trigger] (a + b)),
        forall|n: nat| #[trigger] calm(text::decimal(n)),
        forall|v: int, p: nat| #[trigger] calm(single::fixed_text(v, p)),
        forall|v: int| #[trigger] calm(single::shortest_text(v)),
        forall|c: Rgb| #[trigger] calm(style::hex(c)),
        forall|s: Seq<char>| #[trigger] calm(text::escaped_text(s)),
        forall|s: Seq<char>| #[trigger] calm(text::escaped_attr(s)),
        calm(""@),
        calm("\""@),
        calm("/>"@),
        calm(">"@),
{
    lemma_calm_adds();
    assert forall|n: nat| #[trigger] calm(text::decimal(n)) by {
        lemma_decimal_plain(n);
        lemma_plain_calm(text::decimal(n));
    }
    assert forall|v: int, p: nat| #[trigger] calm(single::fixed_text(v, p)) by {
        lemma_fixed_calm(v, p);
    }
    assert forall|v: int| #[trigger] calm(single::shortest_text(v)) by {
        lemma_fixed_calm(v, single::enough_places(single::magnitude(v), 0));
    }
    assert forall|c: Rgb| #[trigger] calm(style::hex(c)) by {
        lemma_hex_calm(c);
    }
    assert forall|s: Seq<char>| #[trigger] calm(text::escaped_text(s)) by {
        text::lemma_escaped_text_is_plain(s);
        lemma_plain_calm(text::escaped_text(s));
    }
    assert forall|s: Seq<char>| #[trigger] calm(text::escaped_attr(s)) by {
        text::lemma_escaped_attr_is_plain(s);
        lemma_plain_calm(text::escaped_attr(s));
    }
    assert(calm(""@)) by {
        reveal(calm);
        reveal_strlit("");
    }
    assert(calm("\""@)) by {
        reveal(calm);
        reveal_strlit("\"");
    }
    assert(calm("/>"@)) by {
        reveal(calm);
        reveal_strlit("/>");
    }
    assert(calm(">"@)) by {
        reveal(calm);
        reveal_strlit(">");
    }
}

proof fn lemma_joined_calm(parts: Seq<Seq<char>>, sep: Seq<char>)
    requires
        forall|i: int| 0 <= i < parts.len() ==> calm(#[trigger] parts[i]),
        calm(sep),
    ensures
        calm(text::joined(parts, sep)),
    decreases parts.len(),
{
    lemma_calm_adds();
    if parts.len() == 0 {
        lemma_plain_calm(Seq::<char>::empty());
    } else {
        assert(calm(parts[parts.len() - 1]));
        if parts.len() > 1 {
            let d = parts.drop_last();
            assert forall|i: int| 0 <= i < d.len() implies calm(#[trigger] d[i]) by {
                assert(calm(parts[i]));
            }
            lemma_joined_calm(d, sep);
        }
    }
}

proof fn lemma_drawing_rest(t: Seq<char>, n: int)
    requires
        drawings::drawing(t),
        0 <= n <= t.len(),
    ensures
        drawings::drawing(t.skip(n)),
{
    let r = t.skip(n);
    assert forall|i: int| 0 <= i < r.len() && #[trigger] r[i] == '<' implies i + 1 < r.len() && (r[i
        + 1] == 'p' || r[i + 1] == 'r') by {
        assert(t[n + i] == '<');
        assert(r[i + 1] == t[n + i + 1]);
    }
}

/// A drawing keeps its tags when its lengths are filled in.
proof fn lemma_filled_calm(t: Seq<char>, g: Geometry)
    requires
        drawings::drawing(t),
    ensures
        calm(shapes::filled(t, g)),
    decreases t.len(),
{
    lemma_pieces_calm();
    if t.len() == 0 {
        lemma_plain_calm(t);
    } else if t[0] == '{' && t.len() >= 3 {
        lemma_drawing_rest(t, 3);
        lemma_filled_calm(t.skip(3), g);
    } else {
        lemma_drawing_rest(t, 1);
        lemma_filled_calm(t.skip(1), g);
        let rest = shapes::filled(t.skip(1), g);
        let s = shapes::filled(t, g);
        assert(s == seq![t[0]] + rest);
        if t[0] == '<' {
            assert(t.skip(1)[0] == t[1]);
            assert(rest == seq![t[1]] + shapes::filled(t.skip(1).skip(1), g));
            assert(rest[0] == t[1]);
        }
        assert(calm(s)) by {
            reveal(calm);
            assert forall|i: int| 0 <= i < s.len() implies #[trigger] calm_at(s, i) by {
                if i > 0 {
                    assert(calm_at(rest, i - 1));
                }
            }
        }
    }
}

/// Whether the names of the classes are calm.
spec fn classes_calm(classes: Seq<(Rgb, Seq<char>)>) -> bool {
    forall|i: int| 0 <= i < classes.len() ==> calm((#[trigger] classes[i]).1)
}

proof fn lemma_class_calm(classes: Seq<(Rgb, Seq<char>)>, color: Rgb, i: int)
    requires
        classes_calm(classes),
    ensures
        text_markup::class_from(classes, color, i) matches Some(c) ==> calm(c),
    decreases classes.len() - i,
{
    if 0 <= i < classes.len() {
        assert(calm(classes[i].1));
        lemma_class_calm(classes, color, i + 1);
    }
}

proof fn lemma_attribute_calm(name: Seq<char>, parts: Seq<Seq<char>>, sep: Seq<char>)
    requires
        calm(name),
        calm(sep),
        forall|i: int| 0 <= i < parts.len() ==> calm(#[trigger] parts[i]),
    ensures
        calm(text_markup::attribute_of(name, parts, sep)),
{
    lemma_pieces_calm();
    lemma_joined_calm(parts, sep);
}

proof fn lemma_span_words()
    ensures
        calm("<tspan x=\""@),
        calm(" fill=\""@),
        calm(" class=\""@),
        calm(" style=\""@),
        calm(" font-weight=\"bold\""@),
        calm(" font-style=\"italic\""@),
        calm("</tspan>"@),
        calm(" "@),
        calm("; "@),
        calm("letter-spacing: "@),
        calm("px"@),
        calm("fill-opacity: 0"@),
        calm("b"@),
        calm("i"@),
        calm("s"@),
        calm("h"@),
{
    assert(calm("<tspan x=\""@)) by {
        reveal(calm);
        reveal_strlit("<tspan x=\"");
    }
    assert(calm(" fill=\""@)) by {
        reveal(calm);
        reveal_strlit(" fill=\"");
    }
    assert(calm(" class=\""@)) by {
        reveal(calm);
        reveal_strlit(" class=\"");
    }
    assert(calm(" style=\""@)) by {
        reveal(calm);
        reveal_strlit(" style=\"");
    }
    assert(calm(" font-weight=\"bold\""@)) by {
        reveal(calm);
        reveal_strlit(" font-weight=\"bold\"");
    }
    assert(calm(" font-style=\"italic\""@)) by {
        reveal(calm);
        reveal_strlit(" font-style=\"italic\"");
    }
    assert(calm("</tspan>"@)) by {
        reveal(calm);
        reveal_strlit("</tspan>");
    }
    assert(calm(" "@)) by {
        reveal(calm);
        reveal_strlit(" ");
    }
    assert(calm("; "@)) by {
        reveal(calm);
        reveal_strlit("; ");
    }
    assert(calm("letter-spacing: "@)) by {
        reveal(calm);
        reveal_strlit("letter-spacing: ");
    }
    assert(calm("px"@)) by {
        reveal(calm);
        reveal_strlit("px");
    }
    assert(calm("fill-opacity: 0"@)) by {
        reveal(calm);
        reveal_strlit("fill-opacity: 0");
    }
    assert(calm("b"@)) by {
        reveal(calm);
        reveal_strlit("b");
    }
    assert(calm("i"@)) by {
        reveal(calm);
        reveal_strlit("i");
    }
    assert(calm("s"@)) by {
        reveal(calm);
        reveal_strlit("s");
    }
    assert(calm("h"@)) by {
        reveal(calm);
        reveal_strlit("h");
    }
}

/// A run at rest holds no animation.
proof fn lemma_span_calm(
    s: TSpanView,
    classes: Seq<(Rgb, Seq<char>)>,
    c: RowContext,
    transparent: bool,
)
    requires
        classes_calm(classes),
        c.from == 0,
        c.to == u32::MAX,
    ensures
        calm(text_markup::span_svg(still::still_span(s), classes, c, transparent)),
{
    let r = still::still_span(s);
    lemma_pieces_calm();
    lemma_span_words();
    lemma_class_calm(classes, r.fg, 0);
    assert(!text_markup::span_hidden(r, c.from, c.to, c.total_ms));
    assert(calm(text_markup::animations_text(r.style_animations, classes, false)));
    let places = Seq::new(
        r.x_coords.len(),
        |i: int| single::fixed_text(r.x_coords[i] as int, 2),
    );
    lemma_joined_calm(places, " "@);
    assert(text_markup::places_text(r.x_coords) == text::joined(places, " "@));
    let color = text_markup::class_of(classes, r.fg);
    let names = text_markup::span_classes(r, false, color);
    lemma_attribute_calm(" class=\""@, names, " "@);
    let styles = text_markup::span_styles(r, c.spacing, transparent);
    lemma_attribute_calm(" style=\""@, styles, "; "@);
    assert(calm(text_markup::span_fill(r, color, c.default_fg)));
    assert(calm(text_markup::span_font(r)));
}

proof fn lemma_group_words()
    ensures
        calm("<g transform=\"translate("@),
        calm(", "@),
        calm(")\""@),
        calm(" fill=\""@),
        calm("\" stroke=\""@),
        calm("\">"@),
        calm("</g>"@),
{
    assert(calm("<g transform=\"translate("@)) by {
        reveal(calm);
        reveal_strlit("<g transform=\"translate(");
    }
    assert(calm(", "@)) by {
        reveal(calm);
        reveal_strlit(", ");
    }
    assert(calm(")\""@)) by {
        reveal(calm);
        reveal_strlit(")\"");
    }
    assert(calm(" fill=\""@)) by {
        reveal(calm);
        reveal_strlit(" fill=\"");
    }
    assert(calm("\" stroke=\""@)) by {
        reveal(calm);
        reveal_strlit("\" stroke=\"");
    }
    assert(calm("\">"@)) by {
        reveal(calm);
        reveal_strlit("\">");
    }
    assert(calm("</g>"@)) by {
        reveal(calm);
        reveal_strlit("</g>");
    }
}

proof fn lemma_groups_calm(s: TSpanView, n: int, y: u32, total_ms: u32)
    requires
        text_markup::all_shaped(s.text),
        n <= text_markup::drawn(s.text).len(),
    ensures
        calm(text_markup::shape_groups(s, n, y, None, false, total_ms)),
    decreases n,
{
    lemma_pieces_calm();
    if n > 0 {
        lemma_groups_calm(s, n - 1, y, total_ms);
        lemma_group_words();
        let ch = text_markup::drawn(s.text)[n - 1];
        assert(shapes::shape_of(ch) is Some);
        drawings::lemma_shape_drawing(ch, 0);
        lemma_filled_calm(shapes::shape_of(ch)->0, text_markup::cell_geometry(s));
        assert(calm(text_markup::shape_group(s, n - 1, y, None, false, total_ms)));
    }
}

proof fn lemma_row_words()
    ensures
        calm("<text y=\""@),
        calm("\">"@),
        calm("</text>"@),
        calm("<text x=\""@),
        calm("\" y=\""@),
        calm(" textLength=\""@),
        calm("\" lengthAdjust=\"spacingAndGlyphs\">"@),
        calm(" transform=\"translate(0, "@),
        calm(") scale(1, "@),
        calm(") translate(0, -"@),
        calm(")\""@),
{
    assert(calm("<text y=\""@)) by {
        reveal(calm);
        reveal_strlit("<text y=\"");
    }
    assert(calm("\">"@)) by {
        reveal(calm);
        reveal_strlit("\">");
    }
    assert(calm("</text>"@)) by {
        reveal(calm);
        reveal_strlit("</text>");
    }
    assert(calm("<text x=\""@)) by {
        reveal(calm);
        reveal_strlit("<text x=\"");
    }
    assert(calm("\" y=\""@)) by {
        reveal(calm);
        reveal_strlit("\" y=\"");
    }
    assert(calm(" textLength=\""@)) by {
        reveal(calm);
        reveal_strlit(" textLength=\"");
    }
    assert(calm("\" lengthAdjust=\"spacingAndGlyphs\">"@)) by {
        reveal(calm);
        reveal_strlit("\" lengthAdjust=\"spacingAndGlyphs\">");
    }
    assert(calm(" transform=\"translate(0, "@)) by {
        reveal(calm);
        reveal_strlit(" transform=\"translate(0, ");
    }
    assert(calm(") scale(1, "@)) by {
        reveal(calm);
        reveal_strlit(") scale(1, ");
    }
    assert(calm(") translate(0, -"@)) by {
        reveal(calm);
        reveal_strlit(") translate(0, -");
    }
    assert(calm(")\""@)) by {
        reveal(calm);
        reveal_strlit(")\"");
    }
}

proof fn lemma_spans_calm(
    e: TextElementView,
    from: int,
    to: int,
    classes: Seq<(Rgb, Seq<char>)>,
    c: RowContext,
)
    requires
        classes_calm(classes),
        c.from == 0,
        c.to == u32::MAX,
        0 <= from,
        to <= e.tspans.len(),
    ensures
        calm(text_markup::spans_text(still::still_row(e).tspans, from, to, classes, c)),
    decreases to - from,
{
    lemma_pieces_calm();
    if from < to {
        lemma_spans_calm(e, from, to - 1, classes, c);
        lemma_span_calm(e.tspans[to - 1], classes, c, false);
        assert(still::still_row(e).tspans[to - 1] == still::still_span(e.tspans[to - 1]));
    }
}

spec fn all_calm(tags: Seq<Seq<char>>) -> bool {
    forall|i: int| 0 <= i < tags.len() ==> calm(#[trigger] tags[i])
}

proof fn lemma_flushed_calm(
    tags: Seq<Seq<char>>,
    e: TextElementView,
    from: int,
    to: int,
    classes: Seq<(Rgb, Seq<char>)>,
    c: RowContext,
)
    requires
        all_calm(tags),
        classes_calm(classes),
        c.from == 0,
        c.to == u32::MAX,
        0 <= from,
        to <= e.tspans.len(),
    ensures
        all_calm(text_markup::flushed(tags, still::still_row(e), from, to, classes, c)),
{
    reveal(text_markup::flushed);
    lemma_pieces_calm();
    lemma_row_words();
    lemma_spans_calm(e, from, to, classes, c);
    let tag = text_markup::text_tag(still::still_row(e), from, to, classes, c);
    assert(calm(text_markup::motion_svg(None)));
    assert(calm(tag));
    let r = text_markup::flushed(tags, still::still_row(e), from, to, classes, c);
    assert forall|i: int| 0 <= i < r.len() implies calm(#[trigger] r[i]) by {
        if i < tags.len() {
            assert(calm(tags[i]));
        }
    }
}

proof fn lemma_box_calm(
    e: TextElementView,
    s: TSpanView,
    classes: Seq<(Rgb, Seq<char>)>,
    c: RowContext,
)
    requires
        classes_calm(classes),
        c.from == 0,
        c.to == u32::MAX,
    ensures
        all_calm(
            text_markup::box_tags(still::still_row(e), still::still_span(s), classes, c),
        ),
{
    reveal(text_markup::box_tags);
    let row = still::still_row(e);
    let r = still::still_span(s);
    lemma_pieces_calm();
    lemma_row_words();
    assert(!text_markup::span_hidden(r, c.from, c.to, c.total_ms));
    lemma_span_calm(s, classes, c, text_markup::all_shaped(r.text));
    assert(calm(text_markup::motion_svg(None)));
    assert(calm(text_markup::stretch(r, row.y)));
    assert(calm(text_markup::box_tag(row, r, classes, c)));
    let shaped = text_markup::all_shaped(r.text);
    if shaped {
        lemma_groups_calm(r, text_markup::drawn(r.text).len() as int, row.y, c.total_ms);
        assert(calm(text_markup::run_shapes(row, r, c)));
    }
}

proof fn lemma_tags_calm(
    e: TextElementView,
    n: int,
    classes: Seq<(Rgb, Seq<char>)>,
    c: RowContext,
)
    requires
        classes_calm(classes),
        c.from == 0,
        c.to == u32::MAX,
        0 <= n <= e.tspans.len(),
    ensures
        all_calm(text_markup::tags_upto(still::still_row(e), n, classes, c).0),
        0 <= text_markup::tags_upto(still::still_row(e), n, classes, c).1 <= n,
    decreases n,
{
    if n > 0 {
        lemma_tags_calm(e, n - 1, classes, c);
        let row = still::still_row(e);
        let (tags, from) = text_markup::tags_upto(row, n - 1, classes, c);
        assert(row.tspans[n - 1] == still::still_span(e.tspans[n - 1]));
        lemma_flushed_calm(tags, e, from, n - 1, classes, c);
        lemma_box_calm(e, e.tspans[n - 1], classes, c);
        let a = text_markup::flushed(tags, row, from, n - 1, classes, c);
        let b = text_markup::box_tags(row, row.tspans[n - 1], classes, c);
        assert(all_calm(a + b)) by {
            assert forall|i: int| 0 <= i < (a + b).len() implies calm(#[trigger] (a + b)[i]) by {
                if i < a.len() {
                    assert(calm(a[i]));
                } else {
                    assert(calm(b[i - a.len()]));
                }
            }
        }
    }
}

/// Rows at rest hold no animation.
proof fn lemma_rows_calm(
    v: Seq<TextElementView>,
    classes: Seq<(Rgb, Seq<char>)>,
    total_ms: u32,
    spacing: Measure,
    default_fg: Option<Rgb>,
)
    requires
        classes_calm(classes),
    ensures
        calm(document::rows_svg(still::still_rows(v), classes, total_ms, spacing, default_fg)),
    decreases v.len(),
{
    lemma_pieces_calm();
    let r = still::still_rows(v);
    if v.len() > 0 {
        lemma_rows_calm(v.drop_last(), classes, total_ms, spacing, default_fg);
        assert(r.drop_last() =~= still::still_rows(v.drop_last()));
        let e = v.last();
        let row = still::still_row(e);
        assert(r.last() == row);
        let c = text_markup::row_context(row, total_ms, spacing, default_fg);
        let n = e.tspans.len() as int;
        lemma_tags_calm(e, n, classes, c);
        let (tags, from) = text_markup::tags_upto(row, n, classes, c);
        lemma_flushed_calm(tags, e, from, n, classes, c);
        lemma_joined_calm(text_markup::row_tags(row, classes, c), ""@);
        assert(calm(text_markup::row_svg(row, classes, total_ms, spacing, default_fg)));
    }
}

proof fn lemma_rect_words()
    ensures
        calm("<rect x=\""@),
        calm("\" y=\""@),
        calm("\" width=\""@),
        calm("\" height=\""@),
        calm(" class=\""@),
        calm(" fill=\""@),
        calm(" clip-path=\"url(#"@),
        calm(")\""@),
{
    assert(calm("<rect x=\""@)) by {
        reveal(calm);
        reveal_strlit("<rect x=\"");
    }
    assert(calm("\" y=\""@)) by {
        reveal(calm);
        reveal_strlit("\" y=\"");
    }
    assert(calm("\" width=\""@)) by {
        reveal(calm);
        reveal_strlit("\" width=\"");
    }
    assert(calm("\" height=\""@)) by {
        reveal(calm);
        reveal_strlit("\" height=\"");
    }
    assert(calm(" class=\""@)) by {
        reveal(calm);
        reveal_strlit(" class=\"");
    }
    assert(calm(" fill=\""@)) by {
        reveal(calm);
        reveal_strlit(" fill=\"");
    }
    assert(calm(" clip-path=\"url(#"@)) by {
        reveal(calm);
        reveal_strlit(" clip-path=\"url(#");
    }
    assert(calm(")\""@)) by {
        reveal(calm);
        reveal_strlit(")\"");
    }
}

/// Whether the clip paths of rectangles name no animation.
pub open spec fn clips_free(v: Seq<BgRectView>) -> bool {
    forall|i: int| 0 <= i < v.len() ==> ((#[trigger] v[i]).clip_path matches Some(p) ==> free(p))
}

/// A rectangle at rest holds no animation.
proof fn lemma_rect_settled(r: BgRectView, classes: Seq<(Rgb, Seq<char>)>, total_ms: u32)
    requires
        classes_calm(classes),
        r.clip_path matches Some(p) ==> free(p),
    ensures
        settled(document::rect_svg(still::still_rect(r), classes, total_ms)),
{
    let s = still::still_rect(r);
    lemma_pieces_calm();
    lemma_rect_words();
    lemma_settled_adds();
    lemma_class_calm(classes, s.fill, 0);
    let fill = document::rect_fill(s, classes, true);
    assert(calm(fill));
    assert(calm(
        "<rect x=\""@ + text::decimal(s.x as nat) + "\" y=\""@ + text::decimal(s.y as nat)
            + "\" width=\""@ + text::decimal(s.w as nat) + "\" height=\""@ + text::decimal(
            s.h as nat,
        ) + "\""@ + fill,
    ));
    match s.clip_path {
        Some(p) => {
            lemma_free_behind(" clip-path=\"url(#"@, p);
            reveal_strlit(")\"");
            lemma_settled_by(" clip-path=\"url(#"@ + p, ")\""@);
        },
        None => {},
    }
}

proof fn lemma_rects_settled(v: Seq<BgRectView>, classes: Seq<(Rgb, Seq<char>)>, total_ms: u32)
    requires
        classes_calm(classes),
        clips_free(v),
    ensures
        settled(document::rects_svg(still::still_rects(v), classes, total_ms)),
    decreases v.len(),
{
    lemma_pieces_calm();
    lemma_settled_adds();
    let r = still::still_rects(v);
    if v.len() > 0 {
        let d = v.drop_last();
        assert forall|i: int| 0 <= i < d.len() implies ((#[trigger] d[i]).clip_path matches Some(p)
            ==> free(p)) by {
            assert(v[i].clip_path matches Some(p) ==> free(p));
        }
        lemma_rects_settled(d, classes, total_ms);
        assert(r.drop_last() =~= still::still_rects(d));
        let last = v[v.len() - 1];
        assert(r.last() == still::still_rect(last));
        assert(last.clip_path matches Some(p) ==> free(p));
        lemma_rect_settled(last, classes, total_ms);
    }
}

proof fn lemma_cursor_words()
    ensures
        calm("<rect x=\""@),
        calm("\" y=\""@),
        calm(" width=\""@),
        calm("\" height=\""@),
        calm("\" fill=\""@),
        calm("\" fill-opacity=\"0.7\""@),
{
    assert(calm("<rect x=\""@)) by {
        reveal(calm);
        reveal_strlit("<rect x=\"");
    }
    assert(calm("\" y=\""@)) by {
        reveal(calm);
        reveal_strlit("\" y=\"");
    }
    assert(calm(" width=\""@)) by {
        reveal(calm);
        reveal_strlit(" width=\"");
    }
    assert(calm("\" height=\""@)) by {
        reveal(calm);
        reveal_strlit("\" height=\"");
    }
    assert(calm("\" fill=\""@)) by {
        reveal(calm);
        reveal_strlit("\" fill=\"");
    }
    assert(calm("\" fill-opacity=\"0.7\""@)) by {
        reveal(calm);
        reveal_strlit("\" fill-opacity=\"0.7\"");
    }
}

proof fn lemma_cursors_calm(v: Seq<CursorRect>)
    ensures
        calm(overlay::still_cursors_svg(v)),
    decreases v.len(),
{
    lemma_pieces_calm();
    if v.len() > 0 {
        lemma_cursors_calm(v.drop_last());
        lemma_cursor_words();
        assert(calm(overlay::cursor_box(overlay::cursor_key(v.last()))));
        assert(calm(overlay::still_cursor_svg(v.last())));
    }
}

proof fn lemma_mouse_words()
    ensures
        calm("<g transform=\"translate("@),
        calm(")\">\n"@),
        calm("<circle cx=\"0\" cy=\"0\" r=\"9\" fill=\"#dcdcdc\" fill-opacity=\"0.18\""@),
        calm("<circle cx=\"0\" cy=\"0\" r=\"12\" fill=\"#dcdcdc\" fill-opacity=\"0.18\""@),
        calm("\n  "@),
        calm("\n</g>\n"@),
        calm(" "@),
        calm("class=\"h\""@),
        calm("<g transform=\"scale("@),
        calm("0.82"@),
        calm("1"@),
        calm(")\">"@),
        calm("</g>"@),
        calm(","@),
        calm("."@),
        calm("<polygon points=\""@),
        calm("\" fill=\"#111111\" stroke=\"#ffffff\" stroke-width=\"1.5\" stroke-linejoin=\"round\"/>"@),
{
    assert(calm("<g transform=\"translate("@)) by {
        reveal(calm);
        reveal_strlit("<g transform=\"translate(");
    }
    assert(calm(")\">\n"@)) by {
        reveal(calm);
        reveal_strlit(")\">\n");
    }
    assert(calm("<circle cx=\"0\" cy=\"0\" r=\"9\" fill=\"#dcdcdc\" fill-opacity=\"0.18\""@)) by {
        reveal(calm);
        reveal_strlit("<circle cx=\"0\" cy=\"0\" r=\"9\" fill=\"#dcdcdc\" fill-opacity=\"0.18\"");
    }
    assert(calm("<circle cx=\"0\" cy=\"0\" r=\"12\" fill=\"#dcdcdc\" fill-opacity=\"0.18\""@)) by {
        reveal(calm);
        reveal_strlit("<circle cx=\"0\" cy=\"0\" r=\"12\" fill=\"#dcdcdc\" fill-opacity=\"0.18\"");
    }
    assert(calm("\n  "@)) by {
        reveal(calm);
        reveal_strlit("\n  ");
    }
    assert(calm("\n</g>\n"@)) by {
        reveal(calm);
        reveal_strlit("\n</g>\n");
    }
    assert(calm(" "@)) by {
        reveal(calm);
        reveal_strlit(" ");
    }
    assert(calm("class=\"h\""@)) by {
        reveal(calm);
        reveal_strlit("class=\"h\"");
    }
    assert(calm("<g transform=\"scale("@)) by {
        reveal(calm);
        reveal_strlit("<g transform=\"scale(");
    }
    assert(calm("0.82"@)) by {
        reveal(calm);
        reveal_strlit("0.82");
    }
    assert(calm("1"@)) by {
        reveal(calm);
        reveal_strlit("1");
    }
    assert(calm(")\">"@)) by {
        reveal(calm);
        reveal_strlit(")\">");
    }
    assert(calm("</g>"@)) by {
        reveal(calm);
        reveal_strlit("</g>");
    }
    assert(calm(","@)) by {
        reveal(calm);
        reveal_strlit(",");
    }
    assert(calm("."@)) by {
        reveal(calm);
        reveal_strlit(".");
    }
    assert(calm("<polygon points=\""@)) by {
        reveal(calm);
        reveal_strlit("<polygon points=\"");
    }
    assert(calm("\" fill=\"#111111\" stroke=\"#ffffff\" stroke-width=\"1.5\" stroke-linejoin=\"round\"/>"@)) by {
        reveal(calm);
        reveal_strlit("\" fill=\"#111111\" stroke=\"#ffffff\" stroke-width=\"1.5\" stroke-linejoin=\"round\"/>");
    }
}

proof fn lemma_corners_calm(n: int)
    ensures
        calm(pointer::corners_text(n)),
    decreases n,
{
    lemma_pieces_calm();
    if n > 0 {
        lemma_corners_calm(n - 1);
        lemma_mouse_words();
        let p = pointer::POINTS[n - 1];
        assert(calm(pointer::tenths_text(p.0 as int)));
        assert(calm(pointer::tenths_text(p.1 as int)));
    }
}

proof fn lemma_ring_calm(head: Seq<char>, on: bool)
    requires
        calm(head),
    ensures
        calm(overlay::ring(head, seq![(0u32, on)], 0)),
{
    lemma_pieces_calm();
    lemma_mouse_words();
    let c = seq![(0u32, on)];
    lemma_joined_calm(overlay::hidden_class(c), " "@);
    assert(overlay::shown_animation(c, 0).len() == 0);
}

proof fn lemma_mouse_calm(s: MouseSpan)
    ensures
        calm(overlay::still_mouse_svg(s)),
{
    lemma_pieces_calm();
    lemma_mouse_words();
    lemma_ring_calm(
        "<circle cx=\"0\" cy=\"0\" r=\"9\" fill=\"#dcdcdc\" fill-opacity=\"0.18\""@,
        s.state == MouseState::Clicking,
    );
    lemma_ring_calm(
        "<circle cx=\"0\" cy=\"0\" r=\"12\" fill=\"#dcdcdc\" fill-opacity=\"0.18\""@,
        s.state == MouseState::Dragging,
    );
    lemma_corners_calm(pointer::CORNERS as int);
    assert(calm(pointer::polygon()));
    let click = seq![(0u32, s.state == MouseState::Clicking)];
    assert(calm(overlay::arrow_scale(click[0].1)));
    assert(calm(overlay::arrow(click, 0)));
}

proof fn lemma_mice_calm(v: Seq<MouseSpan>)
    ensures
        calm(overlay::still_mice_svg(v)),
    decreases v.len(),
{
    lemma_pieces_calm();
    if v.len() > 0 {
        lemma_mice_calm(v.drop_last());
        lemma_mouse_calm(v.last());
    }
}

proof fn lemma_bar_words()
    ensures
        calm("<circle cx=\""@),
        calm("\" cy=\""@),
        calm("\" r=\""@),
        calm("\" fill=\""@),
        calm("\" fill=\"none\" stroke=\""@),
        calm("\" stroke-width=\"2\"/>"@),
        calm("\"/>"@),
        calm("<text x=\""@),
        calm("\" y=\""@),
        calm("\" fill=\"#626268\" text-anchor=\"middle\" dominant-baseline=\"central\" font-size=\""@),
        calm(" font-family=\""@),
        calm(" font-weight=\"normal\""@),
        calm("</text>\n"@),
{
    assert(calm("<circle cx=\""@)) by {
        reveal(calm);
        reveal_strlit("<circle cx=\"");
    }
    assert(calm("\" cy=\""@)) by {
        reveal(calm);
        reveal_strlit("\" cy=\"");
    }
    assert(calm("\" r=\""@)) by {
        reveal(calm);
        reveal_strlit("\" r=\"");
    }
    assert(calm("\" fill=\""@)) by {
        reveal(calm);
        reveal_strlit("\" fill=\"");
    }
    assert(calm("\" fill=\"none\" stroke=\""@)) by {
        reveal(calm);
        reveal_strlit("\" fill=\"none\" stroke=\"");
    }
    assert(calm("\" stroke-width=\"2\"/>"@)) by {
        reveal(calm);
        reveal_strlit("\" stroke-width=\"2\"/>");
    }
    assert(calm("\"/>"@)) by {
        reveal(calm);
        reveal_strlit("\"/>");
    }
    assert(calm("<text x=\""@)) by {
        reveal(calm);
        reveal_strlit("<text x=\"");
    }
    assert(calm("\" y=\""@)) by {
        reveal(calm);
        reveal_strlit("\" y=\"");
    }
    assert(calm("\" fill=\"#626268\" text-anchor=\"middle\" dominant-baseline=\"central\" font-size=\""@)) by {
        reveal(calm);
        reveal_strlit("\" fill=\"#626268\" text-anchor=\"middle\" dominant-baseline=\"central\" font-size=\"");
    }
    assert(calm(" font-family=\""@)) by {
        reveal(calm);
        reveal_strlit(" font-family=\"");
    }
    assert(calm(" font-weight=\"normal\""@)) by {
        reveal(calm);
        reveal_strlit(" font-weight=\"normal\"");
    }
    assert(calm("</text>\n"@)) by {
        reveal(calm);
        reveal_strlit("</text>\n");
    }
}

proof fn lemma_circles_calm(v: Seq<WindowBarCircle>)
    ensures
        calm(document::circles_svg(v)),
    decreases v.len(),
{
    lemma_pieces_calm();
    if v.len() > 0 {
        lemma_circles_calm(v.drop_last());
        lemma_bar_words();
        assert(calm(document::circle_svg(v.last())));
    }
}

proof fn lemma_titles_calm(doc: SvgDoc, v: Seq<TitleSegmentView>)
    requires
        doc.is_static,
    ensures
        calm(doc.titles_svg(v)),
    decreases v.len(),
{
    lemma_pieces_calm();
    if v.len() > 0 {
        lemma_titles_calm(doc, v.drop_last());
        lemma_bar_words();
        assert(calm(doc.title_svg(v.last())));
    }
}

proof fn lemma_frame_words()
    ensures
        calm("<rect width=\""@),
        calm("\" height=\""@),
        calm("\" fill=\""@),
        calm("\"/>\n"@),
        calm("<defs><clipPath id=\"frame-clip\"><rect x=\""@),
        calm("\" y=\""@),
        calm("\" width=\""@),
        calm("\" rx=\""@),
        calm("\" ry=\""@),
        calm("\"/></clipPath></defs>"@),
        calm("<rect "@),
        calm("x=\""@),
        calm("\" "@),
        calm("y=\""@),
        calm("width=\""@),
        calm(" clip-path=\"url(#frame-clip)\""@),
        calm("/>\n"@),
{
    assert(calm("<rect width=\""@)) by {
        reveal(calm);
        reveal_strlit("<rect width=\"");
    }
    assert(calm("\" height=\""@)) by {
        reveal(calm);
        reveal_strlit("\" height=\"");
    }
    assert(calm("\" fill=\""@)) by {
        reveal(calm);
        reveal_strlit("\" fill=\"");
    }
    assert(calm("\"/>\n"@)) by {
        reveal(calm);
        reveal_strlit("\"/>\n");
    }
    assert(calm("<defs><clipPath id=\"frame-clip\"><rect x=\""@)) by {
        reveal(calm);
        reveal_strlit("<defs><clipPath id=\"frame-clip\"><rect x=\"");
    }
    assert(calm("\" y=\""@)) by {
        reveal(calm);
        reveal_strlit("\" y=\"");
    }
    assert(calm("\" width=\""@)) by {
        reveal(calm);
        reveal_strlit("\" width=\"");
    }
    assert(calm("\" rx=\""@)) by {
        reveal(calm);
        reveal_strlit("\" rx=\"");
    }
    assert(calm("\" ry=\""@)) by {
        reveal(calm);
        reveal_strlit("\" ry=\"");
    }
    assert(calm("\"/></clipPath></defs>"@)) by {
        reveal(calm);
        reveal_strlit("\"/></clipPath></defs>");
    }
    assert(calm("<rect "@)) by {
        reveal(calm);
        reveal_strlit("<rect ");
    }
    assert(calm("x=\""@)) by {
        reveal(calm);
        reveal_strlit("x=\"");
    }
    assert(calm("\" "@)) by {
        reveal(calm);
        reveal_strlit("\" ");
    }
    assert(calm("y=\""@)) by {
        reveal(calm);
        reveal_strlit("y=\"");
    }
    assert(calm("width=\""@)) by {
        reveal(calm);
        reveal_strlit("width=\"");
    }
    assert(calm(" clip-path=\"url(#frame-clip)\""@)) by {
        reveal(calm);
        reveal_strlit(" clip-path=\"url(#frame-clip)\"");
    }
    assert(calm("/>\n"@)) by {
        reveal(calm);
        reveal_strlit("/>\n");
    }
}

#[verifier::rlimit(60)]
proof fn lemma_frame_calm(doc: SvgDoc)
    ensures
        calm(doc.frame()),
{
    lemma_pieces_calm();
    lemma_frame_words();
}

proof fn lemma_css_words()
    ensures
        calm("letter-spacing: "@),
        calm("px; "@),
        calm("fill: "@),
        calm("; "@),
        calm(".b { font-weight: bold; }\n.i { font-style: italic; }\n.s { text-decoration: line-through; }\ntext, tspan { font-kerning: none; font-variant-ligatures: none; text-rendering: geometricPrecision; }\n"@),
        calm("text { "@),
        calm(" }\n"@),
        calm("."@),
        calm(" { fill: "@),
        calm("; }\n"@),
        calm("c"@),
        calm("</style>\n"@),
        calm("<style>\n"@),
{
    assert(calm("letter-spacing: "@)) by {
        reveal(calm);
        reveal_strlit("letter-spacing: ");
    }
    assert(calm("px; "@)) by {
        reveal(calm);
        reveal_strlit("px; ");
    }
    assert(calm("fill: "@)) by {
        reveal(calm);
        reveal_strlit("fill: ");
    }
    assert(calm("; "@)) by {
        reveal(calm);
        reveal_strlit("; ");
    }
    assert(calm(".b { font-weight: bold; }\n.i { font-style: italic; }\n.s { text-decoration: line-through; }\ntext, tspan { font-kerning: none; font-variant-ligatures: none; text-rendering: geometricPrecision; }\n"@)) by {
        reveal(calm);
        reveal_strlit(".b { font-weight: bold; }\n.i { font-style: italic; }\n.s { text-decoration: line-through; }\ntext, tspan { font-kerning: none; font-variant-ligatures: none; text-rendering: geometricPrecision; }\n");
    }
    assert(calm("text { "@)) by {
        reveal(calm);
        reveal_strlit("text { ");
    }
    assert(calm(" }\n"@)) by {
        reveal(calm);
        reveal_strlit(" }\n");
    }
    assert(calm("."@)) by {
        reveal(calm);
        reveal_strlit(".");
    }
    assert(calm(" { fill: "@)) by {
        reveal(calm);
        reveal_strlit(" { fill: ");
    }
    assert(calm("; }\n"@)) by {
        reveal(calm);
        reveal_strlit("; }\n");
    }
    assert(calm("c"@)) by {
        reveal(calm);
        reveal_strlit("c");
    }
    assert(calm("</style>\n"@)) by {
        reveal(calm);
        reveal_strlit("</style>\n");
    }
    assert(calm("<style>\n"@)) by {
        reveal(calm);
        reveal_strlit("<style>\n");
    }
}

proof fn lemma_classes_calm(
    all: Seq<u32>,
    colors: Seq<u32>,
    default_code: Option<u32>,
    n: int,
)
    ensures
        classes_calm(document::classes_upto(all, colors, default_code, n)),
    decreases n,
{
    if n > 0 {
        lemma_classes_calm(all, colors, default_code, n - 1);
        lemma_pieces_calm();
        lemma_css_words();
        let before = document::classes_upto(all, colors, default_code, n - 1);
        let r = document::classes_upto(all, colors, default_code, n);
        assert forall|i: int| 0 <= i < r.len() implies calm((#[trigger] r[i]).1) by {
            if i < before.len() {
                assert(calm(before[i].1));
            }
        }
    }
}

proof fn lemma_rules_calm(c: Seq<(Rgb, Seq<char>)>)
    requires
        classes_calm(c),
    ensures
        calm(document::class_rules(c)),
    decreases c.len(),
{
    lemma_pieces_calm();
    if c.len() > 0 {
        let d = c.drop_last();
        assert forall|i: int| 0 <= i < d.len() implies calm((#[trigger] d[i]).1) by {
            assert(calm(c[i].1));
        }
        lemma_rules_calm(d);
        assert(calm(c[c.len() - 1].1));
        lemma_css_words();
    }
}

/// The style sheet of a static document brings no animation into it.
#[verifier::rlimit(60)]
proof fn lemma_style_settled(doc: SvgDoc)
    requires
        doc.is_static,
        free(doc.style_block@),
        document::block_fits(doc.style_block@),
    ensures
        settled(
            document::with_rules(
                doc.style_block@,
                document::extra_css(true, doc.letter_spacing, doc.default_fg(), doc.classes()),
            ),
        ),
{
    lemma_pieces_calm();
    lemma_css_words();
    lemma_settled_adds();
    let all = doc.all_codes();
    let d = sort::distinct_ascending(all);
    lemma_classes_calm(all, d, doc.default_code(), d.len() as int);
    lemma_rules_calm(doc.classes());
    let css = document::extra_css(true, doc.letter_spacing, doc.default_fg(), doc.classes());
    assert(calm(css));
    assert(css.len() > 0 && css[0] == '.') by {
        reveal_strlit("");
        reveal_strlit(".b { font-weight: bold; }\n.i { font-style: italic; }\n.s { text-decoration: line-through; }\ntext, tspan { font-kerning: none; font-variant-ligatures: none; text-rendering: geometricPrecision; }\n");
    }
    let block = doc.style_block@;
    if document::ends_with(block, document::style_end()) {
        let kept = block.take(block.len() - 10);
        lemma_free_part(block, block.len() - 10);
        lemma_settled_by(kept, css);
    } else {
        reveal_strlit("<style>\n");
        lemma_settled_by(block, "<style>\n"@);
    }
}

/// A text without animations has none in its beginning.
proof fn lemma_free_part(s: Seq<char>, n: int)
    requires
        free(s),
        0 <= n <= s.len(),
    ensures
        free(s.take(n)),
{
    let a = "<animate"@;
    let b = "<set"@;
    let t = s.take(n);
    if holds(t, a) {
        let i = choose|i: int|
            0 <= i && i + a.len() <= t.len() && #[trigger] t.subrange(i, i + a.len()) == a;
        assert(s.subrange(i, i + a.len()) =~= t.subrange(i, i + a.len()));
    }
    if holds(t, b) {
        let i = choose|i: int|
            0 <= i && i + b.len() <= t.len() && #[trigger] t.subrange(i, i + b.len()) == b;
        assert(s.subrange(i, i + b.len()) =~= t.subrange(i, i + b.len()));
    }
}

proof fn lemma_head_words()
    ensures
        calm("<?xml version=\"1.0\" encoding=\"UTF-8\"?>\n<!-- Created with EVP v"@),
        calm(" (sha: "@),
        calm(", frames: "@),
        calm(", cols: "@),
        calm(", rows: "@),
        calm(", fps: "@),
        calm(", render_time: "@),
        calm("ms) -->\n<svg xmlns=\"http://www.w3.org/2000/svg\" viewBox=\"0 0 "@),
        calm(" "@),
        calm("\" width=\""@),
        calm("\" height=\""@),
        calm("\" font-family=\""@),
        calm("\" font-size=\""@),
        calm("\" xml:space=\"preserve\">\n"@),
{
    assert(calm("<?xml version=\"1.0\" encoding=\"UTF-8\"?>\n<!-- Created with EVP v"@)) by {
        reveal(calm);
        reveal_strlit("<?xml version=\"1.0\" encoding=\"UTF-8\"?>\n<!-- Created with EVP v");
    }
    assert(calm(" (sha: "@)) by {
        reveal(calm);
        reveal_strlit(" (sha: ");
    }
    assert(calm(", frames: "@)) by {
        reveal(calm);
        reveal_strlit(", frames: ");
    }
    assert(calm(", cols: "@)) by {
        reveal(calm);
        reveal_strlit(", cols: ");
    }
    assert(calm(", rows: "@)) by {
        reveal(calm);
        reveal_strlit(", rows: ");
    }
    assert(calm(", fps: "@)) by {
        reveal(calm);
        reveal_strlit(", fps: ");
    }
    assert(calm(", render_time: "@)) by {
        reveal(calm);
        reveal_strlit(", render_time: ");
    }
    assert(calm("ms) -->\n<svg xmlns=\"http://www.w3.org/2000/svg\" viewBox=\"0 0 "@)) by {
        reveal(calm);
        reveal_strlit("ms) -->\n<svg xmlns=\"http://www.w3.org/2000/svg\" viewBox=\"0 0 ");
    }
    assert(calm(" "@)) by {
        reveal(calm);
        reveal_strlit(" ");
    }
    assert(calm("\" width=\""@)) by {
        reveal(calm);
        reveal_strlit("\" width=\"");
    }
    assert(calm("\" height=\""@)) by {
        reveal(calm);
        reveal_strlit("\" height=\"");
    }
    assert(calm("\" font-family=\""@)) by {
        reveal(calm);
        reveal_strlit("\" font-family=\"");
    }
    assert(calm("\" font-size=\""@)) by {
        reveal(calm);
        reveal_strlit("\" font-size=\"");
    }
    assert(calm("\" xml:space=\"preserve\">\n"@)) by {
        reveal(calm);
        reveal_strlit("\" xml:space=\"preserve\">\n");
    }
}

#[verifier::rlimit(60)]
proof fn lemma_head_settled(doc: SvgDoc)
    requires
        doc.is_static,
        free(doc.version@),
        free(doc.revision@),
        free(doc.style_block@),
        document::block_fits(doc.style_block@),
    ensures
        settled(doc.head()),
{
    lemma_pieces_calm();
    lemma_head_words();
    lemma_settled_adds();
    lemma_style_settled(doc);
    let top = "<?xml version=\"1.0\" encoding=\"UTF-8\"?>\n<!-- Created with EVP v"@;
    reveal_strlit(" (sha: ");
    reveal_strlit(", frames: ");
    lemma_free_behind(top, doc.version@);
    lemma_settled_by(top + doc.version@, " (sha: "@);
    lemma_free_behind(top + doc.version@ + " (sha: "@, doc.revision@);
    lemma_settled_by(top + doc.version@ + " (sha: "@ + doc.revision@, ", frames: "@);
}

#[verifier::rlimit(60)]
proof fn lemma_bar_calm(doc: SvgDoc)
    requires
        doc.is_static,
    ensures
        calm(doc.bar()),
{
    lemma_pieces_calm();
    lemma_circles_calm(doc.window_bar_circles@);
    lemma_titles_calm(doc, sort::views(doc.title_segments@));
}

#[verifier::rlimit(60)]
proof fn lemma_body_settled(doc: SvgDoc)
    requires
        doc.is_static,
        clips_free(doc.rects()),
        clips_free(doc.strokes()),
    ensures
        settled(doc.body()),
{
    lemma_settled_adds();
    let all = doc.all_codes();
    let d = sort::distinct_ascending(all);
    lemma_classes_calm(all, d, doc.default_code(), d.len() as int);
    let total_ms = document::timer_ms(doc.master_timer_dur);
    lemma_rects_settled(doc.rects(), doc.classes(), total_ms);
    lemma_rects_settled(doc.strokes(), doc.classes(), total_ms);
    lemma_rows_calm(
        doc.lines(),
        doc.classes(),
        total_ms,
        doc.letter_spacing,
        doc.default_fg(),
    );
    lemma_cursors_calm(doc.cursor_rects@);
    lemma_mice_calm(doc.mouse_spans@);
}

proof fn lemma_settled_parts(
    a: Seq<char>,
    b: Seq<char>,
    c: Seq<char>,
    d: Seq<char>,
    e: Seq<char>,
    f: Seq<char>,
)
    requires
        settled(a),
        settled(b),
        settled(c),
        settled(d),
        settled(e),
        settled(f),
    ensures
        settled(a + b + c + d + e + f),
{
    lemma_settled_adds();
}

#[verifier::rlimit(60)]
proof fn lemma_document_settled(doc: SvgDoc)
    requires
        doc.is_static,
        free(doc.version@),
        free(doc.revision@),
        free(doc.style_block@),
        document::block_fits(doc.style_block@),
        clips_free(doc.rects()),
        clips_free(doc.strokes()),
    ensures
        settled(doc.svg()),
{
    lemma_head_settled(doc);
    lemma_frame_calm(doc);
    lemma_calm_settled(doc.frame());
    lemma_bar_calm(doc);
    lemma_calm_settled(doc.bar());
    lemma_body_settled(doc);
    reveal_strlit("");
    lemma_plain_calm(""@);
    lemma_calm_settled(""@);
    let end = "\n</svg>\n"@;
    assert(calm(end)) by {
        reveal(calm);
        reveal_strlit("\n</svg>\n");
    }
    lemma_calm_settled(end);
    lemma_settled_parts(doc.head(), doc.frame(), doc.bar(), doc.timer(), doc.body(), end);
}

proof fn lemma_longer_word(s: Seq<char>)
    requires
        !holds(s, "<animate"@),
    ensures
        !holds(s, "<animateTransform"@),
{
    let long = "<animateTransform"@;
    reveal_strlit("<animate");
    reveal_strlit("<animateTransform");
    if holds(s, long) {
        let i = choose|i: int|
            0 <= i && i + long.len() <= s.len() && #[trigger] s.subrange(i, i + long.len()) == long;
        assert(s.subrange(i, i + 8) =~= "<animate"@) by {
            assert forall|k: int| 0 <= k < 8 implies s.subrange(i, i + 8)[k] == "<animate"@[k] by {
                assert(s.subrange(i, i + long.len())[k] == long[k]);
            }
        }
    }
}

/// A static document holds no animation: neither `<animate>` nor `<animateTransform>` nor
/// `<set>`. What it takes over as it is must not hold one either: the name of the
/// program's version, the style block and the names of clip paths.
#[verifier::rlimit(60)]
pub proof fn lemma_static_document_is_still(doc: SvgDoc)
    requires
        doc.is_static,
        free(doc.version@),
        free(doc.revision@),
        free(doc.style_block@),
        document::block_fits(doc.style_block@),
        clips_free(doc.rects()),
        clips_free(doc.strokes()),
    ensures
        !holds(doc.svg(), "<animate"@),
        !holds(doc.svg(), "<animateTransform"@),
        !holds(doc.svg(), "<set"@),
{
    lemma_document_settled(doc);
    lemma_settled_free(doc.svg());
    lemma_longer_word(doc.svg());
}

proof fn lemma_document_clips(
    doc: SvgDoc,
    frames: Seq<RawFrame>,
    input: RenderInput,
    total_ms: u32,
)
    requires
        render::is_document_of(doc, frames, input, total_ms),
    ensures
        clips_free(doc.rects()),
        clips_free(doc.strokes()),
{
    let p = input.placement();
    let spans = render::document_spans(frames, total_ms);
    let clip = layout::frame_clip(p);
    layout::lemma_spans_clipped(spans, p);
    bounds::lemma_arranged_rects_clipped(layout::span_rects(spans, p), clip);
    bounds::lemma_arranged_rects_clipped(layout::span_lines(spans, p), clip);
    let name = "url(#frame-clip)"@;
    reveal_strlit("url(#frame-clip)");
    lemma_plain_calm(name);
    lemma_calm_settled(name);
    lemma_settled_free(name);
    let w = |r: BgRectView| r.clip_path == clip;
    assert forall|i: int| 0 <= i < doc.rects().len() implies ((
    #[trigger] doc.rects()[i]).clip_path matches Some(c) ==> free(c)) by {
        assert(w(doc.rects()[i]));
    }
    assert forall|i: int| 0 <= i < doc.strokes().len() implies ((
    #[trigger] doc.strokes()[i]).clip_path matches Some(c) ==> free(c)) by {
        assert(w(doc.strokes()[i]));
    }
}

/// A screenshot holds no animation, however its frames differ. What is taken over into it
/// as it is must not hold one either: the name of the program's version and the
/// declarations of the fonts.
pub proof fn lemma_screenshot_is_still(
    doc: SvgDoc,
    frames: Seq<RawFrame>,
    input: RenderInput,
    total_ms: u32,
)
    requires
        render::is_document_of(doc, frames, input, total_ms),
        input.opts.is_screenshot,
        free(input.build.version@),
        free(input.build.revision@),
        free(
            fonts::style_block_text(
                input.book.uses@,
                input.book.fonts@,
                input.opts.embed_fonts,
            ),
        ),
    ensures
        !holds(doc.svg(), "<animate"@),
        !holds(doc.svg(), "<animateTransform"@),
        !holds(doc.svg(), "<set"@),
{
    lemma_document_clips(doc, frames, input, total_ms);
    render::lemma_style_block_fits(
        input.book.uses@,
        input.book.fonts@,
        input.opts.embed_fonts,
    );
    lemma_static_document_is_still(doc);
}

} // verus!
