//! Text building blocks: decimal and hexadecimal numerals, joined lists and
//! the small string helpers the renderers share.
use vstd::prelude::*;
use vstd::string::*;

verus! {

/// `String::push` appends one character.
pub assume_specification[ String::push ](s: &mut String, c: char)
    ensures
        final(s)@ == old(s)@.push(c),
;

/// The decimal digit that stands for `d % 10`.
pub open spec fn digit_char(d: nat) -> char {
    (48 + d % 10) as char
}

/// The decimal numeral of `n`, without leading zeros.
pub open spec fn decimal(n: nat) -> Seq<char>
    decreases n,
{
    if n < 10 {
        seq![digit_char(n)]
    } else {
        decimal(n / 10).push(digit_char(n % 10))
    }
}

/// The last `width` decimal digits of `n`, padded with zeros on the left.
pub open spec fn padded(n: nat, width: nat) -> Seq<char>
    decreases width,
{
    if width == 0 {
        Seq::empty()
    } else {
        padded(n / 10, (width - 1) as nat).push(digit_char(n % 10))
    }
}

/// The lower case hexadecimal digit of `d`.
pub open spec fn hex_char(d: nat) -> char {
    if d < 10 {
        (48 + d) as char
    } else {
        (87 + d) as char
    }
}

/// Two lower case hexadecimal digits.
pub open spec fn hex_byte(b: u8) -> Seq<char> {
    seq![hex_char((b / 16) as nat), hex_char((b % 16) as nat)]
}

/// The pieces of `parts` one after another, with `sep` between neighbours.
pub open spec fn joined(parts: Seq<Seq<char>>, sep: Seq<char>) -> Seq<char>
    decreases parts.len(),
{
    if parts.len() == 0 {
        Seq::empty()
    } else if parts.len() == 1 {
        parts[0]
    } else {
        joined(parts.drop_last(), sep) + sep + parts.last()
    }
}

/// The texts of a list of strings.
pub open spec fn texts(v: Seq<String>) -> Seq<Seq<char>> {
    Seq::new(v.len(), |i: int| v[i]@)
}

/// `s` without the zeros at its end.
pub open spec fn without_trailing_zeros(s: Seq<char>) -> Seq<char>
    decreases s.len(),
{
    if s.len() > 0 && s.last() == '0' {
        without_trailing_zeros(s.drop_last())
    } else {
        s
    }
}

fn digit(d: u8) -> (c: char)
    requires
        d < 10,
    ensures
        c == digit_char(d as nat),
{
    (48u8 + d) as char
}

fn hex_digit(d: u8) -> (c: char)
    requires
        d < 16,
    ensures
        c == hex_char(d as nat),
{
    if d < 10 {
        (48u8 + d) as char
    } else {
        (87u8 + d) as char
    }
}

/// Appends the decimal numeral of `n`.
pub fn push_decimal(out: &mut String, n: u128)
    ensures
        final(out)@ == old(out)@ + decimal(n as nat),
    decreases n,
{
    if n < 10 {
        out.push(digit(n as u8));
        assert(out@ =~= old(out)@ + decimal(n as nat));
    } else {
        push_decimal(out, n / 10);
        out.push(digit((n % 10) as u8));
        assert(out@ =~= old(out)@ + decimal(n as nat));
    }
}

/// The decimal numeral of `n`.
pub fn decimal_text(n: u128) -> (out: String)
    ensures
        out@ == decimal(n as nat),
{
    let mut out: String = String::new();
    push_decimal(&mut out, n);
    assert(out@ =~= decimal(n as nat));
    out
}

/// Appends the last `width` decimal digits of `n`.
pub fn push_padded(out: &mut String, n: u128, width: u8)
    ensures
        final(out)@ == old(out)@ + padded(n as nat, width as nat),
    decreases width,
{
    if width == 0 {
        assert(out@ =~= old(out)@ + padded(n as nat, 0));
    } else {
        push_padded(out, n / 10, width - 1);
        out.push(digit((n % 10) as u8));
        assert(out@ =~= old(out)@ + padded(n as nat, width as nat));
    }
}

/// Appends two hexadecimal digits.
pub fn push_hex_byte(out: &mut String, b: u8)
    ensures
        final(out)@ == old(out)@ + hex_byte(b),
{
    out.push(hex_digit(b / 16));
    out.push(hex_digit(b % 16));
    assert(out@ =~= old(out)@ + hex_byte(b));
}

/// The characters of a string.
pub fn to_chars(s: &str) -> (out: Vec<char>)
    ensures
        out@ == s@,
{
    let mut out: Vec<char> = Vec::new();
    for c in it: s.chars()
        invariant
            it.seq() == s@,
            out@ == s@.take(it.index()),
    {
        out.push(c);
    }
    assert(s@.take(s@.len() as int) =~= s@);
    out
}

/// The string made of the characters `from..to` of `chars`.
pub fn chars_text(chars: &Vec<char>, from: usize, to: usize) -> (out: String)
    requires
        from <= to <= chars@.len(),
    ensures
        out@ == chars@.subrange(from as int, to as int),
{
    let mut out: String = String::new();
    let mut i: usize = from;
    while i < to
        invariant
            from <= i <= to <= chars@.len(),
            out@ == chars@.subrange(from as int, i as int),
        decreases to - i,
    {
        out.push(chars[i]);
        i = i + 1;
        assert(out@ =~= chars@.subrange(from as int, i as int));
    }
    out
}

/// `parts` joined with `sep`.
pub fn join(parts: &Vec<String>, sep: &str) -> (out: String)
    ensures
        out@ == joined(texts(parts@), sep@),
{
    let mut out: String = String::new();
    let mut i: usize = 0;
    while i < parts.len()
        invariant
            i <= parts@.len(),
            out@ == joined(texts(parts@).take(i as int), sep@),
        decreases parts@.len() - i,
    {
        let ghost upto = texts(parts@).take(i as int + 1);
        assert(upto.drop_last() =~= texts(parts@).take(i as int));
        if i > 0 {
            out.append(sep);
        }
        out.append(parts[i].as_str());
        if i == 0 {
            assert(out@ =~= parts@[0]@);
        }
        assert(upto.last() == parts@[i as int]@);
        i = i + 1;
    }
    assert(texts(parts@).take(parts@.len() as int) =~= texts(parts@));
    out
}

/// Whether two texts are the same.
pub fn same_text(a: &str, b: &str) -> (r: bool)
    ensures
        r == (a@ == b@),
{
    let ca: Vec<char> = to_chars(a);
    let cb: Vec<char> = to_chars(b);
    if ca.len() != cb.len() {
        return false;
    }
    let mut i: usize = 0;
    while i < ca.len()
        invariant
            ca@ == a@,
            cb@ == b@,
            ca@.len() == cb@.len(),
            i <= ca@.len(),
            forall|k: int| 0 <= k < i ==> ca@[k] == cb@[k],
        decreases ca@.len() - i,
    {
        if ca[i] != cb[i] {
            return false;
        }
        i = i + 1;
    }
    assert(a@ =~= b@);
    true
}

/// Every character of `s` replaced by its image under `f`.
pub open spec fn flat_chars(s: Seq<char>, f: spec_fn(char) -> Seq<char>) -> Seq<char>
    decreases s.len(),
{
    if s.len() == 0 {
        Seq::empty()
    } else {
        flat_chars(s.drop_last(), f) + f(s.last())
    }
}

/// What an XML text node shows for `c`.
pub open spec fn text_entity(c: char) -> Seq<char> {
    if c == '&' {
        "&amp;"@
    } else if c == '<' {
        "&lt;"@
    } else if c == '>' {
        "&gt;"@
    } else {
        seq![c]
    }
}

/// What an XML attribute value holds for `c`.
pub open spec fn attr_entity(c: char) -> Seq<char> {
    if c == '"' {
        "&quot;"@
    } else if c == '\'' {
        "&apos;"@
    } else {
        text_entity(c)
    }
}

/// `s` as XML text content.
pub open spec fn escaped_text(s: Seq<char>) -> Seq<char> {
    flat_chars(s, |c: char| text_entity(c))
}

/// `s` as an XML attribute value.
pub open spec fn escaped_attr(s: Seq<char>) -> Seq<char> {
    flat_chars(s, |c: char| attr_entity(c))
}

fn push_text_entity(out: &mut String, c: char)
    ensures
        final(out)@ == old(out)@ + text_entity(c),
{
    if c == '&' {
        out.append("&amp;");
    } else if c == '<' {
        out.append("&lt;");
    } else if c == '>' {
        out.append("&gt;");
    } else {
        out.push(c);
        assert(out@ =~= old(out)@ + seq![c]);
    }
}

/// Escape a string for use as XML text content. Spaces are kept verbatim
/// because the root `<svg>` sets `xml:space="preserve"`.
pub fn escape_text(s: &str) -> (out: String)
    ensures
        out@ == escaped_text(s@),
{
    let chars: Vec<char> = to_chars(s);
    let mut out: String = String::new();
    let mut i: usize = 0;
    while i < chars.len()
        invariant
            chars@ == s@,
            i <= chars@.len(),
            out@ == escaped_text(chars@.take(i as int)),
        decreases chars@.len() - i,
    {
        push_text_entity(&mut out, chars[i]);
        assert(chars@.take(i + 1).drop_last() =~= chars@.take(i as int));
        i = i + 1;
    }
    assert(chars@.take(chars@.len() as int) =~= s@);
    out
}

/// Escape a string for use as an XML attribute value.
pub fn escape_attr(s: &str) -> (out: String)
    ensures
        out@ == escaped_attr(s@),
{
    let chars: Vec<char> = to_chars(s);
    let mut out: String = String::new();
    let mut i: usize = 0;
    while i < chars.len()
        invariant
            chars@ == s@,
            i <= chars@.len(),
            out@ == escaped_attr(chars@.take(i as int)),
        decreases chars@.len() - i,
    {
        let c: char = chars[i];
        if c == '"' {
            out.append("&quot;");
        } else if c == '\'' {
            out.append("&apos;");
        } else {
            push_text_entity(&mut out, c);
        }
        assert(chars@.take(i + 1).drop_last() =~= chars@.take(i as int));
        i = i + 1;
    }
    assert(chars@.take(chars@.len() as int) =~= s@);
    out
}

/// Escaping acts on each character by itself: the escape of a concatenation is
/// the concatenation of the escapes.
pub proof fn lemma_escape_concat(a: Seq<char>, b: Seq<char>, f: spec_fn(char) -> Seq<char>)
    ensures
        flat_chars(a + b, f) == flat_chars(a, f) + flat_chars(b, f),
    decreases b.len(),
{
    if b.len() == 0 {
        assert(a + b =~= a);
        assert(flat_chars(a, f) + flat_chars(b, f) =~= flat_chars(a, f));
    } else {
        assert((a + b).drop_last() =~= a + b.drop_last());
        lemma_escape_concat(a, b.drop_last(), f);
        assert(flat_chars(a, f) + flat_chars(b, f) =~= flat_chars(a, f) + flat_chars(
            b.drop_last(),
            f,
        ) + f(b.last()));
    }
}

/// Escaped text holds no markup: neither `<` nor `>` occurs in it.
pub proof fn lemma_escaped_text_is_plain(s: Seq<char>)
    ensures
        forall|i: int|
            0 <= i < escaped_text(s).len() ==> escaped_text(s)[i] != '<' && escaped_text(s)[i]
                != '>',
    decreases s.len(),
{
    reveal_strlit("&amp;");
    reveal_strlit("&lt;");
    reveal_strlit("&gt;");
    if s.len() > 0 {
        lemma_escaped_text_is_plain(s.drop_last());
        let head = escaped_text(s.drop_last());
        let tail = text_entity(s.last());
        assert(escaped_text(s) == head + tail);
        assert forall|i: int| 0 <= i < (head + tail).len() implies (head + tail)[i] != '<' && (head
            + tail)[i] != '>' by {
            if i >= head.len() {
                assert((head + tail)[i] == tail[i - head.len()]);
            }
        }
    }
}

/// An escaped attribute value holds no quote and no markup, so it can stand
/// between quotes of either kind.
pub proof fn lemma_escaped_attr_is_plain(s: Seq<char>)
    ensures
        forall|i: int|
            0 <= i < escaped_attr(s).len() ==> {
                &&& escaped_attr(s)[i] != '<'
                &&& escaped_attr(s)[i] != '>'
                &&& escaped_attr(s)[i] != '"'
                &&& escaped_attr(s)[i] != '\''
            },
    decreases s.len(),
{
    reveal_strlit("&amp;");
    reveal_strlit("&lt;");
    reveal_strlit("&gt;");
    reveal_strlit("&quot;");
    reveal_strlit("&apos;");
    if s.len() > 0 {
        lemma_escaped_attr_is_plain(s.drop_last());
        let head = escaped_attr(s.drop_last());
        let tail = attr_entity(s.last());
        assert(escaped_attr(s) == head + tail);
        assert forall|i: int| 0 <= i < (head + tail).len() implies {
            &&& (head + tail)[i] != '<'
            &&& (head + tail)[i] != '>'
            &&& (head + tail)[i] != '"'
            &&& (head + tail)[i] != '\''
        } by {
            if i >= head.len() {
                assert((head + tail)[i] == tail[i - head.len()]);
            }
        }
    }
}

/// Whether two sequences differ somewhere before either ends.
pub open spec fn parted(x: Seq<char>, y: Seq<char>) -> bool {
    exists|i: int| 0 <= i < x.len() && i < y.len() && x[i] != #[trigger] y[i]
}

/// Whether the images of any two characters part.
pub open spec fn tells_apart(f: spec_fn(char) -> Seq<char>) -> bool {
    &&& forall|c: char| (#[trigger] f(c)).len() > 0
    &&& forall|c: char, d: char| c != d ==> parted(#[trigger] f(c), #[trigger] f(d))
}

proof fn lemma_flat_first(s: Seq<char>, f: spec_fn(char) -> Seq<char>)
    requires
        s.len() > 0,
    ensures
        flat_chars(s, f) == f(s[0]) + flat_chars(s.skip(1), f),
{
    let one = seq![s[0]];
    assert(one + s.skip(1) =~= s);
    lemma_escape_concat(one, s.skip(1), f);
    assert(one.drop_last() =~= Seq::empty());
    assert(flat_chars(one.drop_last(), f) =~= Seq::empty());
    assert(flat_chars(one, f) =~= f(s[0]));
}

proof fn lemma_flat_tells(a: Seq<char>, b: Seq<char>, f: spec_fn(char) -> Seq<char>)
    requires
        tells_apart(f),
        flat_chars(a, f) == flat_chars(b, f),
    ensures
        a == b,
    decreases a.len(),
{
    if a.len() == 0 {
        if b.len() > 0 {
            lemma_flat_first(b, f);
            assert(f(b[0]).len() > 0);
        }
        assert(a =~= b);
    } else {
        lemma_flat_first(a, f);
        assert(f(a[0]).len() > 0);
        if b.len() > 0 {
            lemma_flat_first(b, f);
            let x = f(a[0]) + flat_chars(a.skip(1), f);
            let y = f(b[0]) + flat_chars(b.skip(1), f);
            assert(x == y);
            if a[0] != b[0] {
                assert(parted(f(a[0]), f(b[0])));
                let (u, v) = (f(a[0]), f(b[0]));
                let i = choose|i: int|
                    0 <= i < u.len() && i < v.len() && u[i] != #[trigger] v[i];
                assert(x[i] == u[i]);
                assert(y[i] == v[i]);
                assert(false);
            }
            let n = f(a[0]).len() as int;
            assert(x.skip(n) =~= flat_chars(a.skip(1), f));
            assert(y.skip(n) =~= flat_chars(b.skip(1), f));
            lemma_flat_tells(a.skip(1), b.skip(1), f);
            assert(a =~= seq![a[0]] + a.skip(1));
            assert(b =~= seq![b[0]] + b.skip(1));
        }
    }
}

proof fn lemma_entities_part(c: char, d: char)
    requires
        c != d,
    ensures
        parted(text_entity(c), text_entity(d)),
        parted(attr_entity(c), attr_entity(d)),
{
    reveal_strlit("&amp;");
    reveal_strlit("&lt;");
    reveal_strlit("&gt;");
    reveal_strlit("&quot;");
    reveal_strlit("&apos;");
    let (x, y) = (text_entity(c), text_entity(d));
    assert(x[0] != y[0] || x[1] != y[1]);
    let (u, v) = (attr_entity(c), attr_entity(d));
    assert(u[0] != v[0] || u[1] != v[1] || u[2] != v[2]);
}

/// Escaped text tells what was escaped: no two texts have the same.
pub proof fn lemma_escaped_text_tells(a: Seq<char>, b: Seq<char>)
    requires
        escaped_text(a) == escaped_text(b),
    ensures
        a == b,
{
    let f = |c: char| text_entity(c);
    assert forall|c: char| (#[trigger] f(c)).len() > 0 by {
        reveal_strlit("&amp;");
        reveal_strlit("&lt;");
        reveal_strlit("&gt;");
    }
    assert forall|c: char, d: char| c != d implies parted(#[trigger] f(c), #[trigger] f(d)) by {
        lemma_entities_part(c, d);
    }
    lemma_flat_tells(a, b, f);
}

/// So does an escaped attribute value.
pub proof fn lemma_escaped_attr_tells(a: Seq<char>, b: Seq<char>)
    requires
        escaped_attr(a) == escaped_attr(b),
    ensures
        a == b,
{
    let f = |c: char| attr_entity(c);
    assert forall|c: char| (#[trigger] f(c)).len() > 0 by {
        reveal_strlit("&amp;");
        reveal_strlit("&lt;");
        reveal_strlit("&gt;");
        reveal_strlit("&quot;");
        reveal_strlit("&apos;");
    }
    assert forall|c: char, d: char| c != d implies parted(#[trigger] f(c), #[trigger] f(d)) by {
        lemma_entities_part(c, d);
    }
    lemma_flat_tells(a, b, f);
}

/// Whether a character is white space.
pub open spec fn is_space(c: char) -> bool {
    let n = c as u32;
    (9 <= n && n <= 13) || n == 0x20 || n == 0x85 || n == 0xA0 || n == 0x1680 || (0x2000 <= n && n
        <= 0x200A) || n == 0x2028 || n == 0x2029 || n == 0x202F || n == 0x205F || n == 0x3000
}

/// Whether a character is white space.
pub fn is_space_char(c: char) -> (r: bool)
    ensures
        r == is_space(c),
{
    let n: u32 = c as u32;
    (9 <= n && n <= 13) || n == 0x20 || n == 0x85 || n == 0xA0 || n == 0x1680 || (0x2000 <= n && n
        <= 0x200A) || n == 0x2028 || n == 0x2029 || n == 0x202F || n == 0x205F || n == 0x3000
}

/// `s` without white space at its end.
pub open spec fn trimmed_end(s: Seq<char>) -> Seq<char>
    decreases s.len(),
{
    if s.len() > 0 && is_space(s.last()) {
        trimmed_end(s.drop_last())
    } else {
        s
    }
}

/// A letter in lower case; other characters as they are.
pub open spec fn lower(c: char) -> char {
    if 'A' <= c && c <= 'Z' {
        (c as u32 + 32) as char
    } else {
        c
    }
}

/// Whether two texts are the same but for the case of ASCII letters.
pub open spec fn same_but_case(a: Seq<char>, b: Seq<char>) -> bool {
    a.len() == b.len() && forall|i: int| 0 <= i < a.len() ==> lower(#[trigger] a[i]) == lower(b[i])
}

fn lower_char(c: char) -> (r: u32)
    ensures
        r == lower(c) as u32,
{
    let n: u32 = c as u32;
    if 'A' <= c && c <= 'Z' {
        n + 32
    } else {
        n
    }
}

pub fn is_same_but_case(a: &Vec<char>, b: &str) -> (r: bool)
    ensures
        r == same_but_case(a@, b@),
{
    let c: Vec<char> = to_chars(b);
    if a.len() != c.len() {
        return false;
    }
    let mut i: usize = 0;
    while i < a.len()
        invariant
            c@ == b@,
            a@.len() == c@.len(),
            i <= a@.len(),
            forall|k: int| 0 <= k < i ==> lower(#[trigger] a@[k]) == lower(b@[k]),
        decreases a@.len() - i,
    {
        if lower_char(a[i]) != lower_char(c[i]) {
            assert(lower(a@[i as int]) != lower(b@[i as int]));
            return false;
        }
        i = i + 1;
    }
    true
}

} // verus!
