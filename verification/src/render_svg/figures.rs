//! Figures and escapes that can be read back from the text of a document.
use vstd::prelude::*;
use vstd::string::*;

use crate::render_svg::written;
use crate::single;
use crate::single::ONE;
use crate::text;

verus! {

/// The characters that markup is made of are written as the entities that stand for them,
/// in text and in attributes; quotes in attributes too; all others as they are.
pub proof fn lemma_entities(c: char)
    ensures
        c == '&' ==> text::text_entity(c) == "&amp;"@,
        c == '<' ==> text::text_entity(c) == "&lt;"@,
        c == '>' ==> text::text_entity(c) == "&gt;"@,
        c != '&' && c != '<' && c != '>' ==> text::text_entity(c) == seq![c],
        c == '"' ==> text::attr_entity(c) == "&quot;"@,
        c == '\'' ==> text::attr_entity(c) == "&apos;"@,
        c != '"' && c != '\'' ==> text::attr_entity(c) == text::text_entity(c),
{
}

/// A text without such characters is written as it is.
pub proof fn lemma_plain_text(s: Seq<char>)
    requires
        forall|i: int| 0 <= i < s.len() ==> s[i] != '&' && s[i] != '<' && #[trigger] s[i] != '>',
    ensures
        text::escaped_text(s) == s,
    decreases s.len(),
{
    if s.len() > 0 {
        let d = s.drop_last();
        lemma_plain_text(d);
        let f = |c: char| text::text_entity(c);
        let last = s[s.len() - 1];
        assert(last != '&' && last != '<' && last != '>');
        assert(text::flat_chars(s, f) == text::flat_chars(d, f) + f(s.last()));
        assert(text::escaped_text(s) =~= s);
    } else {
        assert(text::escaped_text(s) =~= s);
    }
}

/// Whether a text consists of decimal digits.
pub open spec fn digits(s: Seq<char>) -> bool {
    forall|i: int| 0 <= i < s.len() ==> '0' <= #[trigger] s[i] <= '9'
}

proof fn lemma_power_positive(p: nat)
    ensures
        single::power_of_ten(p) > 0,
    decreases p,
{
    if p > 0 {
        lemma_power_positive((p - 1) as nat);
    }
}

proof fn lemma_padded(n: nat, w: nat)
    ensures
        text::padded(n, w).len() == w,
        digits(text::padded(n, w)),
        written::number_of(text::padded(n, w)) == n % single::power_of_ten(w),
    decreases w,
{
    let s = text::padded(n, w);
    if w > 0 {
        let k = single::power_of_ten((w - 1) as nat);
        lemma_power_positive((w - 1) as nat);
        lemma_padded(n / 10, (w - 1) as nat);
        assert(s.drop_last() =~= text::padded(n / 10, (w - 1) as nat));
        vstd::arithmetic::div_mod::lemma_mod_breakdown(n as int, 10, k as int);
    }
}

proof fn lemma_without_zeros(s: Seq<char>)
    requires
        digits(s),
    ensures
        ({
            let t = text::without_trailing_zeros(s);
            &&& t.len() <= s.len()
            &&& digits(t)
            &&& t.len() > 0 ==> t.last() != '0'
            &&& written::number_of(s) == written::number_of(t) * single::power_of_ten(
                (s.len() - t.len()) as nat,
            )
        }),
    decreases s.len(),
{
    if s.len() > 0 && s.last() == '0' {
        let d = s.drop_last();
        lemma_without_zeros(d);
        let t = text::without_trailing_zeros(d);
        let k = single::power_of_ten((d.len() - t.len()) as nat);
        let n = written::number_of(t);
        assert(single::power_of_ten((s.len() - t.len()) as nat) == 10 * k);
        assert(10 * (n * k) == n * (10 * k)) by (nonlinear_arith);
    } else {
        assert(written::number_of(s) * 1 == written::number_of(s));
    }
}

/// A length or a time is written in decimal: a minus if it is below zero, the whole
/// number, and behind a point as many of the places as are not zero. Read back, it is the
/// nearest that so many places can say.
pub proof fn lemma_fixed_read(v: int, places: nat)
    ensures
        ({
            let (d, whole, part) = fixed_parts(v, places);
            let t = single::power_of_ten(places);
            let sign = if v < 0 {
                seq!['-']
            } else {
                Seq::empty()
            };
            let m = if v < 0 {
                -v
            } else {
                v
            };
            &&& part.len() <= places && digits(part) && (part.len() > 0 ==> part.last() != '0')
            &&& single::fixed_text(v, places) == sign + text::decimal(whole) + (if part.len() == 0 {
                part
            } else {
                seq!['.'] + part
            })
            &&& d == whole * t + written::number_of(part) * single::power_of_ten(
                (places - part.len()) as nat,
            )
            &&& 2 * d * ONE - ONE <= 2 * m * t <= 2 * d * ONE + ONE
        }),
{
    let m = single::magnitude(v);
    let t = single::power_of_ten(places);
    let d = single::fixed_digits(m, places);
    lemma_power_positive(places);
    let f = d % t;
    lemma_padded(f, places);
    lemma_without_zeros(text::padded(f, places));
    vstd::arithmetic::div_mod::lemma_fundamental_div_mod(d as int, t as int);
    assert(d == (d / t) * t + f) by (nonlinear_arith)
        requires
            d == t * (d / t) + f,
    ;
    vstd::arithmetic::div_mod::lemma_small_mod(f, t);
    lemma_nearest(m * t, ONE as nat);
    assert(2 * m * t == 2 * (m * t)) by (nonlinear_arith);
    assert(2 * d * ONE == 2 * (d * ONE)) by (nonlinear_arith);
    assert(single::fraction_text(f, places) =~= (if fixed_parts(v, places).2.len() == 0 {
        fixed_parts(v, places).2
    } else {
        seq!['.'] + fixed_parts(v, places).2
    }));
}

/// The number that is written, its whole part, and the digits behind the point.
pub open spec fn fixed_parts(v: int, places: nat) -> (nat, nat, Seq<char>) {
    let d = single::fixed_digits(single::magnitude(v), places);
    let t = single::power_of_ten(places);
    (d, d / t, text::without_trailing_zeros(text::padded(d % t, places)))
}

proof fn lemma_nearest(num: nat, den: nat)
    requires
        den > 0,
    ensures
        ({
            let n = single::nearest_even(num, den);
            2 * (n * den) - den <= 2 * num <= 2 * (n * den) + den
        }),
{
    let n = single::nearest_even(num, den);
    let (q, r) = (num / den, num % den);
    vstd::arithmetic::div_mod::lemma_fundamental_div_mod(num as int, den as int);
    assert(num == q * den + r) by (nonlinear_arith)
        requires
            num == den * q + r,
    ;
    assert((q + 1) * den == q * den + den) by (nonlinear_arith);
}

} // verus!
