//! Single-precision numbers as integers.
//!
//! Layout and timing are carried in single precision. A [`Measure`] is such a
//! number written as a whole count of units of `1 / ONE`, so that every value
//! the renderers meet is exact and can be compared, rounded and printed with
//! integer arithmetic.
use vstd::prelude::*;
use vstd::string::*;
use crate::text;
use crate::text::{push_decimal, push_padded};

verus! {

/// A single-precision number, in units of `1 / ONE`.
pub type Measure = i128;

/// The number one as a [`Measure`]: two to the power of 64.
pub const ONE: i128 = 0x1_0000_0000_0000_0000;

/// Bound on the magnitude of a [`Measure`] that can be printed.
pub const MEASURE_LIMIT: i128 = 0x400_0000_0000_0000_0000_0000;

/// Bound on the magnitude of a [`Measure`] that can be printed with at most four
/// decimal places.
pub const WIDE_LIMIT: i128 = 0x1_0000_0000_0000_0000_0000_0000_0000;

/// Whether `v` can be printed with `places` decimal places.
pub open spec fn printable(v: int, places: nat) -> bool {
    places <= 11 && magnitude(v) <= (if places <= 4 {
        WIDE_LIMIT
    } else {
        MEASURE_LIMIT
    })
}

/// The integer nearest to `num / den`; of two equally near ones, the even one.
pub open spec fn nearest_even(num: nat, den: nat) -> nat {
    let q = num / den;
    let r = num % den;
    if 2 * r < den {
        q
    } else if 2 * r > den {
        q + 1
    } else if q % 2 == 0 {
        q
    } else {
        q + 1
    }
}

/// The gap between neighbouring numbers of 24 significant bits around `n`:
/// the least power of two that leaves fewer than 25 bits of `n` above it.
pub open spec fn step_of(n: nat) -> nat
    decreases n,
{
    if n < 0x100_0000 {
        1
    } else {
        2 * step_of(n / 2)
    }
}

/// `num / den` rounded to 24 significant bits.
pub open spec fn single_ratio(num: nat, den: nat) -> nat {
    let step = step_of(num / den);
    nearest_even(num, den * step) * step
}

/// `v` rounded to 24 significant bits, whatever its sign.
pub open spec fn single(v: int) -> int {
    if v >= 0 {
        single_ratio(v as nat, 1) as int
    } else {
        -(single_ratio((-v) as nat, 1) as int)
    }
}

/// The whole number `n` in single precision.
pub open spec fn whole(n: u32) -> int {
    single(n * ONE)
}

/// The single-precision quotient of two whole numbers.
pub open spec fn quotient(a: u32, b: u32) -> int {
    single_ratio((single(a as int) * ONE) as nat, single(b as int) as nat) as int
}

pub open spec fn power_of_ten(p: nat) -> nat
    decreases p,
{
    if p == 0 {
        1
    } else {
        10 * power_of_ten((p - 1) as nat)
    }
}

/// `v` in units of the `places`-th decimal place, rounded to the nearest.
pub open spec fn fixed_digits(v: nat, places: nat) -> nat {
    nearest_even(v * power_of_ten(places), ONE as nat)
}

pub open spec fn magnitude(v: int) -> nat {
    if v < 0 {
        (-v) as nat
    } else {
        v as nat
    }
}

/// A point and `f` in `places` decimal places, without trailing zeros.
pub open spec fn fraction_text(f: nat, places: nat) -> Seq<char> {
    let digits = text::without_trailing_zeros(text::padded(f, places));
    if digits.len() == 0 {
        digits
    } else {
        seq!['.'] + digits
    }
}

/// `v` with at most `places` decimal places, without trailing zeros.
pub open spec fn fixed_text(v: int, places: nat) -> Seq<char> {
    let d = fixed_digits(magnitude(v), places);
    let t = power_of_ten(places);
    (if v < 0 {
        seq!['-']
    } else {
        Seq::<char>::empty()
    }) + text::decimal(d / t) + fraction_text(d % t, places)
}

/// Whether `v` printed with `places` decimal places is read back as `v`.
pub open spec fn reads_back(v: nat, places: nat) -> bool {
    single_ratio(fixed_digits(v, places) * (ONE as nat), power_of_ten(places)) == v
}

/// The least number of decimal places, from `p` on, that reads back.
pub open spec fn enough_places(v: nat, p: nat) -> nat
    decreases 11 - p,
{
    if p >= 11 || reads_back(v, p) {
        p
    } else {
        enough_places(v, p + 1)
    }
}

/// The shortest decimal that reads back as `v`.
pub open spec fn shortest_text(v: int) -> Seq<char> {
    fixed_text(v, enough_places(magnitude(v), 0))
}

pub(crate) proof fn lemma_step_bounds(n: nat)
    ensures
        1 <= step_of(n),
        n >= 1 ==> step_of(n) <= n,
    decreases n,
{
    if n >= 0x100_0000 {
        lemma_step_bounds(n / 2);
    }
}

pub(crate) proof fn lemma_nearest_even_bounds(num: nat, den: nat)
    requires
        den > 0,
    ensures
        num / den <= nearest_even(num, den) <= num / den + 1,
        nearest_even(num, den) * den <= num + den,
{
    let q = num / den;
    assert(q * den + num % den == num) by (nonlinear_arith)
        requires
            den > 0,
            q == num / den,
    ;
    assert((q + 1) * den == q * den + den) by (nonlinear_arith);
}

/// Rounding to single precision keeps the order of numbers apart from zero: it
/// never more than doubles a number, and takes only zero to zero.
pub proof fn lemma_single_ratio_bounds(num: nat, den: nat)
    requires
        den > 0,
    ensures
        single_ratio(num, den) <= 2 * (num / den) + 1,
        num >= den ==> single_ratio(num, den) >= 1,
{
    let n = num / den;
    let step = step_of(n);
    lemma_step_bounds(n);
    let d = den * step;
    assert(d > 0) by (nonlinear_arith)
        requires
            den > 0,
            step >= 1,
            d == den * step,
    ;
    lemma_nearest_even_bounds(num, d);
    let q = nearest_even(num, d);
    assert(num / d == n / step) by {
        vstd::arithmetic::div_mod::lemma_div_denominator(num as int, den as int, step as int);
    }
    assert((n / step) * step <= n) by (nonlinear_arith)
        requires
            step >= 1,
    ;
    assert(q * step <= (n / step) * step + step) by (nonlinear_arith)
        requires
            q <= n / step + 1,
            step >= 1,
    ;
    if n == 0 {
        assert(step == 1);
        assert(n / step == 0);
    }
    if num >= den {
        assert(n >= 1) by (nonlinear_arith)
            requires
                num >= den,
                den > 0,
                n == num / den,
        ;
        assert(n / step >= 1) by (nonlinear_arith)
            requires
                1 <= step <= n,
        ;
        assert(q * step >= 1) by (nonlinear_arith)
            requires
                q >= 1,
                step >= 1,
        ;
    }
}

proof fn lemma_power_of_ten_bound(p: nat)
    ensures
        1 <= power_of_ten(p),
        p <= 11 ==> power_of_ten(p) <= 100_000_000_000,
{
    reveal_with_fuel(power_of_ten, 12);
    lemma_power_of_ten_positive(p);
}

proof fn lemma_power_of_ten_positive(p: nat)
    ensures
        1 <= power_of_ten(p),
    decreases p,
{
    if p > 0 {
        lemma_power_of_ten_positive((p - 1) as nat);
    }
}

/// The integer nearest to `num / den`, ties to even.
pub fn round_ratio(num: u128, den: u128) -> (r: u128)
    requires
        den > 0,
    ensures
        r == nearest_even(num as nat, den as nat),
{
    let q: u128 = num / den;
    let r: u128 = num % den;
    assert(den >= 2 ==> q <= num / 2) by (nonlinear_arith)
        requires
            q == num / den,
            den > 0,
    ;
    assert(den == 1 ==> r == 0);
    if r < den - r {
        q
    } else if r > den - r {
        q + 1
    } else if q % 2 == 0 {
        q
    } else {
        q + 1
    }
}

pub(crate) fn step(n: u128) -> (r: u128)
    ensures
        r == step_of(n as nat),
        1 <= r,
        n >= 1 ==> r <= n,
    decreases n,
{
    if n < 0x100_0000 {
        1
    } else {
        2 * step(n / 2)
    }
}

/// `num / den` rounded to 24 significant bits.
pub fn round_single_ratio(num: u128, den: u128) -> (r: u128)
    requires
        den > 0,
        num <= 0x7fff_ffff_ffff_ffff_ffff_ffff_ffff_fff0,
        den <= 0x7fff_ffff_ffff_ffff_ffff_ffff_ffff_fff0,
    ensures
        r == single_ratio(num as nat, den as nat),
        r <= 2 * (num / den) + 1,
        num >= den ==> r >= 1,
{
    let n: u128 = num / den;
    let s: u128 = step(n);
    proof {
        lemma_single_ratio_bounds(num as nat, den as nat);
        assert(n * den <= num) by (nonlinear_arith)
            requires
                den > 0,
                n == num / den,
        ;
        if n >= 1 {
            assert(den * s <= n * den) by (nonlinear_arith)
                requires
                    s <= n,
            ;
        } else {
            assert(den * s == den) by (nonlinear_arith)
                requires
                    s == 1,
            ;
        }
        assert(den * s > 0) by (nonlinear_arith)
            requires
                den > 0,
                s >= 1,
        ;
        assert(n <= num) by (nonlinear_arith)
            requires
                den > 0,
                n == num / den,
        ;
    }
    let q: u128 = round_ratio(num, den * s);
    assert(q * s == single_ratio(num as nat, den as nat));
    q * s
}

/// `v` rounded to single precision.
pub fn round_single(v: Measure) -> (r: Measure)
    requires
        -0x1fff_ffff_ffff_ffff_ffff_ffff_ffff_ffff <= v
            <= 0x1fff_ffff_ffff_ffff_ffff_ffff_ffff_ffff,
    ensures
        r == single(v as int),
        v >= 0 ==> 0 <= r <= 2 * v,
        v <= 0 ==> 2 * v <= r <= 0,
        v > 0 ==> r > 0,
        v < 0 ==> r < 0,
{
    proof {
        lemma_single_exact(0);
    }
    if v >= 0 {
        let m: u128 = round_single_ratio(v as u128, 1);
        proof {
            lemma_single_at_most_double(v as nat);
        }
        m as i128
    } else {
        let m: u128 = round_single_ratio((-v) as u128, 1);
        proof {
            lemma_single_at_most_double((-v) as nat);
        }
        -(m as i128)
    }
}

proof fn lemma_single_at_most_double(n: nat)
    ensures
        single_ratio(n, 1) <= 2 * n,
        n >= 1 ==> single_ratio(n, 1) >= 1,
{
    lemma_single_ratio_bounds(n, 1);
    assert(n / 1 == n);
    let step = step_of(n);
    lemma_step_bounds(n);
    lemma_single_exact(n);
    if n >= 0x100_0000 {
        lemma_nearest_even_bounds(n, step);
        assert(1 * step == step);
    }
}

/// Rounding to single precision commutes with doubling.
pub proof fn lemma_single_doubled(n: nat)
    ensures
        single_ratio(2 * n, 1) == 2 * single_ratio(n, 1),
{
    lemma_single_exact(n);
    lemma_single_exact(2 * n);
    if 2 * n >= 0x100_0000 {
        let s = step_of(n);
        lemma_step_bounds(n);
        assert((2 * n) / 1 == 2 * n);
        assert(n / 1 == n);
        assert((2 * n) / 2 == n);
        assert(step_of(2 * n) == 2 * s);
        let q = n / s;
        let r = n % s;
        vstd::arithmetic::div_mod::lemma_fundamental_div_mod(n as int, s as int);
        assert(2 * n == q * (2 * s) + 2 * r) by (nonlinear_arith)
            requires
                n == s * q + r,
        ;
        assert(0 <= r < s) by {
            vstd::arithmetic::div_mod::lemma_mod_bound(n as int, s as int);
        }
        vstd::arithmetic::div_mod::lemma_fundamental_div_mod_converse(
            2 * n as int,
            2 * s as int,
            q as int,
            2 * r as int,
        );
        assert(nearest_even(2 * n, 2 * s) == nearest_even(n, s));
        assert(1 * step_of(2 * n) == 2 * s);
        assert(1 * s == s);
        let k = nearest_even(n, s);
        assert(k * (2 * s) == 2 * (k * s)) by (nonlinear_arith);
    }
}

pub(crate) proof fn lemma_single_shifted(n: nat, k: nat)
    ensures
        single_ratio(n * vstd::arithmetic::power2::pow2(k), 1) == single_ratio(n, 1)
            * vstd::arithmetic::power2::pow2(k),
    decreases k,
{
    if k == 0 {
        vstd::arithmetic::power2::lemma2_to64();
        assert(n * 1 == n);
    } else {
        vstd::arithmetic::power2::lemma_pow2_unfold(k);
        let h = vstd::arithmetic::power2::pow2((k - 1) as nat);
        lemma_single_shifted(n, (k - 1) as nat);
        lemma_single_doubled(n * h);
        let r = single_ratio(n, 1);
        assert(n * (2 * h) == 2 * (n * h)) by (nonlinear_arith);
        assert(r * (2 * h) == 2 * (r * h)) by (nonlinear_arith);
    }
}

/// Whole numbers below two to the power of 24 are exact.
pub proof fn lemma_whole_exact(n: u32)
    ensures
        n <= 0xff_ffff ==> whole(n) == n * ONE,
{
    vstd::arithmetic::power2::lemma2_to64();
    lemma_single_shifted(n as nat, 64);
    lemma_single_exact(n as nat);
}

/// What is not zero does not round to zero.
pub proof fn lemma_single_positive(n: nat)
    ensures
        n >= 1 ==> single_ratio(n, 1) >= 1,
{
    lemma_single_at_most_double(n);
}

/// Rounding at most doubles a number.
pub proof fn lemma_single_bounds(v: int)
    ensures
        v >= 0 ==> 0 <= single(v) <= 2 * v,
        v <= 0 ==> 2 * v <= single(v) <= 0,
{
    lemma_single_at_most_double(magnitude(v));
}


/// A whole number of at most 24 bits is already a single-precision number.
pub proof fn lemma_single_exact(n: nat)
    ensures
        n < 0x100_0000 ==> single_ratio(n, 1) == n,
{
    if n < 0x100_0000 {
        assert(n / 1 == n);
        assert(step_of(n) == 1);
        assert(n % 1 == 0);
        assert(nearest_even(n, 1) == n);
    }
}

/// The whole number `n` in single precision.
pub fn from_whole(n: u32) -> (r: Measure)
    ensures
        r == whole(n),
        0 <= r <= 2 * (n as int) * ONE,
        n > 0 ==> r > 0,
{
    round_single(n as i128 * ONE)
}

/// The single-precision quotient `a / b`.
pub fn from_quotient(a: u32, b: u32) -> (r: Measure)
    requires
        b > 0,
    ensures
        r == quotient(a, b),
        0 <= r < 0x4_0000_0000 * ONE,
{
    let x: i128 = round_single(a as i128);
    let y: i128 = round_single(b as i128);
    let num: u128 = x as u128 * ONE as u128;
    let r: u128 = round_single_ratio(num, y as u128);
    proof {
        assert(num / (y as u128) <= num) by (nonlinear_arith)
            requires
                y as u128 > 0,
        ;
    }
    r as i128
}

fn ten_to(p: u8) -> (r: u128)
    requires
        p <= 11,
    ensures
        r == power_of_ten(p as nat),
        1 <= r <= 100_000_000_000,
    decreases p,
{
    proof {
        lemma_power_of_ten_bound(p as nat);
    }
    if p == 0 {
        1
    } else {
        proof {
            lemma_power_of_ten_bound((p - 1) as nat);
        }
        10 * ten_to(p - 1)
    }
}

proof fn lemma_product_bound(v: u128, p: u8, t: u128)
    requires
        printable(v as int, p as nat),
        t == power_of_ten(p as nat),
    ensures
        v * t < 0x7fff_ffff_ffff_ffff_0000_0000_0000_0000,
{
    lemma_power_of_ten_bound(p as nat);
    if p <= 4 {
        assert(t <= 10_000) by {
            reveal_with_fuel(power_of_ten, 5);
        }
        assert(v * t <= WIDE_LIMIT * 10_000) by (nonlinear_arith)
            requires
                v <= WIDE_LIMIT,
                t <= 10_000,
                v >= 0,
                t >= 0,
        ;
    } else {
        assert(v * t <= MEASURE_LIMIT * 100_000_000_000) by (nonlinear_arith)
            requires
                v <= MEASURE_LIMIT,
                t <= 100_000_000_000,
                v >= 0,
                t >= 0,
        ;
    }
}

fn digits_at(v: u128, p: u8) -> (r: u128)
    requires
        printable(v as int, p as nat),
    ensures
        r == fixed_digits(v as nat, p as nat),
        r * ONE <= v * power_of_ten(p as nat) + ONE,
{
    let t: u128 = ten_to(p);
    proof {
        lemma_product_bound(v, p, t);
        lemma_nearest_even_bounds((v * t) as nat, ONE as nat);
    }
    round_ratio(v * t, ONE as u128)
}

/// Appends a point and `f` in `places` decimals, without trailing zeros.
fn push_fraction(out: &mut String, f: u128, places: u8)
    ensures
        final(out)@ == old(out)@ + fraction_text(f as nat, places as nat),
    decreases places,
{
    if places == 0 {
        assert(out@ =~= old(out)@ + fraction_text(f as nat, 0));
    } else if f % 10 == 0 {
        let ghost p = text::padded(f as nat, places as nat);
        assert(p.last() == '0');
        assert(p.drop_last() =~= text::padded((f / 10) as nat, (places - 1) as nat));
        push_fraction(out, f / 10, places - 1);
    } else {
        let ghost p = text::padded(f as nat, places as nat);
        assert(p.last() == text::digit_char((f % 10) as nat));
        assert(p.last() != '0');
        assert(text::without_trailing_zeros(p) == p);
        out.push('.');
        push_padded(out, f, places);
        assert(out@ =~= old(out)@ + fraction_text(f as nat, places as nat));
    }
}

/// `v` with at most `places` decimal places, without trailing zeros.
pub fn format_fixed(v: Measure, places: u8) -> (out: String)
    requires
        printable(v as int, places as nat),
    ensures
        out@ == fixed_text(v as int, places as nat),
{
    let mut out: String = String::new();
    let m: u128 = if v < 0 {
        (-v) as u128
    } else {
        v as u128
    };
    if v < 0 {
        out.push('-');
    }
    let d: u128 = digits_at(m, places);
    let t: u128 = ten_to(places);
    push_decimal(&mut out, d / t);
    push_fraction(&mut out, d % t, places);
    assert(out@ =~= fixed_text(v as int, places as nat));
    out
}

fn is_read_back(v: u128, p: u8) -> (r: bool)
    requires
        v <= MEASURE_LIMIT,
        p <= 11,
    ensures
        r == reads_back(v as nat, p as nat),
{
    let t: u128 = ten_to(p);
    let d: u128 = digits_at(v, p);
    proof {
        lemma_product_bound(v, p, t);
    }
    round_single_ratio(d * ONE as u128, t) == v
}

/// The shortest decimal that reads back as `v`.
pub fn format_shortest(v: Measure) -> (out: String)
    requires
        -MEASURE_LIMIT <= v <= MEASURE_LIMIT,
    ensures
        out@ == shortest_text(v as int),
{
    let m: u128 = if v < 0 {
        (-v) as u128
    } else {
        v as u128
    };
    let mut p: u8 = 0;
    while p < 11 && !is_read_back(m, p)
        invariant
            p <= 11,
            m <= MEASURE_LIMIT,
            enough_places(m as nat, p as nat) == enough_places(m as nat, 0),
        decreases 11 - p,
    {
        p = p + 1;
    }
    format_fixed(v, p)
}

/// The gap between neighbouring numbers is small.
pub proof fn lemma_step_small(n: nat)
    requires
        n >= 0x100_0000,
    ensures
        step_of(n) * 0x80_0000 <= n,
    decreases n,
{
    if n / 2 >= 0x100_0000 {
        lemma_step_small(n / 2);
    } else {
        assert(step_of(n / 2) == 1);
    }
}

/// Rounding loses at most one part in two to the power of 23.
pub proof fn lemma_single_close(num: nat, den: nat)
    requires
        den > 0,
    ensures
        single_ratio(num, den) + (num / den) / 0x80_0000 + 1 >= num / den,
{
    let n = num / den;
    let s = step_of(n);
    lemma_step_bounds(n);
    let d = den * s;
    assert(d > 0) by (nonlinear_arith)
        requires
            den > 0,
            s >= 1,
            d == den * s,
    ;
    lemma_nearest_even_bounds(num, d);
    let q = nearest_even(num, d);
    assert(num / d == n / s) by {
        vstd::arithmetic::div_mod::lemma_div_denominator(num as int, den as int, s as int);
    }
    vstd::arithmetic::div_mod::lemma_fundamental_div_mod(n as int, s as int);
    vstd::arithmetic::div_mod::lemma_mod_bound(n as int, s as int);
    assert(q * s >= (n / s) * s) by (nonlinear_arith)
        requires
            q >= n / s,
            s >= 1,
    ;
    assert((n / s) * s == s * (n / s)) by (nonlinear_arith);
    if n >= 0x100_0000 {
        lemma_step_small(n);
        assert(s <= n / 0x80_0000) by (nonlinear_arith)
            requires
                s * 0x80_0000 <= n,
        ;
    }
}

/// Rounding adds at most one part in two to the power of 23.
pub proof fn lemma_single_at_most(n: nat)
    ensures
        single_ratio(n, 1) <= n + n / 0x80_0000,
{
    let s = step_of(n);
    lemma_step_bounds(n);
    lemma_single_exact(n);
    assert(n / 1 == n);
    assert(1 * s == s);
    if n >= 0x100_0000 {
        lemma_nearest_even_bounds(n, s);
        lemma_step_small(n);
        assert(s <= n / 0x80_0000) by (nonlinear_arith)
            requires
                s * 0x80_0000 <= n,
        ;
    }
}

/// The unit in which factors are multiplied and divided: two to the power of -32.
pub const GRAIN: i128 = 0x1_0000_0000;

/// The single-precision product of two numbers, both taken in units of
/// [`GRAIN`].
pub open spec fn product(a: int, b: int) -> int {
    single((a / (GRAIN as int)) * (b / (GRAIN as int)))
}

/// The single-precision quotient of two numbers above zero, both taken in units
/// of [`GRAIN`].
pub open spec fn ratio(a: int, b: int) -> int {
    single_ratio(((a / (GRAIN as int)) * ONE) as nat, (b / (GRAIN as int)) as nat) as int
}

fn grains(v: Measure) -> (r: i128)
    requires
        -0x400_0000 * ONE <= v <= 0x400_0000 * ONE,
    ensures
        r == v as int / (GRAIN as int),
        -0x400_0000_0000_0000 <= r <= 0x400_0000_0000_0000,
{
    if v >= 0 {
        v / GRAIN
    } else {
        let m: i128 = (-v + (GRAIN - 1)) / GRAIN;
        assert(v as int / (GRAIN as int) == -m) by (nonlinear_arith)
            requires
                v < 0,
                m == (-v + (GRAIN - 1)) / (GRAIN as int),
                GRAIN == 0x1_0000_0000,
        ;
        -m
    }
}

/// The single-precision product.
pub fn multiply(a: Measure, b: Measure) -> (r: Measure)
    requires
        -0x400_0000 * ONE <= a <= 0x400_0000 * ONE,
        -0x400_0000 * ONE <= b <= 0x400_0000 * ONE,
    ensures
        r == product(a as int, b as int),
{
    let x: i128 = grains(a);
    let y: i128 = grains(b);
    assert(-0x10_0000_0000_0000_0000_0000_0000_0000 <= x * y
        <= 0x10_0000_0000_0000_0000_0000_0000_0000) by (nonlinear_arith)
        requires
            -0x400_0000_0000_0000 <= x <= 0x400_0000_0000_0000,
            -0x400_0000_0000_0000 <= y <= 0x400_0000_0000_0000,
    ;
    round_single(x * y)
}

/// The single-precision quotient.
pub fn divide(a: Measure, b: Measure) -> (r: Measure)
    requires
        0 <= a <= 0x400_0000 * ONE,
        GRAIN <= b <= 0x400_0000 * ONE,
    ensures
        r == ratio(a as int, b as int),
        0 <= r,
{
    let x: i128 = grains(a);
    let y: i128 = grains(b);
    assert(y >= 1) by (nonlinear_arith)
        requires
            y == b as int / (GRAIN as int),
            b >= GRAIN,
            GRAIN == 0x1_0000_0000,
    ;
    let r: u128 = round_single_ratio(x as u128 * ONE as u128, y as u128);
    r as i128
}

} // verus!
