//! Durations in nanoseconds, and what double- and single-precision arithmetic on
//! seconds makes of them.
use vstd::prelude::*;

use crate::single;
use crate::single::{round_ratio, Measure, ONE};

verus! {

/// A duration or a point in time.
pub type Nanos = u128;

/// Nanoseconds of a second.
pub const SECOND: u128 = 1_000_000_000;

/// Nanoseconds of a millisecond.
pub const MILLI: u128 = 1_000_000;

/// The longest duration there is.
pub const LONGEST: u128 = 18_446_744_073_709_551_615_999_999_999;

/// The longest duration that a playback speed can be applied to.
pub const SCALE_LIMIT: u128 = 4_294_967_296_000_000_000;

/// One second in the units in which seconds are computed.
pub const FINE: u128 = 0x10_0000_0000_0000_0000_0000;

/// The slowest playback: 0.01.
pub const LEAST_SPEED: i128 = 0x28f_5c28_0000_0000;

/// The fastest playback.
pub const SPEED_LIMIT: i128 = 0x10_0000_0000_0000_0000_0000;

/// A thirtieth power of two, below which a playback speed has no digits.
pub const SPEED_UNIT: i128 = 0x4_0000_0000;

/// The gap between neighbouring numbers of 53 significant bits around `n`.
pub open spec fn step_of(n: nat) -> nat
    decreases n,
{
    if n < 0x20_0000_0000_0000 {
        1
    } else {
        2 * step_of(n / 2)
    }
}

/// `num / den` rounded to 53 significant bits.
pub open spec fn double_ratio(num: nat, den: nat) -> nat {
    let step = step_of(num / den);
    single::nearest_even(num, den * step) * step
}

/// A duration as seconds in double precision: whole seconds plus the quotient of
/// the rest.
pub open spec fn seconds(ns: nat) -> nat {
    double_ratio(
        (ns / SECOND as nat) * FINE as nat + double_ratio(
            (ns % SECOND as nat) * FINE as nat,
            SECOND as nat,
        ),
        1,
    )
}

/// Seconds as the nearest number of nanoseconds.
pub open spec fn whole_nanos(s: nat) -> nat {
    single::nearest_even(s * SECOND as nat, FINE as nat)
}

/// A playback speed, not below the slowest, in units of one part in `2^30`.
pub open spec fn speed_units(speed: Measure) -> nat {
    (if speed >= LEAST_SPEED {
        speed as int / (SPEED_UNIT as int)
    } else {
        LEAST_SPEED as int / (SPEED_UNIT as int)
    }) as nat
}

/// How long something takes at a playback speed.
pub open spec fn scaled(ns: nat, speed: Measure) -> nat {
    whole_nanos(double_ratio(seconds(ns) * 0x4000_0000, speed_units(speed)))
}

/// How long a frame lasts.
pub open spec fn interval(framerate: u32) -> nat {
    whole_nanos(double_ratio(FINE as nat, framerate as nat))
}

pub(crate) proof fn lemma_step_bounds(n: nat)
    ensures
        1 <= step_of(n),
        n >= 1 ==> step_of(n) <= n,
        n >= 0x20_0000_0000_0000 ==> step_of(n) * 0x10_0000_0000_0000 <= n,
    decreases n,
{
    if n >= 0x20_0000_0000_0000 {
        lemma_step_bounds(n / 2);
    }
}

fn step(n: u128) -> (r: u128)
    ensures
        r == step_of(n as nat),
        1 <= r,
        n >= 1 ==> r <= n,
    decreases n,
{
    if n < 0x20_0000_0000_0000 {
        1
    } else {
        2 * step(n / 2)
    }
}

/// Division by a product, digit by digit.
pub(crate) proof fn lemma_parts(q: int, r: int, den: int, s: int)
    requires
        0 <= q,
        0 <= r < den,
        1 <= s,
    ensures
        (q * den + r) / (den * s) == q / s,
        (q * den + r) % (den * s) == (q % s) * den + r,
        0 <= (q % s) * den + r < den * s,
        0 < den * s,
        (q * den + r) / den == q,
{
    let a = q / s;
    let b = q % s;
    vstd::arithmetic::div_mod::lemma_fundamental_div_mod(q, s);
    assert(0 < den * s) by (nonlinear_arith)
        requires
            0 < den,
            1 <= s,
    ;
    assert(0 <= b * den + r < den * s) by (nonlinear_arith)
        requires
            0 <= b < s,
            0 <= r < den,
    ;
    assert(q * den + r == (den * s) * a + (b * den + r)) by (nonlinear_arith)
        requires
            q == s * a + b,
    ;
    assert((den * s) * a == a * (den * s)) by (nonlinear_arith);
    vstd::arithmetic::div_mod::lemma_fundamental_div_mod_converse(
        q * den + r,
        den * s,
        a,
        b * den + r,
    );
    vstd::arithmetic::div_mod::lemma_fundamental_div_mod_converse(q * den + r, den, q, r);
}

/// Round `(q * den + r) / den` to a multiple of `s`.
pub(crate) fn round_parts(q: u128, r: u128, den: u128, s: u128) -> (v: u128)
    requires
        0 <= r < den,
        1 <= s,
        q <= 0x7fff_ffff_ffff_ffff_ffff_ffff_ffff_fff0,
        s <= q || s == 1,
        den * s <= 0x7fff_ffff_ffff_ffff_ffff_ffff_ffff_fff0,
    ensures
        v == single::nearest_even((q * den + r) as nat, (den * s) as nat) * s,
        v <= 2 * q + 1,
{
    proof {
        lemma_parts(q as int, r as int, den as int, s as int);
    }
    let a: u128 = q / s;
    let b: u128 = q % s;
    proof {
        vstd::arithmetic::div_mod::lemma_fundamental_div_mod(q as int, s as int);
        assert(a * s <= q) by (nonlinear_arith)
            requires
                q == s * a + b,
                0 <= b,
        ;
        assert(b * den <= b * den + r);
        assert((a + 1) * s == a * s + s) by (nonlinear_arith);
        assert(0 <= b * den) by (nonlinear_arith);
        assert(a <= a * s) by (nonlinear_arith)
            requires
                1 <= s,
                0 <= a,
        ;
    }
    let rest: u128 = b * den + r;
    let full: u128 = den * s;
    let n: u128 = if 2 * rest < full {
        a
    } else if 2 * rest > full {
        a + 1
    } else if a % 2 == 0 {
        a
    } else {
        a + 1
    };
    n * s
}

/// `num / den` rounded to 53 significant bits.
pub fn round_double_ratio(num: u128, den: u128) -> (r: u128)
    requires
        den > 0,
        num <= 0x7fff_ffff_ffff_ffff_ffff_ffff_ffff_fff0,
        den <= 0x7fff_ffff_ffff_ffff_ffff_ffff_ffff_fff0,
    ensures
        r == double_ratio(num as nat, den as nat),
        r <= 2 * (num / den) + 1,
{
    let q: u128 = num / den;
    let s: u128 = step(q);
    proof {
        vstd::arithmetic::div_mod::lemma_fundamental_div_mod(num as int, den as int);
        assert(q * den + num % den == num) by (nonlinear_arith)
            requires
                num == den * q + num % den,
        ;
        assert(q <= num) by (nonlinear_arith)
            requires
                q * den + num % den == num,
                den > 0,
                0 <= q,
                0 <= num % den,
        ;
        if q >= 1 {
            assert(den * s <= q * den) by (nonlinear_arith)
                requires
                    s <= q,
                    den > 0,
            ;
        } else {
            assert(den * s == den) by (nonlinear_arith)
                requires
                    s == 1,
            ;
        }
    }
    round_parts(q, num % den, den, s)
}

/// A duration as seconds in double precision.
fn in_seconds(ns: Nanos) -> (r: u128)
    requires
        ns < SCALE_LIMIT,
    ensures
        r == seconds(ns as nat),
        r <= 0x30_0000_0000_0000_0000_0000_0000_0000,
{
    let part: u128 = (ns % SECOND) * FINE;
    let rest: u128 = round_double_ratio(part, SECOND);
    assert(part / SECOND < FINE) by (nonlinear_arith)
        requires
            part == (ns % SECOND) * FINE,
            ns % SECOND < SECOND,
            FINE > 0,
            SECOND > 0,
    ;
    let whole: u128 = (ns / SECOND) * FINE;
    assert(ns / SECOND < 4_294_967_296);
    round_double_ratio(whole + rest, 1)
}

/// Seconds as the nearest number of nanoseconds.
fn to_nanos(s: u128) -> (r: Nanos)
    requires
        s <= 0x7fff_ffff_ffff_ffff_ffff_ffff_ffff_fff0,
    ensures
        r == whole_nanos(s as nat),
{
    let w: u128 = s / FINE;
    let f: u128 = s % FINE;
    let n: u128 = round_ratio(f * SECOND, FINE);
    proof {
        let k = SECOND as int;
        let d = FINE as int;
        let q = (f * k) / d;
        let r = (f * k) % d;
        vstd::arithmetic::div_mod::lemma_fundamental_div_mod(f * k, d);
        assert(s * k == d * (w * k + q) + r) by (nonlinear_arith)
            requires
                s == d * w + f,
                f * k == d * q + r,
        ;
        assert(d * (w * k + q) == (w * k + q) * d) by (nonlinear_arith);
        vstd::arithmetic::div_mod::lemma_fundamental_div_mod_converse(s * k, d, w * k + q, r);
        assert((w * k + q) % 2 == q % 2);
        assert(q <= k) by (nonlinear_arith)
            requires
                f * k == d * q + r,
                0 <= f < d,
                0 <= r,
                0 < k,
        ;
    }
    w * SECOND + n
}

/// How long something takes at a playback speed.
pub fn scale(ns: Nanos, speed: Measure) -> (r: Nanos)
    requires
        ns < SCALE_LIMIT,
        speed < SPEED_LIMIT,
    ensures
        r == scaled(ns as nat, speed),
{
    let su: u128 = if speed >= LEAST_SPEED {
        (speed / SPEED_UNIT) as u128
    } else {
        (LEAST_SPEED / SPEED_UNIT) as u128
    };
    assert(0xa3_d70a <= su <= 0x4_0000_0000_0000_0000);
    let x: u128 = in_seconds(ns);
    let q0: u128 = x / su;
    let r0: u128 = x % su;
    proof {
        vstd::arithmetic::div_mod::lemma_fundamental_div_mod(x as int, su as int);
        assert(q0 * 0xa3_d70a <= x) by (nonlinear_arith)
            requires
                x == su * q0 + r0,
                0xa3_d70a <= su,
                0 <= r0,
                0 <= q0,
        ;
    }
    let t: u128 = r0 * 0x4000_0000;
    let q: u128 = q0 * 0x4000_0000 + t / su;
    let r: u128 = t % su;
    let s: u128 = step(q);
    proof {
        vstd::arithmetic::div_mod::lemma_fundamental_div_mod(t as int, su as int);
        assert(t / su < 0x4000_0000) by (nonlinear_arith)
            requires
                t == su * (t / su) + t % su,
                t == r0 * 0x4000_0000,
                r0 < su,
                0 <= t % su,
        ;
        assert(x * 0x4000_0000 == q * su + r) by (nonlinear_arith)
            requires
                x == su * q0 + r0,
                t == r0 * 0x4000_0000,
                t == su * (t / su) + r,
                q == q0 * 0x4000_0000 + t / su,
        ;
        lemma_parts(q as int, r as int, su as int, 1);
        lemma_step_bounds(q as nat);
        if q >= 0x20_0000_0000_0000 {
            assert(su * s <= 0x7fff_ffff_ffff_ffff_ffff_ffff_ffff_fff0) by (nonlinear_arith)
                requires
                    s * 0x10_0000_0000_0000 <= q,
                    q * su <= x * 0x4000_0000,
                    x <= 0x30_0000_0000_0000_0000_0000_0000_0000,
                    0 < su,
                    0 <= s,
            ;
        } else {
            assert(s == 1);
            assert(su * s == su) by (nonlinear_arith)
                requires
                    s == 1,
            ;
        }
    }
    let v: u128 = round_parts(q, r, su, s);
    to_nanos(v)
}

/// How long a frame lasts.
pub fn frame_interval(framerate: u32) -> (r: Nanos)
    requires
        framerate > 0,
    ensures
        r == interval(framerate),
        r <= 3 * SECOND,
{
    let q: u128 = round_double_ratio(FINE, framerate as u128);
    assert(FINE / (framerate as u128) <= FINE) by (nonlinear_arith)
        requires
            framerate >= 1,
    ;
    let r: u128 = to_nanos(q);
    proof {
        let num = q * SECOND;
        assert(num / (FINE as int) <= 2 * SECOND) by (nonlinear_arith)
            requires
                num == q * SECOND,
                q <= 2 * FINE + 1,
                FINE == 0x10_0000_0000_0000_0000_0000,
                SECOND == 1_000_000_000,
        ;
    }
    r
}

proof fn lemma_nearest_error(num: nat, den: nat)
    requires
        den > 0,
    ensures
        2 * num - den <= 2 * (single::nearest_even(num, den) * den) <= 2 * num + den,
{
    let q = num / den;
    let r = num % den;
    vstd::arithmetic::div_mod::lemma_fundamental_div_mod(num as int, den as int);
    assert(q * den + r == num) by (nonlinear_arith)
        requires
            num == den * q + r,
    ;
    assert((q + 1) * den == q * den + den) by (nonlinear_arith);
}

/// Rounding to 53 bits is off by at most half a step.
proof fn lemma_double_error(num: nat, den: nat, most: nat)
    requires
        den > 0,
        num / den <= most * 0x10_0000_0000_0000,
        most >= 1,
    ensures
        2 * num - den * most <= 2 * (double_ratio(num, den) * den) <= 2 * num + den * most,
{
    let q = num / den;
    let s = step_of(q);
    lemma_step_bounds(q);
    let d = den * s;
    assert(d > 0) by (nonlinear_arith)
        requires
            den > 0,
            s >= 1,
            d == den * s,
    ;
    lemma_nearest_error(num, d);
    let n = single::nearest_even(num, d);
    assert(n * d == (n * s) * den) by (nonlinear_arith)
        requires
            d == den * s,
    ;
    assert(s <= most) by (nonlinear_arith)
        requires
            q <= most * 0x10_0000_0000_0000,
            s == 1 || s * 0x10_0000_0000_0000 <= q,
            most >= 1,
    ;
    assert(d <= den * most) by (nonlinear_arith)
        requires
            d == den * s,
            s <= most,
            den > 0,
    ;
}

/// At a playback speed of one, everything takes as long as it is said to.
pub proof fn lemma_scaled_by_one(ns: nat)
    requires
        ns < 0x8_0000 * SECOND,
    ensures
        scaled(ns, ONE as i128) == ns,
{
    let k = SECOND as nat;
    let d = FINE as nat;
    let w = ns / k;
    let f = ns % k;
    assert(ns == w * k + f);
    assert(w < 0x8_0000);
    let r1 = double_ratio(f * d, k);
    assert((f * d) / k <= d) by (nonlinear_arith)
        requires
            f < k,
            k > 0,
    ;
    lemma_double_error(f * d, k, 0x1_0000_0000);
    assert(r1 <= 2 * d) by (nonlinear_arith)
        requires
            2 * (r1 * k) <= 2 * (f * d) + k * 0x1_0000_0000,
            f < k,
            k == 1_000_000_000,
            d == 0x10_0000_0000_0000_0000_0000,
    ;
    let sum = w * d + r1;
    let most = (w + 2) * 0x1_0000_0000;
    assert(sum / 1 == sum);
    assert(sum <= most * 0x10_0000_0000_0000) by (nonlinear_arith)
        requires
            sum == w * d + r1,
            r1 <= 2 * d,
            d == 0x10_0000_0000_0000_0000_0000,
            most == (w + 2) * 0x1_0000_0000,
    ;
    lemma_double_error(sum, 1, most);
    let x = double_ratio(sum, 1);
    assert(x == seconds(ns));
    assert(x * 1 == x);
    let u = 0x4000_0000nat;
    assert(speed_units(ONE as i128) == u);
    assert((x * u) / u == x) by (nonlinear_arith)
        requires
            u == 0x4000_0000,
    ;
    let most2 = (w + 3) * 0x1_0000_0000;
    assert(x <= most2 * 0x10_0000_0000_0000) by (nonlinear_arith)
        requires
            2 * x <= 2 * sum + most,
            sum <= most * 0x10_0000_0000_0000,
            most == (w + 2) * 0x1_0000_0000,
            most2 == (w + 3) * 0x1_0000_0000,
            w < 0x8_0000,
    ;
    lemma_double_error(x * u, u, most2);
    let y = double_ratio(x * u, u);
    assert(2 * x - most2 <= 2 * y <= 2 * x + most2) by (nonlinear_arith)
        requires
            2 * (x * u) - u * most2 <= 2 * (y * u) <= 2 * (x * u) + u * most2,
            u == 0x4000_0000,
    ;
    assert(2 * sum - most <= 2 * x <= 2 * sum + most);
    // In units of a nanosecond the rounding errors stay below one half.
    assert(2 * (y * k) < 2 * (ns * d) + d && 2 * (ns * d) - d < 2 * (y * k)) by (nonlinear_arith)
        requires
            2 * sum - most - most2 <= 2 * y <= 2 * sum + most + most2,
            sum == w * d + r1,
            2 * (f * d) - k * 0x1_0000_0000 <= 2 * (r1 * k) <= 2 * (f * d) + k * 0x1_0000_0000,
            ns == w * k + f,
            most == (w + 2) * 0x1_0000_0000,
            most2 == (w + 3) * 0x1_0000_0000,
            w < 0x8_0000,
            k == 1_000_000_000,
            d == 0x10_0000_0000_0000_0000_0000,
    ;
    lemma_nearest_unique(y * k, d, ns);
}

proof fn lemma_nearest_unique(num: nat, den: nat, n: nat)
    requires
        den > 0,
        2 * (n * den) - den < 2 * num < 2 * (n * den) + den,
    ensures
        single::nearest_even(num, den) == n,
{
    let q = num / den;
    let r = num % den;
    vstd::arithmetic::div_mod::lemma_fundamental_div_mod(num as int, den as int);
    assert(q * den + r == num) by (nonlinear_arith)
        requires
            num == den * q + r,
    ;
    if q < n {
        assert(q == n - 1) by (nonlinear_arith)
            requires
                q < n,
                q * den + r == num,
                0 <= r < den,
                2 * (n * den) - den < 2 * num,
        ;
        assert(n * den == q * den + den) by (nonlinear_arith)
            requires
                q == n - 1,
        ;
    } else {
        assert(q == n) by (nonlinear_arith)
            requires
                q >= n,
                q * den + r == num,
                0 <= r < den,
                2 * num < 2 * (n * den) + den,
        ;
    }
}

} // verus!
