//! How long things take at a playback speed, and how long frames last.
use vstd::prelude::*;

use crate::nanos;
use crate::nanos::{FINE, SECOND};
use crate::single;
use crate::single::Measure;

verus! {

/// Rounding to double precision is off by at most half a unit and one part in two to the
/// power of 53.
proof fn lemma_double_close(num: nat, den: nat)
    requires
        den > 0,
    ensures
        ({
            let r = nanos::double_ratio(num, den) * den;
            let slack = 0x10_0000_0000_0000 * den + num;
            -slack <= 0x20_0000_0000_0000 * (r - num) <= slack
        }),
{
    let q = num / den;
    let s = nanos::step_of(q);
    nanos::lemma_step_bounds(q);
    let d = den * s;
    assert(d > 0) by (nonlinear_arith)
        requires
            den > 0,
            s >= 1,
            d == den * s,
    ;
    let n = single::nearest_even(num, d);
    let (a, b) = (num / d, num % d);
    vstd::arithmetic::div_mod::lemma_fundamental_div_mod(num as int, d as int);
    assert(num == a * d + b) by (nonlinear_arith)
        requires
            num == d * a + b,
    ;
    assert((a + 1) * d == a * d + d) by (nonlinear_arith);
    assert(2 * (n * d) - d <= 2 * num <= 2 * (n * d) + d);
    assert((n * s) * den == n * d) by (nonlinear_arith)
        requires
            d == den * s,
    ;
    if q < 0x20_0000_0000_0000 {
        assert(s == 1);
        assert(d == den) by (nonlinear_arith)
            requires
                d == den * s,
                s == 1,
        ;
    } else {
        vstd::arithmetic::div_mod::lemma_fundamental_div_mod(num as int, den as int);
        assert(0x10_0000_0000_0000 * d <= num) by (nonlinear_arith)
            requires
                s * 0x10_0000_0000_0000 <= q,
                num == den * q + num % den,
                d == den * s,
                den > 0,
        ;
    }
}

/// What is said to take some time takes that time divided by the playback speed: the two
/// differ by at most a nanosecond and one part in two to the power of 49. A speed is
/// counted in units of one part in two to the power of 30, and none below the slowest
/// counts.
pub proof fn lemma_time_divided(ns: nat, speed: Measure)
    requires
        speed >= nanos::LEAST_SPEED,
    ensures
        ({
            let units = speed as int / (nanos::SPEED_UNIT as int);
            let taken = nanos::scaled(ns, speed) * units;
            let said = ns * 0x4000_0000;
            let slack = said + 0x2_0000_0000_0000 * (units + 1);
            -slack <= 0x2_0000_0000_0000 * (taken - said) <= slack
        }),
{
    let k = SECOND as nat;
    let fine = FINE as nat;
    let (w, f) = (ns / k, ns % k);
    let d = nanos::double_ratio(f * fine, k);
    lemma_double_close(f * fine, k);
    let v = w * fine + d;
    let x = nanos::double_ratio(v, 1);
    lemma_double_close(v, 1);
    assert(x * 1 == x);
    assert(x == nanos::seconds(ns));
    let u = nanos::speed_units(speed);
    assert(u == speed as int / (nanos::SPEED_UNIT as int) && u > 0);
    let y = nanos::double_ratio(x * 0x4000_0000, u);
    lemma_double_close(x * 0x4000_0000, u);
    let z = single::nearest_even(y * k, fine);
    lemma_nearest(y * k, fine);
    let p = y * u;
    let q = z * u;
    assert(2 * (q * fine) - fine * u <= 2 * (p * k) <= 2 * (q * fine) + fine * u)
        by (nonlinear_arith)
        requires
            2 * (z * fine) - fine <= 2 * (y * k) <= 2 * (z * fine) + fine,
            p == y * u,
            q == z * u,
            u > 0,
    ;
    assert(ns == w * k + f);
    lemma_sum(ns as int, w as int, f as int, d as int, v as int, x as int, p as int, q as int, u as int);
}

proof fn lemma_sum(
    ns: int,
    w: int,
    f: int,
    d: int,
    v: int,
    x: int,
    p: int,
    q: int,
    u: int,
)
    requires
        0 <= ns,
        0 <= w,
        0 <= f,
        0 <= d,
        0 <= x,
        0 < u,
        ns == w * 1_000_000_000 + f,
        v == w * 0x10_0000_0000_0000_0000_0000 + d,
        -(0x10_0000_0000_0000 * 1_000_000_000 + f * 0x10_0000_0000_0000_0000_0000)
            <= 0x20_0000_0000_0000 * (d * 1_000_000_000 - f * 0x10_0000_0000_0000_0000_0000)
            <= 0x10_0000_0000_0000 * 1_000_000_000 + f * 0x10_0000_0000_0000_0000_0000,
        -(0x10_0000_0000_0000 + v) <= 0x20_0000_0000_0000 * (x - v) <= 0x10_0000_0000_0000 + v,
        -(0x10_0000_0000_0000 * u + x * 0x4000_0000) <= 0x20_0000_0000_0000 * (p - x * 0x4000_0000)
            <= 0x10_0000_0000_0000 * u + x * 0x4000_0000,
        2 * (q * 0x10_0000_0000_0000_0000_0000) - 0x10_0000_0000_0000_0000_0000 * u <= 2 * (p
            * 1_000_000_000) <= 2 * (q * 0x10_0000_0000_0000_0000_0000)
            + 0x10_0000_0000_0000_0000_0000 * u,
    ensures
        -(ns * 0x4000_0000 + 0x2_0000_0000_0000 * (u + 1)) <= 0x2_0000_0000_0000 * (q - ns
            * 0x4000_0000) <= ns * 0x4000_0000 + 0x2_0000_0000_0000 * (u + 1),
{
}

proof fn lemma_nearest(num: nat, den: nat)
    requires
        den > 0,
    ensures
        ({
            let n = single::nearest_even(num, den);
            2 * (n * den) - den <= 2 * num <= 2 * (n * den) + den
        }),
{
    let (q, r) = (num / den, num % den);
    vstd::arithmetic::div_mod::lemma_fundamental_div_mod(num as int, den as int);
    assert(num == q * den + r) by (nonlinear_arith)
        requires
            num == den * q + r,
    ;
    assert((q + 1) * den == q * den + den) by (nonlinear_arith);
}

/// A frame lasts a second divided by the frame rate: the two differ by at most two
/// nanoseconds.
pub proof fn lemma_second_divided(framerate: u32)
    requires
        framerate > 0,
    ensures
        -2 * framerate <= nanos::interval(framerate) * framerate - 1_000_000_000 <= 2 * framerate,
{
    let r = framerate as nat;
    let fine = FINE as nat;
    let y = nanos::double_ratio(fine, r);
    lemma_double_close(fine, r);
    let z = single::nearest_even(y * SECOND as nat, fine);
    lemma_nearest(y * SECOND as nat, fine);
    let p = y * r;
    let q = z * r;
    assert(2 * (q * fine) - fine * r <= 2 * (p * SECOND) <= 2 * (q * fine) + fine * r)
        by (nonlinear_arith)
        requires
            2 * (z * fine) - fine <= 2 * (y * SECOND) <= 2 * (z * fine) + fine,
            p == y * r,
            q == z * r,
            r > 0,
    ;
}

} // verus!
