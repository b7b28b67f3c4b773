//! Numbers that single precision leaves as they are.
use vstd::arithmetic::power2::pow2;
use vstd::prelude::*;

use crate::nanos;
use crate::root;
use crate::single;
use crate::single::ONE;

verus! {

/// What is multiplied and divided by the same number is rounded as it is.
pub proof fn lemma_ratio_cancels(n: nat, x: nat)
    requires
        x > 0,
    ensures
        single::single_ratio(n * x, x) == single::single_ratio(n, 1),
{
    let s = single::step_of(n);
    single::lemma_step_bounds(n);
    assert(n * x + 0 == n * x);
    nanos::lemma_parts(n as int, 0, x as int, s as int);
    assert((n * x) / x == n);
    assert(n / 1 == n);
    assert(1 * s == s);
    let r = n % s;
    assert((n * x) % (x * s) == r * x);
    assert(r * x + 0 == r * x);
    assert(2 * (r * x) < x * s <==> 2 * r < s) by (nonlinear_arith)
        requires
            x > 0,
    ;
    assert(2 * (r * x) > x * s <==> 2 * r > s) by (nonlinear_arith)
        requires
            x > 0,
    ;
}

/// Half of a whole number of at most 24 bits is exact.
pub proof fn lemma_halves_exact(n: nat)
    requires
        n <= 0xff_ffff,
    ensures
        single::single(n * ONE / 2) == n * ONE / 2,
{
    vstd::arithmetic::power2::lemma2_to64();
    vstd::arithmetic::power2::lemma2_to64_rest();
    single::lemma_single_shifted(n, 63);
    single::lemma_single_exact(n);
    let half = vstd::arithmetic::power2::pow2(63);
    assert(half * 2 == ONE);
    assert(n * ONE / 2 == n * half) by (nonlinear_arith)
        requires
            half * 2 == ONE,
            n >= 0,
    ;
}

/// A whole number of at most 24 bits is exact, whatever its sign.
pub proof fn lemma_wholes_exact(n: int)
    requires
        -0xff_ffff <= n <= 0xff_ffff,
    ensures
        single::single(n * ONE) == n * ONE,
{
    let m = if n < 0 {
        -n
    } else {
        n
    };
    single::lemma_whole_exact(m as u32);
    assert(m as u32 * ONE == m * ONE);
    if n < 0 {
        assert(-(n * ONE) == m * ONE) by (nonlinear_arith)
            requires
                m == -n,
        ;
    }
}

proof fn lemma_root_in_exact(b: nat, k: nat)
    requires
        b > 0,
        b * pow2(k) >= 0x80_0000,
    ensures
        root::root_in(root::square(b), pow2(k)) == b * pow2(k),
    decreases k,
{
    let n = root::square(b);
    assert(n > 0) by (nonlinear_arith)
        requires
            n == b * b,
            b > 0,
    ;
    if n < 0x4000_0000_0000 {
        vstd::arithmetic::power2::lemma2_to64();
        assert(k > 0) by {
            if k == 0 {
                assert(b * 1 == b);
                assert(b * b >= 0x80_0000 * 0x80_0000) by (nonlinear_arith)
                    requires
                        b >= 0x80_0000,
                ;
            }
        }
        let h = pow2((k - 1) as nat);
        vstd::arithmetic::power2::lemma_pow2_unfold(k);
        assert(root::square(2 * b) == 4 * n) by (nonlinear_arith)
            requires
                n == b * b,
                root::square(2 * b) == (2 * b) * (2 * b),
        ;
        assert((2 * b) * h == b * (2 * h)) by (nonlinear_arith);
        lemma_root_in_exact(2 * b, (k - 1) as nat);
    } else {
        assert(root::square(b + 1) > n) by (nonlinear_arith)
            requires
                n == b * b,
                root::square(b + 1) == (b + 1) * (b + 1),
        ;
        root::lemma_floor_root(n, b);
    }
}

/// The root of the square of a whole number is that number.
pub proof fn lemma_root_exact(b: nat)
    ensures
        root::root(root::square(b) as int) == b * ONE,
{
    vstd::arithmetic::power2::lemma2_to64();
    if b > 0 {
        assert(b * ONE >= 0x80_0000) by (nonlinear_arith)
            requires
                b >= 1,
                ONE >= 0x80_0000,
        ;
        lemma_root_in_exact(b, 64);
    } else {
        assert(root::square(0) == 0);
    }
}

} // verus!
