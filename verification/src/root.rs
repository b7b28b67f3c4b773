//! Square roots of whole numbers in single precision.
use vstd::prelude::*;

use crate::single::{Measure, ONE};

verus! {

/// Where a number has enough bits for a root of 24 bits.
const ENOUGH: u64 = 0x4000_0000_0000;

pub open spec fn square(m: nat) -> nat {
    m * m
}

/// The largest whole number whose square is at most `n`.
pub open spec fn floor_root(n: nat) -> nat {
    choose|m: nat| #[trigger] square(m) <= n < square(m + 1)
}

/// The whole number nearest to the square root of `n`.
pub open spec fn nearest_root(n: nat) -> nat {
    let m = floor_root(n);
    if n > m * m + m {
        m + 1
    } else {
        m
    }
}

/// The square root of `n` to 24 significant bits, where `unit` stands for one.
pub open spec fn root_in(n: nat, unit: nat) -> nat
    decreases 0x1_0000_0000_0000 - n,
{
    if n == 0 {
        0
    } else if n < 0x4000_0000_0000 {
        root_in(4 * n, unit / 2)
    } else {
        nearest_root(n) * unit
    }
}

/// The square root of `n` in single precision.
pub open spec fn root(n: int) -> int {
    root_in(n as nat, ONE as nat) as int
}

proof fn lemma_square_order(a: nat, b: nat)
    ensures
        a < b ==> square(a) < square(b),
{
    if a < b {
        assert(a * a < b * b) by (nonlinear_arith)
            requires
                a < b,
        ;
    }
}

pub(crate) proof fn lemma_floor_root(n: nat, m: nat)
    requires
        square(m) <= n < square(m + 1),
    ensures
        floor_root(n) == m,
{
    let c = floor_root(n);
    lemma_square_order(c, m);
    lemma_square_order(m, c);
    lemma_square_order(c + 1, m);
    lemma_square_order(m + 1, c);
}

proof fn lemma_root_witness(n: nat)
    ensures
        exists|m: nat| #[trigger] square(m) <= n < square(m + 1),
    decreases n,
{
    if n == 0 {
        assert(square(0) <= 0 < square(1));
    } else {
        lemma_root_witness((n - 1) as nat);
        let m = choose|m: nat| #[trigger] square(m) <= n - 1 < square(m + 1);
        if n < square(m + 1) {
            assert(square(m) <= n < square(m + 1));
        } else {
            lemma_square_order(m + 1, m + 2);
            assert(square(m + 1) <= n < square(m + 1 + 1));
        }
    }
}

proof fn lemma_nearest_root_at_most(n: nat, b: nat)
    requires
        n <= square(b),
    ensures
        nearest_root(n) <= b,
{
    lemma_root_witness(n);
    let m = choose|m: nat| #[trigger] square(m) <= n < square(m + 1);
    lemma_floor_root(n, m);
    lemma_square_order(b, m);
    if m == b {
        assert(m * m == square(b));
    }
}

proof fn lemma_root_in_at_most(n: nat, unit: nat, b: nat)
    requires
        n <= square(b),
    ensures
        root_in(n, unit) <= b * unit,
    decreases 0x1_0000_0000_0000 - n,
{
    if n == 0 {
        assert(0 <= b * unit) by (nonlinear_arith);
    } else if n < 0x4000_0000_0000 {
        assert(square(2 * b) == 4 * square(b)) by (nonlinear_arith);
        lemma_root_in_at_most(4 * n, unit / 2, 2 * b);
        assert((2 * b) * (unit / 2) <= b * unit) by (nonlinear_arith)
            requires
                2 * (unit / 2) <= unit,
        ;
    } else {
        lemma_nearest_root_at_most(n, b);
        let r = nearest_root(n);
        assert(r * unit <= b * unit) by (nonlinear_arith)
            requires
                r <= b,
        ;
    }
}

/// The square root of what is at most the square of `b` is at most `b`.
pub proof fn lemma_root_at_most(n: nat, b: nat)
    requires
        n <= square(b),
    ensures
        0 <= root(n as int) <= b * ONE,
{
    lemma_root_in_at_most(n, ONE as nat, b);
}

fn root_down(n: u64) -> (r: u64)
    requires
        n < 0x1_0000_0000_0000,
    ensures
        r == floor_root(n as nat),
        r < 0x100_0000,
{
    let mut low: u64 = 0;
    let mut high: u64 = 0x100_0000;
    assert(square(0x100_0000) == 0x1_0000_0000_0000);
    while high - low > 1
        invariant
            low < high <= 0x100_0000,
            square(low as nat) <= n < square(high as nat),
        decreases high - low,
    {
        let mid: u64 = low + (high - low) / 2;
        assert(mid * mid <= 0x100_0000 * 0x100_0000) by (nonlinear_arith)
            requires
                mid <= 0x100_0000,
        ;
        if mid * mid <= n {
            low = mid;
        } else {
            high = mid;
        }
    }
    proof {
        lemma_floor_root(n as nat, low as nat);
    }
    low
}

fn root_near(n: u64) -> (r: u64)
    requires
        n < 0x1_0000_0000_0000,
    ensures
        r == nearest_root(n as nat),
        r <= 0x100_0000,
{
    let m: u64 = root_down(n);
    assert(m * m <= 0x100_0000 * 0x100_0000) by (nonlinear_arith)
        requires
            m < 0x100_0000,
    ;
    if n > m * m + m {
        m + 1
    } else {
        m
    }
}

/// The square root of a whole number.
pub fn square_root(n: u64) -> (r: Measure)
    requires
        n < 0x4_0000_0000,
    ensures
        r == root(n as int),
        0 <= r <= 0x2_0000 * ONE,
{
    proof {
        assert(square(0x2_0000) == 0x4_0000_0000);
        lemma_root_at_most(n as nat, 0x2_0000);
    }
    if n == 0 {
        return 0;
    }
    let mut m: u64 = n;
    let mut unit: i128 = ONE;
    while m < ENOUGH
        invariant
            0 < m < 0x1_0000_0000_0000,
            0 <= unit <= ONE,
            root(n as int) == root_in(m as nat, unit as nat),
        decreases 0x1_0000_0000_0000 - m,
    {
        m = 4 * m;
        unit = unit / 2;
    }
    let r: u64 = root_near(m);
    assert(0 <= r * unit <= 0x100_0000 * ONE) by (nonlinear_arith)
        requires
            r <= 0x100_0000,
            0 <= unit <= ONE,
    ;
    r as i128 * unit
}

} // verus!
