//! How long the way through a few cells is.
use vstd::arithmetic::power2::pow2;
use vstd::prelude::*;

use crate::root;
use crate::root::square_root;
use crate::single;
use crate::single::{round_single_ratio, ONE};

verus! {

/// From here on a length does not fit into 32 bits.
const TOO_LONG: u128 = 0x1_0000_0000_0000_0000_0000_0000;

pub open spec fn apart(a: u16, b: u16) -> nat {
    (if a >= b {
        a - b
    } else {
        b - a
    }) as nat
}

/// The sum of the squares of both distances, in single precision.
pub open spec fn squared(a: (u16, u16), b: (u16, u16)) -> nat {
    let dx = apart(a.0, b.0);
    let dy = apart(a.1, b.1);
    single::single_ratio(single::single_ratio(dx * dx, 1) + single::single_ratio(dy * dy, 1), 1)
}

/// The straight distance between two cells.
pub open spec fn leg(a: (u16, u16), b: (u16, u16)) -> nat {
    root::root(squared(a, b) as int) as nat
}

/// The length of the way through the first `n` cells, in single precision.
pub open spec fn way_length(coords: Seq<(u16, u16)>, n: int) -> nat
    decreases n,
{
    if n <= 1 {
        0
    } else {
        single::single_ratio(way_length(coords, n - 1) + leg(coords[n - 2], coords[n - 1]), 1)
    }
}

/// A length in whole cells, rounded up, at least one.
pub open spec fn whole_cells(length: nat) -> u32 {
    let n = (length + ONE - 1) / (ONE as int);
    if n < 1 {
        1
    } else if n > u32::MAX {
        u32::MAX
    } else {
        n as u32
    }
}

/// How many cells long the way through some cells is, at least one.
pub open spec fn way_cells(coords: Seq<(u16, u16)>) -> u32 {
    whole_cells(way_length(coords, coords.len() as int))
}

/// Cutting off digits does not take a number below a power of two.
proof fn lemma_cut_at_least(n: nat, k: nat)
    requires
        n >= pow2(k),
    ensures
        (n / single::step_of(n)) * single::step_of(n) >= pow2(k),
    decreases n,
{
    let s = single::step_of(n);
    single::lemma_step_bounds(n);
    if n < 0x100_0000 {
        assert((n / 1) * 1 == n);
    } else if k == 0 {
        vstd::arithmetic::power2::lemma2_to64();
        assert((n / s) * s >= 1) by (nonlinear_arith)
            requires
                1 <= s <= n,
        ;
    } else {
        let h = n / 2;
        let t = single::step_of(h);
        single::lemma_step_bounds(h);
        vstd::arithmetic::power2::lemma_pow2_unfold(k);
        lemma_cut_at_least(h, (k - 1) as nat);
        vstd::arithmetic::div_mod::lemma_div_denominator(n as int, 2, t as int);
        assert(n / (2 * t) == h / t);
        let q = h / t;
        assert(q * (2 * t) == 2 * (q * t)) by (nonlinear_arith);
    }
}

/// Rounding does not take a number below a power of two.
proof fn lemma_single_at_least(n: nat, k: nat)
    requires
        n >= pow2(k),
    ensures
        single::single_ratio(n, 1) >= pow2(k),
{
    let s = single::step_of(n);
    single::lemma_step_bounds(n);
    assert(n / 1 == n);
    assert(1 * s == s);
    single::lemma_nearest_even_bounds(n, s);
    lemma_cut_at_least(n, k);
    let q = single::nearest_even(n, s);
    let f = n / s;
    assert(q * s >= f * s) by (nonlinear_arith)
        requires
            q >= f,
    ;
}

proof fn lemma_too_long()
    ensures
        pow2(96) == TOO_LONG,
{
    vstd::arithmetic::power2::lemma2_to64();
    vstd::arithmetic::power2::lemma_pow2_adds(64, 32);
}

/// A way that is too long stays too long.
proof fn lemma_way_stays(coords: Seq<(u16, u16)>, i: int, n: int)
    requires
        0 <= i <= n,
        way_length(coords, i) >= TOO_LONG,
    ensures
        way_length(coords, n) >= TOO_LONG,
    decreases n,
{
    if i < n {
        lemma_way_stays(coords, i, n - 1);
        lemma_too_long();
        if n > 1 {
            lemma_single_at_least(way_length(coords, n - 1) + leg(coords[n - 2], coords[n - 1]), 96);
        }
    }
}

fn distance(a: u16, b: u16) -> (r: u64)
    ensures
        r == apart(a, b),
        r <= 0xffff,
{
    if a >= b {
        (a - b) as u64
    } else {
        (b - a) as u64
    }
}

fn single_square(d: u64) -> (r: u64)
    requires
        d <= 0xffff,
    ensures
        r == single::single_ratio((d * d) as nat, 1),
        r <= 0x1_0000_0000,
{
    assert(0 <= d * d <= 0xffff * 0xffff) by (nonlinear_arith)
        requires
            d <= 0xffff,
    ;
    let n: u128 = (d * d) as u128;
    let r: u128 = round_single_ratio(n, 1);
    assert(r <= 0x1_0000_0000) by {
        single::lemma_single_at_most(n as nat);
    }
    r as u64
}

fn leg_length(a: (u16, u16), b: (u16, u16)) -> (r: u128)
    ensures
        r == leg(a, b),
        r <= 0x2_0000 * ONE,
{
    let dx: u64 = single_square(distance(a.0, b.0));
    let dy: u64 = single_square(distance(a.1, b.1));
    let n: u128 = round_single_ratio((dx + dy) as u128, 1);
    assert(n < 0x4_0000_0000) by {
        single::lemma_single_at_most((dx + dy) as nat);
    }
    square_root(n as u64) as u128
}

/// How many cells long the way through some cells is, at least one.
pub fn count_cells(coords: &Vec<(u16, u16)>) -> (r: u32)
    ensures
        r == way_cells(coords@),
{
    let mut total: u128 = 0;
    let mut i: usize = 1;
    while i < coords.len() && total < TOO_LONG
        invariant
            1 <= i,
            i <= coords@.len() || i == 1,
            total == way_length(coords@, i as int),
            total < TOO_LONG || i <= coords@.len(),
            total <= 4 * TOO_LONG,
        decreases coords@.len() - i,
    {
        let l: u128 = leg_length(coords[i - 1], coords[i]);
        i = i + 1;
        total = round_single_ratio(total + l, 1);
        assert(total + 0 <= 4 * TOO_LONG) by {
            single::lemma_single_at_most((way_length(coords@, i - 1) + l) as nat);
        }
    }
    if total >= TOO_LONG {
        proof {
            lemma_way_stays(coords@, i as int, coords@.len() as int);
        }
        return u32::MAX;
    }
    let n: u128 = (total + (ONE as u128 - 1)) / ONE as u128;
    if n < 1 {
        1
    } else if n > u32::MAX as u128 {
        u32::MAX
    } else {
        n as u32
    }
}

} // verus!
