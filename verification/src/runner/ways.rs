//! Ways whose length is a whole number of cells.
use vstd::prelude::*;

use crate::exact;
use crate::root;
use crate::runner::way;
use crate::single;
use crate::single::ONE;

verus! {

/// How far two cells are from each other, in whole cells.
pub open spec fn is_distance(c: nat, a: (u16, u16), b: (u16, u16)) -> bool {
    c * c == (a.0 - b.0) * (a.0 - b.0) + (a.1 - b.1) * (a.1 - b.1)
}

/// The sum of the first `n` numbers.
pub open spec fn sum_of(legs: Seq<nat>, n: int) -> nat
    decreases n,
{
    if n <= 0 {
        0
    } else {
        sum_of(legs, n - 1) + legs[n - 1]
    }
}

proof fn lemma_whole_leg(c: nat, a: (u16, u16), b: (u16, u16))
    requires
        c <= 4095,
        is_distance(c, a, b),
    ensures
        way::leg(a, b) == c * ONE,
{
    let dx = way::apart(a.0, b.0);
    let dy = way::apart(a.1, b.1);
    assert(dx * dx == (a.0 - b.0) * (a.0 - b.0)) by (nonlinear_arith)
        requires
            dx == a.0 - b.0 || dx == b.0 - a.0,
    ;
    assert(dy * dy == (a.1 - b.1) * (a.1 - b.1)) by (nonlinear_arith)
        requires
            dy == a.1 - b.1 || dy == b.1 - a.1,
    ;
    assert(c * c <= 4095 * 4095) by (nonlinear_arith)
        requires
            c <= 4095,
    ;
    assert(dx * dx >= 0 && dy * dy >= 0) by (nonlinear_arith);
    single::lemma_single_exact(dx * dx);
    single::lemma_single_exact(dy * dy);
    single::lemma_single_exact(c * c);
    exact::lemma_root_exact(c);
    assert(root::square(c) == c * c);
    assert(c * ONE >= 0) by (nonlinear_arith);
}

proof fn lemma_sum_grows(legs: Seq<nat>, i: int, n: int)
    requires
        i <= n,
    ensures
        sum_of(legs, i) <= sum_of(legs, n),
    decreases n - i,
{
    if i < n && n > 0 {
        lemma_sum_grows(legs, i, n - 1);
    }
}

proof fn lemma_whole_way(coords: Seq<(u16, u16)>, legs: Seq<nat>, n: int)
    requires
        1 <= n <= coords.len(),
        legs.len() + 1 == coords.len(),
        forall|i: int|
            0 <= i < legs.len() ==> (#[trigger] legs[i]) <= 4095 && is_distance(
                legs[i],
                coords[i],
                coords[i + 1],
            ),
        sum_of(legs, legs.len() as int) <= 0xff_ffff,
    ensures
        way::way_length(coords, n) == sum_of(legs, n - 1) * ONE,
    decreases n,
{
    if n > 1 {
        lemma_whole_way(coords, legs, n - 1);
        let c = legs[n - 2];
        assert(is_distance(c, coords[n - 2], coords[n - 2 + 1]));
        lemma_whole_leg(c, coords[n - 2], coords[n - 1]);
        lemma_sum_grows(legs, n - 1, legs.len() as int);
        let s = sum_of(legs, n - 1);
        assert(sum_of(legs, n - 2) * ONE + c * ONE == s * ONE) by (nonlinear_arith)
            requires
                s == sum_of(legs, n - 2) + c,
        ;
        exact::lemma_wholes_exact(s as int);
        assert(s * ONE >= 0) by (nonlinear_arith);
    }
}

/// The way through some cells is as long as its legs are together, each the straight
/// distance between two cells, and counts one cell at least. Here every leg is a whole
/// number of cells long; single precision holds such a way exactly.
pub proof fn lemma_way_measured(coords: Seq<(u16, u16)>, legs: Seq<nat>)
    requires
        legs.len() + 1 == coords.len(),
        forall|i: int|
            0 <= i < legs.len() ==> (#[trigger] legs[i]) <= 4095 && is_distance(
                legs[i],
                coords[i],
                coords[i + 1],
            ),
        sum_of(legs, legs.len() as int) <= 0xff_ffff,
    ensures
        sum_of(legs, legs.len() as int) > 0 ==> way::way_cells(coords) == sum_of(
            legs,
            legs.len() as int,
        ),
        sum_of(legs, legs.len() as int) == 0 ==> way::way_cells(coords) == 1,
{
    let s = sum_of(legs, legs.len() as int);
    lemma_whole_way(coords, legs, coords.len() as int);
    vstd::arithmetic::div_mod::lemma_fundamental_div_mod_converse(
        s * ONE + ONE - 1,
        ONE as int,
        s as int,
        ONE - 1,
    );
}

/// Between the same two cells it is as far one way as the other, and a way that does not
/// leave its cell counts one.
pub proof fn lemma_way_back(a: (u16, u16), b: (u16, u16))
    ensures
        way::leg(a, b) == way::leg(b, a),
        way::way_cells(seq![a, b]) == way::way_cells(seq![b, a]),
        way::way_cells(seq![a]) == 1,
{
    reveal_with_fuel(way::way_length, 3);
}

} // verus!
