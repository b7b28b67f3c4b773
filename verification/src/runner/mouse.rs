//! Where the mouse is at a given time.
use vstd::prelude::*;

use crate::nanos;
use crate::nanos::{round_parts, Nanos, SECOND};
use crate::recording::MouseState;
use crate::runner::timeline::MouseSegment;
use crate::script::MouseEasing;
use crate::single;
use crate::single::{round_single, round_single_ratio, step, Measure, ONE};

verus! {

/// For how long before its first and after its last movement the mouse is shown.
pub const LINGER: u128 = 3_000_000_000;

/// One second in the units in which durations are divided.
pub const SECOND_UNITS: u128 = 0x40_0000_0000_0000;

/// The longest piece of a way: about two years.
pub const WAY_LIMIT: u128 = 67_108_864_000_000_000;

/// Bound on places along a side of the grid.
pub const PLACE_LIMIT: i128 = 0x2_0000_0000_0000_0000_0000;

/// A duration as seconds in single precision: whole seconds plus the quotient of
/// the rest.
pub open spec fn seconds(ns: nat) -> nat {
    single::single_ratio(
        single::single_ratio((ns / SECOND as nat) * SECOND_UNITS as nat, 1)
            + single::single_ratio(
            single::single_ratio(ns % SECOND as nat, 1) * SECOND_UNITS as nat,
            SECOND as nat,
        ),
        1,
    )
}

/// The part of a duration that is over, in single precision.
pub open spec fn fraction(elapsed: nat, duration: nat) -> int {
    let f = single::single_ratio(seconds(elapsed) * ONE as nat, seconds(duration));
    if f <= ONE {
        f as int
    } else {
        ONE as int
    }
}

/// The single-precision product of two numbers.
pub open spec fn product(a: int, b: int) -> int {
    let m = single::single_ratio(single::magnitude(a) * single::magnitude(b), ONE as nat) as int;
    if (a < 0) == (b < 0) {
        m
    } else {
        -m
    }
}

/// The place between two others, `eased` being the part of the way that is done.
pub open spec fn between(a: Measure, b: Measure, eased: Measure) -> int {
    single::single(a + product(eased as int, single::single(b - a)))
}

/// The first segment, from `i` on, during which the time falls.
pub open spec fn active(v: Seq<MouseSegment>, at: Nanos, i: int) -> Option<int>
    decreases v.len() - i,
{
    if i < 0 || i >= v.len() {
        None
    } else if v[i].start_time <= at <= v[i].end_time {
        Some(i)
    } else {
        active(v, at, i + 1)
    }
}

/// Of the first `n` segments, the one that ended last before the time.
pub open spec fn ended(v: Seq<MouseSegment>, at: Nanos, n: int) -> Option<int>
    decreases n,
{
    if n <= 0 {
        None
    } else {
        let before = ended(v, at, n - 1);
        if v[n - 1].end_time <= at && match before {
            Some(b) => v[b].end_time <= v[n - 1].end_time,
            None => true,
        } {
            Some(n - 1)
        } else {
            before
        }
    }
}

/// Where the mouse is, as far as its segments say.
#[derive(Debug, Clone, Copy)]
pub enum MousePlace {
    Hidden,
    At { col: Measure, row: Measure, state: MouseState },
    /// Underway on a segment, of whose time a part is over.
    Along { segment: usize, fraction: Measure },
}

/// Where the mouse is at a given time: underway; at the end of its last movement or
/// at the start of its first one, if that is not long ago or not far off; or
/// nowhere.
pub open spec fn place_of(v: Seq<MouseSegment>, at: Nanos) -> MousePlace {
    if v.len() == 0 {
        MousePlace::Hidden
    } else {
        match active(v, at, 0) {
            Some(i) => if v[i].end_time <= v[i].start_time {
                MousePlace::At { col: v[i].end_col, row: v[i].end_row, state: v[i].state }
            } else {
                MousePlace::Along {
                    segment: i as usize,
                    fraction: fraction(
                        (at - v[i].start_time) as nat,
                        (v[i].end_time - v[i].start_time) as nat,
                    ) as i128,
                }
            },
            None => match ended(v, at, v.len() as int) {
                Some(i) => if at - v[i].end_time > LINGER {
                    MousePlace::Hidden
                } else {
                    MousePlace::At {
                        col: v[i].end_col,
                        row: v[i].end_row,
                        state: MouseState::Moving,
                    }
                },
                None => if v[0].start_time - at > LINGER {
                    MousePlace::Hidden
                } else {
                    MousePlace::At {
                        col: v[0].start_col,
                        row: v[0].start_row,
                        state: MouseState::Moving,
                    }
                },
            },
        }
    }
}

/// Whether the segments are in range.
pub open spec fn segments_fit(v: Seq<MouseSegment>) -> bool {
    forall|i: int|
        0 <= i < v.len() ==> {
            &&& (#[trigger] v[i]).end_time - v[i].start_time < WAY_LIMIT
            &&& -PLACE_LIMIT <= v[i].start_col <= PLACE_LIMIT
            &&& -PLACE_LIMIT <= v[i].start_row <= PLACE_LIMIT
            &&& -PLACE_LIMIT <= v[i].end_col <= PLACE_LIMIT
            &&& -PLACE_LIMIT <= v[i].end_row <= PLACE_LIMIT
        }
}

fn in_seconds(ns: Nanos) -> (r: u128)
    requires
        ns < WAY_LIMIT,
    ensures
        r == seconds(ns as nat),
        r <= 0x8_0000_0000_0000_0000_0000,
        ns > 0 ==> r > 0,
{
    let a: u128 = round_single_ratio((ns / SECOND) * SECOND_UNITS, 1);
    let n: u128 = round_single_ratio(ns % SECOND, 1);
    let b: u128 = round_single_ratio(n * SECOND_UNITS, SECOND);
    assert(ns / SECOND < 67_108_864);
    assert((n * SECOND_UNITS) / SECOND as int <= 3 * SECOND_UNITS) by (nonlinear_arith)
        requires
            n <= 2 * SECOND + 1,
            SECOND == 1_000_000_000,
            SECOND_UNITS > 0,
    ;
    proof {
        if ns > 0 {
            if ns / SECOND > 0 {
                assert(a >= 1);
            } else {
                assert(n >= 1);
                assert(n * SECOND_UNITS >= SECOND) by (nonlinear_arith)
                    requires
                        n >= 1,
                        SECOND_UNITS >= SECOND,
                ;
                assert(b >= 1);
            }
        }
    }
    let r: u128 = round_single_ratio(a + b, 1);
    proof {
        single::lemma_single_ratio_bounds((a + b) as nat, 1);
    }
    r
}

/// `e * ONE / d` and its rest, for `e <= d`.
fn long_division(e: u128, d: u128) -> (r: (u128, u128))
    requires
        e <= d,
        0 < d <= 0x8_0000_0000_0000_0000_0000,
    ensures
        e * ONE == r.0 * d + r.1,
        r.1 < d,
        r.0 <= ONE,
{
    if e == d {
        assert(e * ONE == (ONE as u128) * d + 0) by (nonlinear_arith)
            requires
                e == d,
                ONE as u128 == ONE,
        ;
        return (ONE as u128, 0);
    }
    let mut q: u128 = 0;
    let mut rest: u128 = e;
    let mut i: u32 = 0;
    let ghost mut power: int = 1;
    assert(e * 1 == 0 * d + e) by (nonlinear_arith);
    assert(vstd::arithmetic::power2::pow2(0) == 1) by {
        vstd::arithmetic::power2::lemma2_to64();
    }
    while i < 64
        invariant
            i <= 64,
            0 < d <= 0x8_0000_0000_0000_0000_0000,
            rest < d,
            power == vstd::arithmetic::power2::pow2(i as nat),
            e * power == q * d + rest,
            q < power,
            power <= 0x1_0000_0000_0000_0000,
        decreases 64 - i,
    {
        let ghost q0 = q;
        let ghost rest0 = rest;
        rest = 2 * rest;
        q = 2 * q;
        if rest >= d {
            rest = rest - d;
            q = q + 1;
        }
        proof {
            vstd::arithmetic::power2::lemma_pow2_unfold((i + 1) as nat);
            assert(e * (2 * power) == q * d + rest) by (nonlinear_arith)
                requires
                    e * power == q0 * d + rest0,
                    (q == 2 * q0 && rest == 2 * rest0) || (q == 2 * q0 + 1 && rest == 2 * rest0
                        - d),
            ;
            power = 2 * power;
            lemma_pow2_bound(i + 1);
        }
        i = i + 1;
    }
    proof {
        vstd::arithmetic::power2::lemma2_to64();
        assert(power == ONE);
    }
    (q, rest)
}

proof fn lemma_pow2_bound(i: int)
    requires
        0 <= i <= 64,
    ensures
        vstd::arithmetic::power2::pow2(i as nat) <= 0x1_0000_0000_0000_0000,
{
    vstd::arithmetic::power2::lemma2_to64();
    if i < 64 {
        vstd::arithmetic::power2::lemma_pow2_strictly_increases(i as nat, 64);
    }
}

proof fn lemma_step_of_one(q: nat, s: nat)
    requires
        q <= 0x1_0000_0000_0000_0000,
        s == single::step_of(q),
    ensures
        1 <= s <= 0x200_0000_0000,
{
    single::lemma_step_bounds(q);
    if q >= 0x100_0000 {
        single::lemma_step_small(q);
    } else {
        assert(s == 1);
    }
}

fn part_over(elapsed: Nanos, duration: Nanos) -> (r: Measure)
    requires
        0 < duration < WAY_LIMIT,
        elapsed <= duration,
    ensures
        r == fraction(elapsed as nat, duration as nat),
        0 <= r <= ONE,
{
    let e: u128 = in_seconds(elapsed);
    let d: u128 = in_seconds(duration);
    if e > d {
        // Rounding keeps the order, so this does not happen; the part is clamped
        // all the same.
        proof {
            lemma_over(e as nat, d as nat);
        }
        return ONE;
    }
    let (q, rest) = long_division(e, d);
    let s: u128 = step(q);
    proof {
        lemma_step_of_one(q as nat, s as nat);
        nanos::lemma_parts(q as int, rest as int, d as int, s as int);
        assert(d * s <= 0x8_0000_0000_0000_0000_0000 * 0x200_0000_0000) by (nonlinear_arith)
            requires
                0 < d <= 0x8_0000_0000_0000_0000_0000,
                0 < s <= 0x200_0000_0000,
        ;
    }
    let v: u128 = round_parts(q, rest, d, s);
    if v <= ONE as u128 {
        v as i128
    } else {
        ONE
    }
}

proof fn lemma_over(e: nat, d: nat)
    requires
        e > d,
        d > 0,
    ensures
        single::single_ratio(e * ONE as nat, d) >= ONE,
{
    let num = e * ONE as nat;
    let q = num / d;
    assert(q >= ONE) by (nonlinear_arith)
        requires
            num == e * ONE,
            e > d,
            d > 0,
            q == num / d,
            ONE > 0,
    ;
    let s = single::step_of(q);
    single::lemma_step_bounds(q);
    lemma_step_divides(q);
    let k = ONE as nat / s;
    nanos::lemma_parts(q as int, (num % d) as int, d as int, s as int);
    vstd::arithmetic::div_mod::lemma_fundamental_div_mod(num as int, d as int);
    assert(q * d + num % d == num) by (nonlinear_arith)
        requires
            num == d * q + num % d,
    ;
    let n = single::nearest_even(num, d * s);
    assert(n >= q / s);
    assert(n * s >= ONE) by (nonlinear_arith)
        requires
            n >= q / s,
            q / s >= ONE as nat / s || q / s * s >= ONE,
            s >= 1,
            (ONE as nat / s) * s == ONE || q / s * s >= ONE,
    ;
}

/// Down to [`ONE`] the steps divide it; above, a multiple of the step lies between.
proof fn lemma_step_divides(q: nat)
    requires
        q >= ONE,
    ensures
        (q / single::step_of(q)) * single::step_of(q) >= ONE,
    decreases q,
{
    let s = single::step_of(q);
    single::lemma_step_bounds(q);
    if q / 2 >= ONE {
        lemma_step_divides(q / 2);
        let t = single::step_of(q / 2);
        assert(s == 2 * t);
        let h = q / 2;
        single::lemma_step_bounds(h);
        vstd::arithmetic::div_mod::lemma_div_denominator(q as int, 2, t as int);
        assert(q / s == h / t);
        assert((h / t) * (2 * t) >= (h / t) * t) by (nonlinear_arith)
            requires
                t >= 1,
        ;
    } else {
        lemma_first_steps(q);
    }
}

/// Between [`ONE`] and twice as much the step is the same.
proof fn lemma_first_steps(q: nat)
    requires
        ONE <= q < 2 * ONE,
    ensures
        (q / single::step_of(q)) * single::step_of(q) >= ONE,
{
    let s = single::step_of(q);
    vstd::arithmetic::power2::lemma2_to64();
    vstd::arithmetic::power2::lemma_pow2_adds(32, 9);
    assert(0x1_0000_0000int * 0x200 == 0x200_0000_0000int) by (nonlinear_arith);
    lemma_step_halved(q, 41);
    assert(s == 0x200_0000_0000);
    assert((q / 0x200_0000_0000) >= 0x80_0000);
}

proof fn lemma_step_halved(q: nat, k: nat)
    requires
        k <= 41,
        0x80_0000 * vstd::arithmetic::power2::pow2(k) <= q < 0x100_0000
            * vstd::arithmetic::power2::pow2(k),
    ensures
        single::step_of(q) == vstd::arithmetic::power2::pow2(k),
    decreases k,
{
    vstd::arithmetic::power2::lemma2_to64();
    if k > 0 {
        vstd::arithmetic::power2::lemma_pow2_unfold(k);
        let p = vstd::arithmetic::power2::pow2((k - 1) as nat);
        vstd::arithmetic::power2::lemma_pow2_pos((k - 1) as nat);
        assert(q >= 0x100_0000);
        lemma_step_halved(q / 2, (k - 1) as nat);
    }
}

/// `a * b / ONE` and its rest.
fn wide_product(a: u128, b: u128) -> (r: (u128, u128))
    requires
        a <= 0x2_0000_0000_0000_0000,
        b <= 0x8_0000_0000_0000_0000_0000,
    ensures
        a * b == r.0 * ONE + r.1,
        r.1 < ONE,
        r.0 <= 0x20_0000_0000_0000_0000_0000,
{
    let k: u128 = 0x1_0000_0000;
    let a1: u128 = a / k;
    let a0: u128 = a % k;
    let b1: u128 = b / k;
    let b0: u128 = b % k;
    proof {
        assert(0 <= a1 * b1 <= 0x2_0000_0000 * 0x8_0000_0000_0000) by (nonlinear_arith)
            requires
                0 <= a1 <= 0x2_0000_0000,
                0 <= b1 <= 0x8_0000_0000_0000,
        ;
        assert(0 <= a1 * b0 <= 0x2_0000_0000 * 0x1_0000_0000) by (nonlinear_arith)
            requires
                0 <= a1 <= 0x2_0000_0000,
                0 <= b0 <= 0x1_0000_0000,
        ;
        assert(0 <= a0 * b1 <= 0x1_0000_0000 * 0x8_0000_0000_0000) by (nonlinear_arith)
            requires
                0 <= a0 <= 0x1_0000_0000,
                0 <= b1 <= 0x8_0000_0000_0000,
        ;
        assert(0 <= a0 * b0 <= 0x1_0000_0000 * 0x1_0000_0000) by (nonlinear_arith)
            requires
                0 <= a0 <= 0x1_0000_0000,
                0 <= b0 <= 0x1_0000_0000,
        ;
    }
    let low: u128 = a0 * b0;
    let mid: u128 = a1 * b0 + a0 * b1 + low / k;
    let high: u128 = a1 * b1 + mid / k;
    let rest: u128 = (mid % k) * k + low % k;
    proof {
        assert(a * b == a1 * b1 * (k * k) + (a1 * b0 + a0 * b1) * k + a0 * b0)
            by (nonlinear_arith)
            requires
                a == k * a1 + a0,
                b == k * b1 + b0,
        ;
        assert(a * b == high * (k * k) + rest) by (nonlinear_arith)
            requires
                a * b == a1 * b1 * (k * k) + (a1 * b0 + a0 * b1) * k + low,
                low == k * (low / k) + low % k,
                mid == a1 * b0 + a0 * b1 + low / k,
                mid == k * (mid / k) + mid % k,
                high == a1 * b1 + mid / k,
                rest == (mid % k) * k + low % k,
        ;
        assert(k * k == ONE) by (nonlinear_arith)
            requires
                k == 0x1_0000_0000,
                ONE == 0x1_0000_0000_0000_0000,
        ;
    }
    (high, rest)
}

fn multiply(a: Measure, b: Measure) -> (r: Measure)
    requires
        -0x2_0000_0000_0000_0000 <= a <= 0x2_0000_0000_0000_0000,
        -0x8_0000_0000_0000_0000_0000 <= b <= 0x8_0000_0000_0000_0000_0000,
    ensures
        r == product(a as int, b as int),
        -0x50_0000_0000_0000_0000_0000 <= r <= 0x50_0000_0000_0000_0000_0000,
{
    let x: u128 = if a < 0 {
        (-a) as u128
    } else {
        a as u128
    };
    let y: u128 = if b < 0 {
        (-b) as u128
    } else {
        b as u128
    };
    let (q, rest) = wide_product(x, y);
    let s: u128 = step(q);
    proof {
        nanos::lemma_parts(q as int, rest as int, ONE as int, s as int);
        if q >= 0x100_0000 {
            single::lemma_step_small(q as nat);
        } else {
            assert(s == 1);
        }
        assert(ONE * s <= 0x7fff_ffff_ffff_ffff_ffff_ffff_ffff_fff0) by (nonlinear_arith)
            requires
                s == 1 || s * 0x80_0000 <= q,
                q <= 0x20_0000_0000_0000_0000_0000,
                ONE == 0x1_0000_0000_0000_0000,
        ;
    }
    let m: u128 = round_parts(q, rest, ONE as u128, s);
    if (a < 0) == (b < 0) {
        m as i128
    } else {
        -(m as i128)
    }
}

/// Where the mouse is on a segment, `eased` being the part of the way that is done.
pub open spec fn along(s: MouseSegment, eased: Measure) -> (Measure, Measure, MouseState) {
    (
        between(s.start_col, s.end_col, eased) as i128,
        between(s.start_row, s.end_row, eased) as i128,
        s.state,
    )
}

fn place_between(a: Measure, b: Measure, eased: Measure) -> (r: Measure)
    requires
        -PLACE_LIMIT <= a <= PLACE_LIMIT,
        -PLACE_LIMIT <= b <= PLACE_LIMIT,
        -0x2_0000_0000_0000_0000 <= eased <= 0x2_0000_0000_0000_0000,
    ensures
        r == between(a, b, eased),
{
    let d: Measure = round_single(b - a);
    let p: Measure = multiply(eased, d);
    round_single(a + p)
}

/// Where the mouse is on a segment, `eased` being the part of the way that is done.
pub fn place_along(s: &MouseSegment, eased: Measure) -> (r: (Measure, Measure, MouseState))
    requires
        segments_fit(seq![*s]),
        -0x2_0000_0000_0000_0000 <= eased <= 0x2_0000_0000_0000_0000,
    ensures
        r == along(*s, eased),
{
    assert(seq![*s][0] == *s);
    (
        place_between(s.start_col, s.end_col, eased),
        place_between(s.start_row, s.end_row, eased),
        s.state,
    )
}

fn find_active(v: &Vec<MouseSegment>, at: Nanos) -> (r: Option<usize>)
    ensures
        match r {
            Some(i) => active(v@, at, 0) == Some(i as int) && i < v@.len() && v@[i as int].start_time
                <= at <= v@[i as int].end_time,
            None => active(v@, at, 0) is None,
        },
{
    let mut i: usize = 0;
    while i < v.len()
        invariant
            i <= v@.len(),
            active(v@, at, 0) == active(v@, at, i as int),
        decreases v@.len() - i,
    {
        if v[i].start_time <= at && at <= v[i].end_time {
            return Some(i);
        }
        i = i + 1;
    }
    None
}

fn find_ended(v: &Vec<MouseSegment>, at: Nanos) -> (r: Option<usize>)
    ensures
        match r {
            Some(i) => ended(v@, at, v@.len() as int) == Some(i as int) && i < v@.len()
                && v@[i as int].end_time <= at,
            None => ended(v@, at, v@.len() as int) is None,
        },
{
    let mut best: Option<usize> = None;
    let mut i: usize = 0;
    while i < v.len()
        invariant
            i <= v@.len(),
            match best {
                Some(b) => ended(v@, at, i as int) == Some(b as int) && b < i && v@[b as int].end_time
                    <= at,
                None => ended(v@, at, i as int) is None,
            },
        decreases v@.len() - i,
    {
        let later: bool = match best {
            Some(b) => v[b].end_time <= v[i].end_time,
            None => true,
        };
        if v[i].end_time <= at && later {
            best = Some(i);
        }
        i = i + 1;
    }
    best
}

/// Where the mouse is at a given time, as far as its segments say.
pub fn find_mouse(at: Nanos, v: &Vec<MouseSegment>) -> (r: MousePlace)
    requires
        segments_fit(v@),
    ensures
        r == place_of(v@, at),
        r matches MousePlace::Along { segment, fraction } ==> segment < v@.len() && 0 <= fraction
            <= ONE,
{
    if v.len() == 0 {
        return MousePlace::Hidden;
    }
    match find_active(v, at) {
        Some(i) => {
            let s: MouseSegment = v[i];
            if s.end_time <= s.start_time {
                MousePlace::At { col: s.end_col, row: s.end_row, state: s.state }
            } else {
                let f: Measure = part_over(at - s.start_time, s.end_time - s.start_time);
                MousePlace::Along { segment: i, fraction: f }
            }
        },
        None => match find_ended(v, at) {
            Some(i) => {
                let s: MouseSegment = v[i];
                if at - s.end_time > LINGER {
                    MousePlace::Hidden
                } else {
                    MousePlace::At { col: s.end_col, row: s.end_row, state: MouseState::Moving }
                }
            },
            None => {
                let s: MouseSegment = v[0];
                let wait: u128 = if s.start_time > at {
                    s.start_time - at
                } else {
                    0
                };
                if wait > LINGER {
                    MousePlace::Hidden
                } else {
                    MousePlace::At {
                        col: s.start_col,
                        row: s.start_row,
                        state: MouseState::Moving,
                    }
                }
            },
        },
    }
}

/// Where the mouse is at a given time, on segments without an easing of their own.
pub open spec fn resolved(v: Seq<MouseSegment>, at: Nanos) -> Option<
    (Measure, Measure, MouseState),
> {
    match place_of(v, at) {
        MousePlace::Hidden => None,
        MousePlace::At { col, row, state } => Some((col, row, state)),
        MousePlace::Along { segment, fraction } => Some(along(v[segment as int], fraction)),
    }
}

/// Whether no segment has an easing of its own.
pub open spec fn evenly(v: Seq<MouseSegment>) -> bool {
    forall|i: int|
        0 <= i < v.len() ==> (#[trigger] v[i]).easing is None || v[i].easing == Some(
            MouseEasing::Linear,
        )
}

/// Where the mouse is at a given time, on segments without an easing of their own.
/// On others [`find_mouse`] says how much of a segment's time is over, and
/// [`place_along`] where the mouse is once that is eased.
pub fn resolve_mouse_position(at: Nanos, v: &Vec<MouseSegment>) -> (r: Option<
    (Measure, Measure, MouseState),
>)
    requires
        segments_fit(v@),
        evenly(v@),
    ensures
        r == resolved(v@, at),
{
    match find_mouse(at, v) {
        MousePlace::Hidden => None,
        MousePlace::At { col, row, state } => Some((col, row, state)),
        MousePlace::Along { segment, fraction } => {
            let s: MouseSegment = v[segment];
            assert(segments_fit(seq![s]));
            Some(place_along(&s, fraction))
        },
    }
}

/// Before its first movement the mouse rests where that starts, after its last one
/// where that ends, for three seconds each.
pub proof fn lemma_mouse_lingers(v: Seq<MouseSegment>, at: Nanos, i: int)
    requires
        active(v, at, 0) is None,
        ended(v, at, v.len() as int) == Some(i),
        0 <= i < v.len(),
    ensures
        at - v[i].end_time <= LINGER ==> resolved(v, at) == Some(
            (v[i].end_col, v[i].end_row, MouseState::Moving),
        ),
        at - v[i].end_time > LINGER ==> resolved(v, at) is None,
{
}

} // verus!
