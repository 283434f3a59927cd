//! Fixed-point scalar arithmetic: the scale constants, truncating
//! division as the solver's rounding rule, and an integer square root.

use vstd::arithmetic::div_mod::{
    lemma_div_is_ordered, lemma_div_multiples_vanish, lemma_div_multiples_vanish_quotient,
    lemma_div_pos_is_pos, lemma_fundamental_div_mod,
};
use vstd::arithmetic::mul::lemma_mul_inequality;
use vstd::prelude::*;

verus! {

/// Sub-units per world unit: all positions, velocities, radii and
/// restitutions are integers in units of `1 / SCALE`.
pub const SCALE: i128 = 1_000_000;

/// The fixed timestep is `1 / TICKS_PER_SECOND` seconds.
pub const TICKS_PER_SECOND: i128 = 60;

/// Magnitude of an integer.
pub open spec fn mag(a: int) -> int {
    if a >= 0 {
        a
    } else {
        -a
    }
}

/// Division rounding toward zero, the rule used by every stage of the
/// solver.  This matches what `/` computes on signed machine integers.
pub open spec fn div_t(a: int, b: int) -> int {
    if a >= 0 {
        a / b
    } else {
        -((-a) / b)
    }
}

/// Multiplication by the timestep: one tick of travel at rate `a`.
pub open spec fn times_dt(a: int) -> int {
    div_t(a, TICKS_PER_SECOND as int)
}

/// Truncating division never leaves the range `[-c, c]` when the
/// numerator is within `[-(b * c), b * c]`.
pub proof fn lemma_div_t_le(a: int, b: int, c: int)
    requires
        b > 0,
        c >= 0,
        -(b * c) <= a,
        a <= b * c,
    ensures
        -c <= div_t(a, b) <= c,
{
    if a >= 0 {
        lemma_div_pos_is_pos(a, b);
        lemma_div_is_ordered(a, b * c, b);
        lemma_div_multiples_vanish(c, b);
    } else {
        lemma_div_pos_is_pos(-a, b);
        lemma_div_is_ordered(-a, b * c, b);
        lemma_div_multiples_vanish(c, b);
    }
}

/// Truncating division does not increase magnitude.
pub proof fn lemma_div_t_mag(a: int, b: int)
    requires
        b >= 1,
    ensures
        mag(div_t(a, b)) <= mag(a),
        a >= 0 ==> 0 <= div_t(a, b) <= a,
        a < 0 ==> a <= div_t(a, b) <= 0,
{
    lemma_mul_inequality(1, b, mag(a));
    lemma_div_t_le(a, b, mag(a));
}

/// Dividing an exact multiple recovers the factor.
pub proof fn lemma_div_t_exact(x: int, b: int)
    requires
        b > 0,
    ensures
        div_t(b * x, b) == x,
{
    if x >= 0 {
        assert(b * x >= 0) by (nonlinear_arith)
            requires
                b > 0,
                x >= 0,
        ;
        lemma_div_multiples_vanish(x, b);
    } else {
        assert(b * x < 0) by (nonlinear_arith)
            requires
                b > 0,
                x < 0,
        ;
        assert(-(b * x) == b * (-x)) by (nonlinear_arith);
        lemma_div_multiples_vanish(-x, b);
    }
}

/// What truncation loses: the remainder `a - b * div_t(a, b)` has the
/// sign of `a` and magnitude below `b`.
pub proof fn lemma_div_t_decomp(a: int, b: int)
    requires
        b > 0,
    ensures
        mag(a - b * div_t(a, b)) < b,
        a >= 0 ==> 0 <= a - b * div_t(a, b),
        a < 0 ==> a - b * div_t(a, b) <= 0,
{
    if a >= 0 {
        lemma_fundamental_div_mod(a, b);
        lemma_div_pos_is_pos(a, b);
    } else {
        lemma_fundamental_div_mod(-a, b);
        lemma_div_pos_is_pos(-a, b);
        assert(b * ((-a) / b) == -(b * (-((-a) / b)))) by (nonlinear_arith);
    }
}

/// Scaling numerator and denominator together leaves a truncating
/// quotient unchanged.
pub proof fn lemma_div_t_scale(a: int, b: int, c: int)
    requires
        b > 0,
        c > 0,
    ensures
        div_t(a * c, b * c) == div_t(a, b),
{
    assert(b * c > 0) by (nonlinear_arith)
        requires
            b > 0,
            c > 0,
    ;
    if a >= 0 {
        assert(a * c >= 0) by (nonlinear_arith)
            requires
                a >= 0,
                c > 0,
        ;
        lemma_div_multiples_vanish_quotient(c, a, b);
        assert(c * a == a * c && c * b == b * c) by (nonlinear_arith);
    } else {
        assert(a * c < 0) by (nonlinear_arith)
            requires
                a < 0,
                c > 0,
        ;
        lemma_div_multiples_vanish_quotient(c, -a, b);
        assert(c * (-a) == -(a * c) && c * b == b * c) by (nonlinear_arith);
    }
}

/// A product is bounded by the product of the bounds.
pub proof fn lemma_mul_mag(x: int, y: int, cx: int, cy: int)
    requires
        mag(x) <= cx,
        mag(y) <= cy,
    ensures
        mag(x * y) <= cx * cy,
{
    assert(mag(x * y) <= cx * cy) by (nonlinear_arith)
        requires
            mag(x) <= cx,
            mag(y) <= cy,
    ;
}

/// `r` is the integer square root of `x` rounded down.
pub open spec fn is_sqrt_floor(x: int, r: int) -> bool {
    &&& 0 <= r
    &&& r * r <= x
    &&& x < (r + 1) * (r + 1)
}

/// The integer square root of `x`, rounded down.  Meaningful for
/// `x >= 0`; see `lemma_sqrt_floor_exists`.
pub open spec fn sqrt_floor(x: int) -> int {
    choose|r: int| is_sqrt_floor(x, r)
}

/// Every nonnegative integer has a floor square root.
pub proof fn lemma_sqrt_floor_exists(x: int)
    requires
        x >= 0,
    ensures
        is_sqrt_floor(x, sqrt_floor(x)),
    decreases x,
{
    if x == 0 {
        assert(is_sqrt_floor(0, 0));
    } else {
        lemma_sqrt_floor_exists(x - 1);
        let r = sqrt_floor(x - 1);
        if x < (r + 1) * (r + 1) {
            assert(is_sqrt_floor(x, r));
        } else {
            assert(x == (r + 1) * (r + 1));
            assert((r + 1 + 1) * (r + 1 + 1) > (r + 1) * (r + 1)) by (nonlinear_arith)
                requires
                    r >= 0,
            ;
            assert(is_sqrt_floor(x, r + 1));
        }
    }
}

/// The floor square root is unique.
pub proof fn lemma_sqrt_floor_unique(x: int, r: int)
    requires
        is_sqrt_floor(x, r),
    ensures
        r == sqrt_floor(x),
{
    let s = sqrt_floor(x);
    assert(is_sqrt_floor(x, s));
    assert forall|r1: int, r2: int|
        is_sqrt_floor(x, r1) && is_sqrt_floor(x, r2) implies r1 == r2 by {
        assert(!(r1 < r2)) by (nonlinear_arith)
            requires
                0 <= r1,
                0 <= r2,
                r2 * r2 <= x,
                x < (r1 + 1) * (r1 + 1),
        ;
        assert(!(r2 < r1)) by (nonlinear_arith)
            requires
                0 <= r1,
                0 <= r2,
                r1 * r1 <= x,
                x < (r2 + 1) * (r2 + 1),
        ;
    }
}

/// No component of a vector exceeds the floor square root of the
/// squared length.
pub proof fn lemma_sqrt_floor_dominates(x: int, v: int)
    requires
        x >= 0,
        v * v <= x,
    ensures
        mag(v) <= sqrt_floor(x),
{
    lemma_sqrt_floor_exists(x);
    let r = sqrt_floor(x);
    assert(mag(v) <= r) by (nonlinear_arith)
        requires
            0 <= r,
            v * v <= x,
            x < (r + 1) * (r + 1),
    ;
}

/// The floor square root respects strict upper bounds by squares.
pub proof fn lemma_sqrt_floor_lt(x: int, r: int)
    requires
        0 <= x,
        0 <= r,
        x < r * r,
    ensures
        sqrt_floor(x) < r,
{
    lemma_sqrt_floor_exists(x);
    let s = sqrt_floor(x);
    assert(s < r) by (nonlinear_arith)
        requires
            0 <= s,
            0 <= r,
            s * s <= x,
            x < r * r,
    ;
}

/// The floor square root of a perfect square.
pub proof fn lemma_sqrt_floor_square(v: int)
    requires
        v >= 0,
    ensures
        sqrt_floor(v * v) == v,
{
    assert((v + 1) * (v + 1) > v * v) by (nonlinear_arith)
        requires
            v >= 0,
    ;
    assert(is_sqrt_floor(v * v, v));
    lemma_sqrt_floor_unique(v * v, v);
}

/// Integer square root, rounded down, by bisection.
pub fn isqrt(x: i128) -> (r: i128)
    requires
        0 <= x,
        x < 0x4000_0000_0000_0000_0000_0000_0000_0000,
    ensures
        r == sqrt_floor(x as int),
        0 <= r,
        r * r <= x,
        x < (r + 1) * (r + 1),
{
    proof {
        lemma_sqrt_floor_exists(x as int);
    }
    if x == 0 {
        proof {
            lemma_sqrt_floor_unique(0, 0);
        }
        return 0;
    }
    let mut lo: i128 = 0;
    let mut hi: i128 = 0x8000_0000_0000_0000;
    assert(hi * hi == 0x4000_0000_0000_0000_0000_0000_0000_0000) by (nonlinear_arith)
        requires
            hi == 0x8000_0000_0000_0000i128,
    ;
    while lo + 1 < hi
        invariant
            0 <= lo < hi <= 0x8000_0000_0000_0000,
            lo * lo <= x,
            x < hi * hi,
        decreases hi - lo,
    {
        let mid = lo + (hi - lo) / 2;
        assert(lo < mid < hi);
        assert(mid * mid <= 0x4000_0000_0000_0000_0000_0000_0000_0000) by (nonlinear_arith)
            requires
                0 <= mid <= 0x8000_0000_0000_0000,
        ;
        if mid * mid <= x {
            lo = mid;
        } else {
            hi = mid;
        }
    }
    proof {
        lemma_sqrt_floor_unique(x as int, lo as int);
    }
    lo
}

} // verus!
