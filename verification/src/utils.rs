//! Interpolation helpers: clamped linear interpolation and the cubic
//! smoothstep profile, with the laws that the renderer's antialiasing
//! depends on.

use vstd::prelude::*;
use vstd::arithmetic::div_mod::{lemma_div_is_ordered, lemma_div_multiples_vanish, lemma_div_of0};
use vstd::arithmetic::mul::lemma_mul_inequality;

use crate::fx::{
    clamp64, div_floor, lemma_mul_bounds, sclamp, sdiv, sdiv64, smax, smin, DIST_MAX, ONE,
};

verus! {

/// Linear interpolation from `a` to `b` by the factor `t`, clamped into
/// the unit interval.
pub open spec fn lerp_spec(a: int, b: int, t: int) -> int {
    let tc = sclamp(t, 0, ONE as int);
    (a * (ONE - tc) + b * tc) / (ONE as int)
}

/// The clamped cubic ramp underlying `smoothstep`: 0 at or before `a`,
/// `ONE` at or after `b`, a cubic ease in between; when the two ends
/// coincide, the value `a` itself (mirroring the classic formulation).
pub open spec fn smoothstep_spec(a: int, b: int, t: int) -> int {
    if a == b {
        a
    } else {
        let q = sclamp(sdiv((t - a) * (ONE as int), b - a), 0, ONE as int);
        (q * q * (3 * (ONE as int) - 2 * q)) / ((ONE as int) * (ONE as int))
    }
}

/// The cubic profile stays inside `[0, ONE^3]` on the unit interval.
pub proof fn lemma_cubic_range(q: int)
    requires
        0 <= q <= ONE,
    ensures
        0 <= q * q * (3 * (ONE as int) - 2 * q),
        q * q * (3 * (ONE as int) - 2 * q) <= (ONE as int) * (ONE as int) * (ONE as int),
{
    let n = ONE as int;
    assert(0 <= q * q * (3 * n - 2 * q)) by (nonlinear_arith)
        requires
            0 <= q <= n,
    ;
    assert(n * n * n - q * q * (3 * n - 2 * q) == (n - q) * (n - q) * (n + 2 * q))
        by (nonlinear_arith);
    assert((n - q) * (n - q) * (n + 2 * q) >= 0) by (nonlinear_arith)
        requires
            0 <= q <= n,
    ;
}

/// The cubic profile is monotone on the unit interval.
pub proof fn lemma_cubic_monotone(x: int, y: int)
    requires
        0 <= x <= y <= ONE,
    ensures
        x * x * (3 * (ONE as int) - 2 * x) <= y * y * (3 * (ONE as int) - 2 * y),
{
    let n = ONE as int;
    assert(y * y * (3 * n - 2 * y) - x * x * (3 * n - 2 * x) == (y - x) * (3 * n * (y + x) - 2 * (
    y * y + x * y + x * x))) by (nonlinear_arith);
    assert(2 * (y * y + x * y + x * x) <= 3 * n * (y + x)) by (nonlinear_arith)
        requires
            0 <= x <= y <= n,
    ;
    assert((y - x) * (3 * n * (y + x) - 2 * (y * y + x * y + x * x)) >= 0) by (nonlinear_arith)
        requires
            y - x >= 0,
            3 * n * (y + x) - 2 * (y * y + x * y + x * x) >= 0,
    ;
}

/// Law: a clamped linear interpolation never leaves the interval spanned by
/// its two ends.
pub proof fn lemma_lerp_bounds(a: int, b: int, t: int)
    ensures
        smin(a, b) <= lerp_spec(a, b, t) <= smax(a, b),
{
    let n = ONE as int;
    let tc = sclamp(t, 0, n);
    let lo = smin(a, b);
    let hi = smax(a, b);
    assert(lo * n <= a * (n - tc) + b * tc <= hi * n) by (nonlinear_arith)
        requires
            0 <= tc <= n,
            lo <= a <= hi,
            lo <= b <= hi,
    ;
    lemma_div_is_ordered(lo * n, a * (n - tc) + b * tc, n);
    lemma_div_is_ordered(a * (n - tc) + b * tc, hi * n, n);
    lemma_div_multiples_vanish(lo, n);
    lemma_div_multiples_vanish(hi, n);
    assert(lo * n == n * lo) by (nonlinear_arith);
    assert(hi * n == n * hi) by (nonlinear_arith);
}

/// Linear interpolation; the result never leaves the interval spanned by
/// its two ends.
pub fn lerp(a: i64, b: i64, t: i64) -> (r: i64)
    requires
        -DIST_MAX <= a <= DIST_MAX,
        -DIST_MAX <= b <= DIST_MAX,
    ensures
        r == lerp_spec(a as int, b as int, t as int),
        smin(a as int, b as int) <= r <= smax(a as int, b as int),
{
    let tc = clamp64(t, 0, ONE);
    proof {
        lemma_mul_bounds(a as int, ONE - tc as int, DIST_MAX as int, ONE as int);
        lemma_mul_bounds(b as int, tc as int, DIST_MAX as int, ONE as int);
    }
    let num = a * (ONE - tc) + b * tc;
    proof {
        let n = ONE as int;
        let lo = smin(a as int, b as int);
        let hi = smax(a as int, b as int);
        assert(lo * n <= num as int <= hi * n) by (nonlinear_arith)
            requires
                0 <= tc as int <= n,
                lo <= a as int <= hi,
                lo <= b as int <= hi,
                num as int == (a as int) * (n - tc as int) + (b as int) * (tc as int),
        ;
        lemma_div_is_ordered(lo * n, num as int, n);
        lemma_div_is_ordered(num as int, hi * n, n);
        lemma_div_multiples_vanish(lo, n);
        lemma_div_multiples_vanish(hi, n);
        assert(lo * n == n * lo) by (nonlinear_arith);
        assert(hi * n == n * hi) by (nonlinear_arith);
    }
    div_floor(num, ONE)
}

/// The cubic smoothstep ramp between `a` and `b`, evaluated at `t`.
pub fn smoothstep(a: i64, b: i64, t: i64) -> (r: i64)
    requires
        -DIST_MAX <= a <= DIST_MAX,
        -DIST_MAX <= b <= DIST_MAX,
        -DIST_MAX <= t <= DIST_MAX,
    ensures
        r == smoothstep_spec(a as int, b as int, t as int),
        a != b ==> 0 <= r <= ONE,
{
    if a == b {
        a
    } else {
        proof {
            lemma_mul_bounds(t - a, ONE as int, 2 * DIST_MAX as int, ONE as int);
        }
        let num = (t - a) * ONE;
        let qraw = sdiv64(num, b - a);
        let q = clamp64(qraw, 0, ONE);
        proof {
            lemma_cubic_range(q as int);
            lemma_mul_bounds(q as int, q as int, ONE as int, ONE as int);
        }
        let cubic = q * q * (3 * ONE - 2 * q);
        proof {
            let n = ONE as int;
            lemma_div_is_ordered(0, cubic as int, n * n);
            lemma_div_is_ordered(cubic as int, n * n * n, n * n);
            lemma_div_multiples_vanish(n, n * n);
            assert(n * n * n == (n * n) * n) by (nonlinear_arith);
            lemma_div_of0(n * n);
        }
        div_floor(cubic, ONE * ONE)
    }
}

/// Law: on either side of its ends the ramp is saturated — it is 0 at and
/// beyond the `a` end, `ONE` at and beyond the `b` end (in whichever
/// direction `b` lies), it stays within `[0, ONE]` for distinct ends, and it
/// degenerates to the constant `a` when the ends coincide.
pub proof fn lemma_smoothstep_endpoints(a: int, b: int, t: int)
    ensures
        a == b ==> smoothstep_spec(a, b, t) == a,
        a < b && t <= a ==> smoothstep_spec(a, b, t) == 0,
        a < b && t >= b ==> smoothstep_spec(a, b, t) == ONE,
        b < a && t >= a ==> smoothstep_spec(a, b, t) == 0,
        b < a && t <= b ==> smoothstep_spec(a, b, t) == ONE,
        a != b ==> 0 <= smoothstep_spec(a, b, t) <= ONE,
{
    let n = ONE as int;
    if a != b {
        let d = if b > a {
            b - a
        } else {
            a - b
        };
        let num = if b > a {
            (t - a) * n
        } else {
            -((t - a) * n)
        };
        assert(sdiv((t - a) * n, b - a) == num / d) by {
            if b < a {
                assert(-((t - a) * n) == (a - t) * n) by (nonlinear_arith);
                assert(sdiv((t - a) * n, b - a) == (-((t - a) * n)) / (a - b));
            }
        };
        let q = sclamp(num / d, 0, n);
        lemma_cubic_range(q);
        lemma_div_is_ordered(0, q * q * (3 * n - 2 * q), n * n);
        lemma_div_is_ordered(q * q * (3 * n - 2 * q), n * n * n, n * n);
        lemma_div_multiples_vanish(n, n * n);
        assert(n * n * n == (n * n) * n) by (nonlinear_arith);
        lemma_div_of0(n * n);
        assert(0 <= smoothstep_spec(a, b, t) <= n);
        // Saturation at the `a` end: the quotient is at most 0 there.
        if (a < b && t <= a) || (b < a && t >= a) {
            assert(num <= 0) by (nonlinear_arith)
                requires
                    num == if b > a {
                        (t - a) * n
                    } else {
                        -((t - a) * n)
                    },
                    n > 0,
                    (a < b && t <= a) || (b < a && t >= a),
            ;
            lemma_div_is_ordered(num, 0, d);
            lemma_div_of0(d);
            assert(q == 0);
            assert(q * q * (3 * n - 2 * q) == 0) by (nonlinear_arith)
                requires
                    q == 0,
            ;
        }
        // Saturation at the `b` end: the quotient is at least `ONE` there.
        if (a < b && t >= b) || (b < a && t <= b) {
            assert(num >= d * n) by (nonlinear_arith)
                requires
                    num == if b > a {
                        (t - a) * n
                    } else {
                        -((t - a) * n)
                    },
                    d == if b > a {
                        b - a
                    } else {
                        a - b
                    },
                    n > 0,
                    (a < b && t >= b) || (b < a && t <= b),
            ;
            lemma_div_is_ordered(d * n, num, d);
            lemma_div_multiples_vanish(n, d);
            assert(d * n == n * d) by (nonlinear_arith);
            assert(q == n);
            assert(q * q * (3 * n - 2 * q) == n * n * n) by (nonlinear_arith)
                requires
                    q == n,
            ;
            lemma_div_multiples_vanish(n, n * n);
        }
    }
}

/// Law: for distinct ends the ramp is monotone in `t` — nondecreasing when
/// the `b` end lies above `a`, nonincreasing when it lies below.
pub proof fn lemma_smoothstep_monotonic(a: int, b: int, t1: int, t2: int)
    requires
        a != b,
        t1 <= t2,
    ensures
        a < b ==> smoothstep_spec(a, b, t1) <= smoothstep_spec(a, b, t2),
        b < a ==> smoothstep_spec(a, b, t2) <= smoothstep_spec(a, b, t1),
{
    let n = ONE as int;
    if a < b {
        lemma_mul_inequality(t1 - a, t2 - a, n);
        lemma_div_is_ordered((t1 - a) * n, (t2 - a) * n, b - a);
        let q1 = sclamp(sdiv((t1 - a) * n, b - a), 0, n);
        let q2 = sclamp(sdiv((t2 - a) * n, b - a), 0, n);
        assert(q1 <= q2);
        lemma_cubic_monotone(q1, q2);
        lemma_div_is_ordered(q1 * q1 * (3 * n - 2 * q1), q2 * q2 * (3 * n - 2 * q2), n * n);
    } else {
        assert(-((t1 - a) * n) == (a - t1) * n) by (nonlinear_arith);
        assert(-((t2 - a) * n) == (a - t2) * n) by (nonlinear_arith);
        lemma_mul_inequality(a - t2, a - t1, n);
        lemma_div_is_ordered((a - t2) * n, (a - t1) * n, a - b);
        let q1 = sclamp(sdiv((t1 - a) * n, b - a), 0, n);
        let q2 = sclamp(sdiv((t2 - a) * n, b - a), 0, n);
        assert(q2 <= q1);
        lemma_cubic_monotone(q2, q1);
        lemma_div_is_ordered(q2 * q2 * (3 * n - 2 * q2), q1 * q1 * (3 * n - 2 * q1), n * n);
    }
}

} // verus!
