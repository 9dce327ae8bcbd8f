//! Fixed-point scalars and the arithmetic helpers of the renderer.
//!
//! A scalar is an `i64` counting 1/65536-ths of a unit ([`ONE`] is the
//! fixed-point unit). Division helpers round toward minus infinity; the
//! specification functions [`sdiv`], [`smul`], [`sclamp`], [`sqrt_floor`],
//! [`sin_deg_spec`] give the exact value of every executable operation.

use vstd::prelude::*;
use vstd::arithmetic::div_mod::{
    lemma_div_is_ordered, lemma_div_multiples_vanish, lemma_fundamental_div_mod,
    lemma_fundamental_div_mod_converse_div, lemma_mod_division_less_than_divisor,
};

verus! {

/// The fixed-point unit: scalars count 1/65536-ths.
pub const ONE: i64 = 65536;

/// Half a unit.
pub const HALF: i64 = 32768;

/// Points handed to distance evaluators are clamped to this magnitude
/// (16384 units), which keeps every squared length inside `i64`.
pub const COORD_MAX: i64 = 0x4000_0000;

/// Distances returned by node evaluation are clamped to this magnitude.
pub const DIST_MAX: i64 = 0x100_0000_0000;

/// Largest admissible uniform scale (16 units); the smallest is the raw
/// fixed-point step, so scale is always strictly positive.
pub const SCALE_MAX: i64 = 0x10_0000;

/// Largest admissible rotation magnitude, in fixed-point degrees.
pub const ROT_MAX: i64 = 0x100_0000_0000;

/// One full turn in fixed-point degrees.
pub const DEG_PERIOD: i64 = 360 * 65536;

/// Half a turn in fixed-point degrees.
pub const DEG_HALF: i64 = 180 * 65536;

/// A quarter turn in fixed-point degrees.
pub const DEG_QUARTER: i64 = 90 * 65536;

/// One full turn in fixed-point radians, rounded to the nearest step.
pub const RAD_PERIOD: i64 = 411775;

/// Degrees per radian in fixed point, rounded to the nearest step.
pub const DEG_PER_RAD: i64 = 3754936;

/// Clamping into a closed interval.
pub open spec fn sclamp(x: int, lo: int, hi: int) -> int {
    if x < lo {
        lo
    } else if x > hi {
        hi
    } else {
        x
    }
}

/// Absolute value.
pub open spec fn sabs(x: int) -> int {
    if x < 0 {
        -x
    } else {
        x
    }
}

/// Minimum of two integers.
pub open spec fn smin(x: int, y: int) -> int {
    if x < y {
        x
    } else {
        y
    }
}

/// Maximum of two integers.
pub open spec fn smax(x: int, y: int) -> int {
    if x < y {
        y
    } else {
        x
    }
}

/// Division rounding toward minus infinity, for either sign of the divisor.
/// (On `int`, `/` is Euclidean: floor for positive divisors, so flipping both
/// signs reduces a negative divisor to that case.)
pub open spec fn sdiv(a: int, b: int) -> int {
    if b < 0 {
        (-a) / (-b)
    } else {
        a / b
    }
}

/// Fixed-point product: the exact product scaled back down, rounding toward
/// minus infinity.
pub open spec fn smul(a: int, b: int) -> int {
    (a * b) / (ONE as int)
}

/// Clamp an `i64` into `[lo, hi]`.
pub fn clamp64(x: i64, lo: i64, hi: i64) -> (r: i64)
    requires
        lo <= hi,
    ensures
        r == sclamp(x as int, lo as int, hi as int),
{
    if x < lo {
        lo
    } else if x > hi {
        hi
    } else {
        x
    }
}

/// Absolute value of an `i64`.
pub fn abs64(x: i64) -> (r: i64)
    requires
        x > i64::MIN,
    ensures
        r == sabs(x as int),
{
    if x < 0 {
        -x
    } else {
        x
    }
}

/// `|a * b| <= aa * bb` whenever `|a| <= aa` and `|b| <= bb`.
pub proof fn lemma_mul_bounds(a: int, b: int, aa: int, bb: int)
    requires
        -aa <= a <= aa,
        -bb <= b <= bb,
    ensures
        -(aa * bb) <= a * b <= aa * bb,
{
    assert(-(aa * bb) <= a * b <= aa * bb) by (nonlinear_arith)
        requires
            -aa <= a <= aa,
            -bb <= b <= bb,
    ;
}

/// Flooring division by a positive divisor keeps a symmetric bound.
pub proof fn lemma_div_range(a: int, b: int, bound: int)
    requires
        b >= 1,
        bound >= 0,
        -bound <= a <= bound,
    ensures
        -bound <= a / b <= bound,
{
    lemma_div_is_ordered(a, bound, b);
    lemma_div_is_ordered(-bound, a, b);
    assert(bound / b <= bound) by (nonlinear_arith)
        requires
            b >= 1,
            bound >= 0,
    ;
    assert((-bound) / b >= -bound) by {
        lemma_fundamental_div_mod(-bound, b);
        lemma_mod_division_less_than_divisor(-bound, b);
        let q = (-bound) / b;
        let r = (-bound) % b;
        assert(q * b == -bound - r);
        if q < -bound {
            assert(false) by (nonlinear_arith)
                requires
                    q <= -bound - 1,
                    q * b == -bound - r,
                    0 <= r < b,
                    b >= 1,
                    bound >= 0,
            ;
        }
    };
}

/// Division by a positive divisor, rounding toward minus infinity
/// (the Euclidean quotient).
pub fn div_floor(a: i64, b: i64) -> (q: i64)
    requires
        b > 0,
        a > i64::MIN,
    ensures
        q == a as int / b as int,
{
    if a >= 0 {
        let q0: u64 = (a as u64) / (b as u64);
        proof {
            lemma_div_range(a as int, b as int, a as int);
        }
        q0 as i64
    } else {
        let m: u64 = (-a) as u64;
        let bu: u64 = b as u64;
        let t: u64 = m + bu - 1;
        let q0: u64 = t / bu;
        proof {
            let mi = m as int;
            let bi = b as int;
            let ti = t as int;
            let qi = q0 as int;
            // q0 <= m, so the cast back to i64 is exact.
            assert(ti <= mi * bi) by (nonlinear_arith)
                requires
                    mi >= 1,
                    bi >= 1,
                    ti == mi + bi - 1,
            ;
            lemma_div_is_ordered(ti, mi * bi, bi);
            lemma_div_multiples_vanish(mi, bi);
            assert(mi * bi == bi * mi) by (nonlinear_arith);
            assert(qi <= mi);
            // The flooring quotient of a = -m is -q0.
            lemma_fundamental_div_mod(ti, bi);
            lemma_mod_division_less_than_divisor(ti, bi);
            let rem = ti % bi;
            assert(bi * qi == mi + bi - 1 - rem);
            let r = qi * bi - mi;
            assert(qi * bi == bi * qi) by (nonlinear_arith);
            assert(0 <= r < bi);
            assert((a as int) == (-qi) * bi + r) by (nonlinear_arith)
                requires
                    r == qi * bi - mi,
                    a as int == -mi,
            ;
            lemma_fundamental_div_mod_converse_div(a as int, bi, -qi, r);
        }
        -(q0 as i64)
    }
}

/// Division rounding toward minus infinity, for either sign of the divisor.
pub fn sdiv64(a: i64, b: i64) -> (q: i64)
    requires
        a > i64::MIN,
        b > i64::MIN,
        b != 0,
    ensures
        q == sdiv(a as int, b as int),
{
    if b > 0 {
        div_floor(a, b)
    } else {
        div_floor(-a, -b)
    }
}

/// Euclidean remainder for a positive modulus.
pub fn mod_floor(a: i64, m: i64) -> (r: i64)
    requires
        0 < m <= 0x4000_0000_0000_0000,
        -0x4000_0000_0000_0000 <= a <= 0x4000_0000_0000_0000,
    ensures
        r == a as int % m as int,
        0 <= r < m,
{
    let q = div_floor(a, m);
    proof {
        lemma_fundamental_div_mod(a as int, m as int);
        lemma_mod_division_less_than_divisor(a as int, m as int);
        assert((m as int) * (q as int) == (q as int) * (m as int)) by (nonlinear_arith);
    }
    a - q * m
}

/// Fixed-point multiplication, rounding toward minus infinity.
pub fn fx_mul(a: i64, b: i64) -> (r: i64)
    requires
        -0x4000_0000_0000_0000 < a * b < 0x4000_0000_0000_0000,
    ensures
        r == smul(a as int, b as int),
{
    let p = a * b;
    div_floor(p, ONE)
}

/// A fixed-point product of a bounded value by a unit-interval factor stays
/// within the same bound; with a nonnegative value it also stays below it.
pub proof fn lemma_smul_unit(a: int, t: int, bound: int)
    requires
        0 <= t <= ONE,
        bound >= 0,
        -bound <= a <= bound,
    ensures
        -bound <= smul(a, t) <= bound,
        a >= 0 ==> 0 <= smul(a, t) <= a,
{
    lemma_mul_bounds(a, t, bound, ONE as int);
    lemma_div_range(a * t, ONE as int, bound * (ONE as int));
    lemma_div_is_ordered(a * t, bound * (ONE as int), ONE as int);
    lemma_div_is_ordered(-(bound * (ONE as int)), a * t, ONE as int);
    lemma_div_multiples_vanish(bound, ONE as int);
    lemma_div_multiples_vanish(-bound, ONE as int);
    assert(bound * (ONE as int) == (ONE as int) * bound) by (nonlinear_arith);
    assert(-(bound * (ONE as int)) == (ONE as int) * (-bound)) by (nonlinear_arith);
    if a >= 0 {
        assert(0 <= a * t <= a * (ONE as int)) by (nonlinear_arith)
            requires
                a >= 0,
                0 <= t <= ONE,
        ;
        lemma_div_is_ordered(0, a * t, ONE as int);
        lemma_div_is_ordered(a * t, a * (ONE as int), ONE as int);
        lemma_div_multiples_vanish(a, ONE as int);
        assert(a * (ONE as int) == (ONE as int) * a) by (nonlinear_arith);
    }
}

/// A fixed-point product bound: when the factor bounds multiply out to a
/// multiple of `ONE`, the scaled-down product keeps the scaled-down bound.
pub proof fn lemma_smul_bound(a: int, b: int, aa: int, bb: int, c: int)
    requires
        -aa <= a <= aa,
        -bb <= b <= bb,
        aa * bb == c * ONE,
        c >= 0,
    ensures
        -c <= smul(a, b) <= c,
{
    let n = ONE as int;
    lemma_mul_bounds(a, b, aa, bb);
    lemma_div_is_ordered(a * b, c * n, n);
    lemma_div_is_ordered(-(c * n), a * b, n);
    lemma_div_multiples_vanish(c, n);
    lemma_div_multiples_vanish(-c, n);
    assert(c * n == n * c) by (nonlinear_arith);
    assert(-(c * n) == n * (-c)) by (nonlinear_arith);
}

/// Dividing a value bounded by `bound * ONE` by a divisor of at least `ONE`
/// yields a value bounded by `bound`.
pub proof fn lemma_div_shrinks(a: int, b: int, bound: int)
    requires
        b >= ONE,
        bound >= 0,
        -(bound * ONE) <= a <= bound * ONE,
    ensures
        -bound <= a / b <= bound,
{
    let n = ONE as int;
    lemma_div_is_ordered(a, bound * n, b);
    vstd::arithmetic::div_mod::lemma_div_is_ordered_by_denominator(bound * n, n, b);
    lemma_div_multiples_vanish(bound, n);
    assert(bound * n == n * bound) by (nonlinear_arith);
    lemma_fundamental_div_mod(a, b);
    lemma_mod_division_less_than_divisor(a, b);
    let q = a / b;
    let r = a % b;
    if q < -bound {
        assert(false) by (nonlinear_arith)
            requires
                q <= -bound - 1,
                b * q + r == a,
                0 <= r < b,
                b >= n,
                n > 0,
                bound >= 0,
                a >= -(bound * n),
        ;
    }
}

/// The flooring integer square root, defined by recursion.
pub open spec fn sqrt_floor(n: int) -> int
    decreases n,
{
    if n <= 0 {
        0
    } else {
        let p = sqrt_floor(n - 1);
        if (p + 1) * (p + 1) <= n {
            p + 1
        } else {
            p
        }
    }
}

/// `sqrt_floor(n)` is the unique `r >= 0` with `r^2 <= n < (r+1)^2`.
pub proof fn lemma_sqrt_floor(n: int)
    requires
        n >= 0,
    ensures
        sqrt_floor(n) >= 0,
        sqrt_floor(n) * sqrt_floor(n) <= n,
        n < (sqrt_floor(n) + 1) * (sqrt_floor(n) + 1),
    decreases n,
{
    if n == 0 {
    } else {
        lemma_sqrt_floor(n - 1);
        let p = sqrt_floor(n - 1);
        if (p + 1) * (p + 1) <= n {
            assert(n <= p * p + 2 * p + 1 + 1) by (nonlinear_arith)
                requires
                    n - 1 < (p + 1) * (p + 1),
            ;
            assert(n < (p + 2) * (p + 2)) by (nonlinear_arith)
                requires
                    p >= 0,
                    n <= (p + 1) * (p + 1),
            ;
        }
    }
}

/// Any `r` satisfying the square-root characterization equals `sqrt_floor(n)`.
pub proof fn lemma_sqrt_unique(n: int, r: int)
    requires
        n >= 0,
        r >= 0,
        r * r <= n,
        n < (r + 1) * (r + 1),
    ensures
        r == sqrt_floor(n),
{
    lemma_sqrt_floor(n);
    let s = sqrt_floor(n);
    if r < s {
        assert((r + 1) * (r + 1) <= s * s) by (nonlinear_arith)
            requires
                0 <= r,
                r + 1 <= s,
        ;
        assert(false);
    }
    if s < r {
        assert((s + 1) * (s + 1) <= r * r) by (nonlinear_arith)
            requires
                0 <= s,
                s + 1 <= r,
        ;
        assert(false);
    }
}

/// Flooring square root by bisection.
pub fn isqrt(n: u64) -> (r: u64)
    requires
        n <= 0x8000_0000_0000_0000,
    ensures
        r == sqrt_floor(n as int),
        r * r <= n,
        n < (r + 1) * (r + 1),
        r <= 0x1_0000_0000,
{
    if n == 0 {
        proof {
            lemma_sqrt_unique(n as int, 0);
        }
        return 0;
    }
    let mut lo: u64 = 0;
    let mut hi: u64 = 3037000500;
    proof {
        assert((3037000500 as int) * (3037000500 as int) > 0x8000_0000_0000_0000) by (nonlinear_arith);
    }
    while lo + 1 < hi
        invariant
            lo < hi <= 3037000500,
            n <= 0x8000_0000_0000_0000,
            (lo as int) * (lo as int) <= n as int,
            (n as int) < (hi as int) * (hi as int),
        decreases hi - lo,
    {
        let mid = lo + (hi - lo) / 2;
        proof {
            assert(mid < hi);
            assert((mid as int) * (mid as int) < 0x8000_0000_0000_0000) by (nonlinear_arith)
                requires
                    0 <= mid as int <= 3037000499,
            ;
        }
        if mid * mid <= n {
            lo = mid;
        } else {
            hi = mid;
        }
    }
    proof {
        assert(hi == lo + 1);
        lemma_sqrt_unique(n as int, lo as int);
        assert((lo as int) <= 0x1_0000_0000) by {
            if lo as int > 0x1_0000_0000 {
                assert((lo as int) * (lo as int) > 0x8000_0000_0000_0000) by (nonlinear_arith)
                    requires
                        lo as int > 0x1_0000_0000,
                ;
            }
        };
    }
    lo
}

/// The core half-turn sine approximation: a rational polynomial that is 0 at
/// both ends of `[0, DEG_HALF]`, exactly `ONE` at the quarter turn, and always
/// within `[0, ONE]`.
pub open spec fn sin_half_spec(x: int) -> int {
    let q = (x * (DEG_HALF - x)) / (ONE as int);
    (4 * q * (ONE as int)) / (40500 * (ONE as int) - q)
}

/// Sine of an angle in fixed-point degrees, for any angle: the angle is
/// reduced to one turn and the second half-turn is the negated first.
pub open spec fn sin_deg_spec(x: int) -> int {
    let r = x % (DEG_PERIOD as int);
    if r <= DEG_HALF {
        sin_half_spec(r)
    } else {
        -sin_half_spec(r - (DEG_HALF as int))
    }
}

/// Cosine in fixed-point degrees: the sine a quarter turn later.
pub open spec fn cos_deg_spec(x: int) -> int {
    sin_deg_spec(x + DEG_QUARTER)
}

/// Sine of an angle in fixed-point radians: reduced to one turn, then
/// converted to degrees.
pub open spec fn sin_rad_spec(x: int) -> int {
    sin_deg_spec(smul(x % (RAD_PERIOD as int), DEG_PER_RAD as int))
}

fn sin_half(x: i64) -> (r: i64)
    requires
        0 <= x <= DEG_HALF,
    ensures
        r == sin_half_spec(x as int),
        0 <= r <= ONE,
{
    proof {
        assert((x as int) * (DEG_HALF - x as int) <= (DEG_QUARTER as int) * (DEG_QUARTER as int))
            by (nonlinear_arith)
            requires
                0 <= x as int <= DEG_HALF,
        ;
        assert((x as int) * (DEG_HALF - x as int) >= 0) by (nonlinear_arith)
            requires
                0 <= x as int <= DEG_HALF,
        ;
        assert((DEG_QUARTER as int) * (DEG_QUARTER as int) == 530841600 * (ONE as int))
            by (nonlinear_arith);
    }
    let p = x * (DEG_HALF - x);
    let q = div_floor(p, ONE);
    proof {
        lemma_div_is_ordered(0, p as int, ONE as int);
        lemma_div_is_ordered(p as int, 530841600 * (ONE as int), ONE as int);
        lemma_div_multiples_vanish(530841600, ONE as int);
        assert(530841600 * (ONE as int) == (ONE as int) * 530841600) by (nonlinear_arith);
        assert(0 <= q <= 530841600);
    }
    let den = 2654208000 - q;
    let num = 4 * q * ONE;
    proof {
        assert(40500 * (ONE as int) == 2654208000) by (nonlinear_arith);
        assert(num as int <= (den as int) * (ONE as int)) by (nonlinear_arith)
            requires
                num as int == 4 * (q as int) * (ONE as int),
                den as int == 2654208000 - q as int,
                0 <= q as int <= 530841600,
        ;
        lemma_div_is_ordered(0, num as int, den as int);
        lemma_div_is_ordered(num as int, (den as int) * (ONE as int), den as int);
        lemma_div_multiples_vanish(ONE as int, den as int);
        assert((den as int) * (ONE as int) == (ONE as int) * (den as int))
            by (nonlinear_arith);
    }
    div_floor(num, den)
}

/// Sine in fixed-point degrees.
pub fn sin_deg(x: i64) -> (r: i64)
    requires
        -0x4000_0000_0000_0000 <= x <= 0x4000_0000_0000_0000,
    ensures
        r == sin_deg_spec(x as int),
        -ONE <= r <= ONE,
{
    let m = mod_floor(x, DEG_PERIOD);
    if m <= DEG_HALF {
        sin_half(m)
    } else {
        -sin_half(m - DEG_HALF)
    }
}

/// Cosine in fixed-point degrees.
pub fn cos_deg(x: i64) -> (r: i64)
    requires
        -0x3000_0000_0000_0000 <= x <= 0x3000_0000_0000_0000,
    ensures
        r == cos_deg_spec(x as int),
        -ONE <= r <= ONE,
{
    sin_deg(x + DEG_QUARTER)
}

/// Sine in fixed-point radians.
pub fn sin_rad(x: i64) -> (r: i64)
    requires
        -0x4000_0000_0000_0000 <= x <= 0x4000_0000_0000_0000,
    ensures
        r == sin_rad_spec(x as int),
        -ONE <= r <= ONE,
{
    let m = mod_floor(x, RAD_PERIOD);
    proof {
        lemma_mul_bounds(m as int, DEG_PER_RAD as int, RAD_PERIOD as int, DEG_PER_RAD as int);
        assert((RAD_PERIOD as int) * (DEG_PER_RAD as int) < 0x4000_0000_0000_0000)
            by (nonlinear_arith);
    }
    let d = fx_mul(m, DEG_PER_RAD);
    proof {
        lemma_div_range(
            (m as int) * (DEG_PER_RAD as int),
            ONE as int,
            (RAD_PERIOD as int) * (DEG_PER_RAD as int),
        );
    }
    sin_deg(d)
}

} // verus!
