//! The scene arena and its distance evaluators.
//!
//! A scene is an ordered arena of [`Object`]s. Each object owns a transform,
//! a distortion chain and one evaluator: a circle, a rectangle, a text run,
//! or a smooth union of two other arena entries referenced by index. A
//! well-formed arena only references forward (an operator's operands have
//! strictly larger indices), which rules out cycles and bounds the
//! recursion.

use vstd::prelude::*;
use vstd::arithmetic::div_mod::{lemma_div_is_ordered, lemma_div_multiples_vanish, lemma_div_of0};
use vstd::arithmetic::mul::lemma_mul_inequality;

use crate::distortion::{distorsion_map_spec, Distorsion};
use crate::fx::{
    clamp64, fx_mul, isqrt, lemma_mul_bounds, lemma_smul_unit, sabs, sclamp, sdiv, sdiv64, smax,
    smin, smul, sqrt_floor, COORD_MAX, DIST_MAX, HALF, ONE,
};
use crate::text::{text_dist_spec, Text, FAR_DISTANCE};
use crate::transform::{map_spec, Transform};
use crate::utils::{lemma_lerp_bounds, lerp, lerp_spec};
use crate::vec2::Vec2;

verus! {

/// A circle around the local origin.
#[derive(Clone, Copy, Debug, PartialEq, Eq, Structural)]
pub struct Circle {
    pub radius: i64,
}

/// An axis-aligned rectangle around the local origin, given by its
/// half-extents.
#[derive(Clone, Copy, Debug, PartialEq, Eq, Structural)]
pub struct Square {
    pub size: Vec2,
}

/// A smooth boolean union of two arena entries, blended over a fuzz radius.
#[derive(Clone, Copy, Debug, PartialEq, Eq, Structural)]
pub struct OpSmoothUnion {
    pub sdf_1: usize,
    pub sdf_2: usize,
    pub fuzz: i64,
}

/// The closed set of distance evaluators.
pub enum SDF {
    Circle(Circle),
    Square(Square),
    Text(Text),
    OpSmoothUnion(OpSmoothUnion),
}

/// A scene node: its transform, its distortion chain, an optional parent
/// used only by debug inspection (never by evaluation), and its evaluator.
pub struct Object {
    pub transform: Transform,
    pub distortion: Vec<Distorsion>,
    pub parent_id: Option<usize>,
    pub sdf: SDF,
}

/// The circle's signed distance: the flooring length of the point minus the
/// radius.
pub open spec fn circle_dist_spec(c: Circle, p: Vec2) -> int {
    sqrt_floor(p.x * p.x + p.y * p.y) - c.radius
}

/// The rectangle's signed distance: exact Euclidean distance outside,
/// negative offset to the nearest edge inside.
pub open spec fn square_dist_spec(s: Square, p: Vec2) -> int {
    let dx = sabs(p.x as int) - s.size.x;
    let dy = sabs(p.y as int) - s.size.y;
    let ax = smax(dx, 0);
    let ay = smax(dy, 0);
    sqrt_floor(ax * ax + ay * ay) + smin(smax(dx, dy), 0)
}

/// The polynomial smooth minimum of two distances: a clamped blend factor
/// from the distance gap over the fuzz, a linear interpolation, and a
/// rounding correction that vanishes at saturated blend factors.
pub open spec fn smooth_union_spec(d1: int, d2: int, fuzz: int) -> int {
    let h = sclamp(HALF + sdiv((d2 - d1) * (ONE as int), 2 * fuzz), 0, ONE as int);
    lerp_spec(d2, d1, h) - smul(smul(fuzz, h), ONE - h)
}

/// A distortion chain applied in list order.
pub open spec fn distort_fold(ds: Seq<Distorsion>, p: Vec2) -> Vec2
    decreases ds.len(),
{
    if ds.len() == 0 {
        p
    } else {
        distort_fold(ds.drop_first(), distorsion_map_spec(ds.first(), p))
    }
}

/// A node's local point: the transform mapping followed by the distortion
/// chain.
pub open spec fn obj_local_spec(o: Object, p: Vec2) -> Vec2 {
    distort_fold(o.distortion@, map_spec(o.transform, p))
}

/// The shape-local part of well-formedness: bounded radius and extents, a
/// well-formed text run, a strictly positive bounded fuzz.
pub open spec fn sdf_wf(s: SDF) -> bool {
    match s {
        SDF::Circle(c) => 0 <= c.radius <= COORD_MAX,
        SDF::Square(sq) => 0 <= sq.size.x <= COORD_MAX && 0 <= sq.size.y <= COORD_MAX,
        SDF::Text(t) => t.wf(),
        SDF::OpSmoothUnion(u) => 1 <= u.fuzz <= COORD_MAX,
    }
}

/// A node in isolation: well-formed transform, distortions and shape.
pub open spec fn obj_wf(o: Object) -> bool {
    &&& o.transform.wf()
    &&& forall|i: int| 0 <= i < o.distortion.len() ==> (#[trigger] o.distortion[i]).wf()
    &&& sdf_wf(o.sdf)
}

/// A union's operands lie inside an arena of the given length.
pub open spec fn obj_refs_ok(o: Object, len: int) -> bool {
    match o.sdf {
        SDF::OpSmoothUnion(u) => u.sdf_1 < len && u.sdf_2 < len,
        _ => true,
    }
}

/// A node within the arena: well-formed in isolation, its union operands
/// strictly after it (which rules out reference cycles), and its parent
/// strictly before it.
pub open spec fn node_wf(o: Object, idx: int, len: int) -> bool {
    &&& obj_wf(o)
    &&& match o.sdf {
        SDF::OpSmoothUnion(u) => idx < u.sdf_1 < len && idx < u.sdf_2 < len,
        _ => true,
    }
    &&& match o.parent_id {
        Option::Some(p) => p < idx,
        Option::None => true,
    }
}

/// The arena validity invariant the caller maintains.
pub open spec fn arena_wf(arena: Seq<Object>) -> bool {
    forall|i: int| 0 <= i < arena.len() ==> node_wf(#[trigger] arena[i], i, arena.len() as int)
}

/// The full evaluation of the arena entry at `idx` on a point: the local
/// point runs through the entry's evaluator (recursing forward through the
/// arena for unions), and the result is scaled by the entry's uniform scale
/// and clamped into the distance range.
pub open spec fn eval_at_spec(arena: Seq<Object>, idx: int, p: Vec2) -> int
    decreases arena.len() - idx,
{
    if arena_wf(arena) && 0 <= idx < arena.len() {
        let o = arena[idx];
        let lp = obj_local_spec(o, p);
        let d = match o.sdf {
            SDF::Circle(c) => circle_dist_spec(c, lp),
            SDF::Square(sq) => square_dist_spec(sq, lp),
            SDF::Text(t) => text_dist_spec(t, lp),
            SDF::OpSmoothUnion(u) => smooth_union_spec(
                eval_at_spec(arena, u.sdf_1 as int, lp),
                eval_at_spec(arena, u.sdf_2 as int, lp),
                u.fuzz as int,
            ),
        };
        sclamp(smul(d, o.transform.scale as int), -DIST_MAX as int, DIST_MAX as int)
    } else {
        0
    }
}

/// A shape's raw distance at a local point, with union operands evaluated
/// through the arena.
pub open spec fn sdf_dist_spec(arena: Seq<Object>, s: SDF, p: Vec2) -> int {
    match s {
        SDF::Circle(c) => circle_dist_spec(c, p),
        SDF::Square(sq) => square_dist_spec(sq, p),
        SDF::Text(t) => text_dist_spec(t, p),
        SDF::OpSmoothUnion(u) => smooth_union_spec(
            eval_at_spec(arena, u.sdf_1 as int, p),
            eval_at_spec(arena, u.sdf_2 as int, p),
            u.fuzz as int,
        ),
    }
}

/// A node's distance at a scene point: its local point through its shape,
/// scaled and clamped.
pub open spec fn obj_dist_spec(arena: Seq<Object>, o: Object, p: Vec2) -> int {
    sclamp(
        smul(sdf_dist_spec(arena, o.sdf, obj_local_spec(o, p)), o.transform.scale as int),
        -DIST_MAX as int,
        DIST_MAX as int,
    )
}

/// Evaluating an arena entry is evaluating that node.
pub proof fn lemma_eval_at_unfold(arena: Seq<Object>, idx: int, p: Vec2)
    requires
        arena_wf(arena),
        0 <= idx < arena.len(),
    ensures
        eval_at_spec(arena, idx, p) == obj_dist_spec(arena, arena[idx], p),
{
    let o = arena[idx];
    match o.sdf {
        SDF::Circle(c) => {},
        SDF::Square(sq) => {},
        SDF::Text(t) => {},
        SDF::OpSmoothUnion(u) => {},
    }
}

/// Map a point into a node's local space: its transform, then its
/// distortion chain.
fn local_point(obj: &Object, point: Vec2) -> (p: Vec2)
    requires
        obj_wf(*obj),
        point.bounded(COORD_MAX as int),
    ensures
        p == obj_local_spec(*obj, point),
        p.bounded(COORD_MAX as int),
{
    let mut p = obj.transform.map(point);
    proof {
        assert(obj.distortion@.skip(0) =~= obj.distortion@);
    }
    let n = obj.distortion.len();
    let mut k: usize = 0;
    while k < n
        invariant
            obj_wf(*obj),
            n == obj.distortion.len(),
            k <= n,
            p.bounded(COORD_MAX as int),
            distort_fold(obj.distortion@.skip(k as int), p) == obj_local_spec(*obj, point),
        decreases n - k,
    {
        proof {
            assert(obj.distortion@.skip(k as int).first() == obj.distortion@[k as int]);
            assert(obj.distortion@.skip(k as int).drop_first() =~= obj.distortion@.skip(
                k as int + 1,
            ));
        }
        p = obj.distortion[k].map(p);
        k = k + 1;
    }
    proof {
        assert(obj.distortion@.skip(n as int).len() == 0);
    }
    p
}

impl Circle {
    /// The circle's signed distance to a local point.
    pub fn get_distance(&self, _arena: &Vec<Object>, point: Vec2) -> (d: i64)
        requires
            0 <= self.radius <= COORD_MAX,
            point.bounded(COORD_MAX as int),
        ensures
            d == circle_dist_spec(*self, point),
            -COORD_MAX <= d <= 0x1_0000_0000,
    {
        proof {
            lemma_mul_bounds(point.x as int, point.x as int, COORD_MAX as int, COORD_MAX as int);
            lemma_mul_bounds(point.y as int, point.y as int, COORD_MAX as int, COORD_MAX as int);
            assert(point.x as int * point.x as int >= 0) by (nonlinear_arith);
            assert(point.y as int * point.y as int >= 0) by (nonlinear_arith);
        }
        let sq = point.x * point.x + point.y * point.y;
        let root = isqrt(sq as u64) as i64;
        root - self.radius
    }
}

impl Square {
    /// The rectangle's signed distance to a local point.
    pub fn get_distance(&self, _arena: &Vec<Object>, point: Vec2) -> (d: i64)
        requires
            0 <= self.size.x <= COORD_MAX,
            0 <= self.size.y <= COORD_MAX,
            point.bounded(COORD_MAX as int),
        ensures
            d == square_dist_spec(*self, point),
            -COORD_MAX <= d <= 0x2_0000_0000,
    {
        let dx = if point.x < 0 {
            -point.x
        } else {
            point.x
        } - self.size.x;
        let dy = if point.y < 0 {
            -point.y
        } else {
            point.y
        } - self.size.y;
        let ax = if dx < 0 {
            0
        } else {
            dx
        };
        let ay = if dy < 0 {
            0
        } else {
            dy
        };
        proof {
            lemma_mul_bounds(ax as int, ax as int, COORD_MAX as int, COORD_MAX as int);
            lemma_mul_bounds(ay as int, ay as int, COORD_MAX as int, COORD_MAX as int);
            assert(ax as int * ax as int >= 0) by (nonlinear_arith);
            assert(ay as int * ay as int >= 0) by (nonlinear_arith);
        }
        let axu = ax as u64;
        let ayu = ay as u64;
        let sq = axu * axu + ayu * ayu;
        let root = isqrt(sq) as i64;
        let mx = if dx < dy {
            dy
        } else {
            dx
        };
        let mn = if mx > 0 {
            0
        } else {
            mx
        };
        root + mn
    }
}

/// The polynomial smooth minimum of two evaluated distances.
fn smooth_union(d1: i64, d2: i64, fuzz: i64) -> (r: i64)
    requires
        -DIST_MAX <= d1 <= DIST_MAX,
        -DIST_MAX <= d2 <= DIST_MAX,
        1 <= fuzz <= COORD_MAX,
    ensures
        r == smooth_union_spec(d1 as int, d2 as int, fuzz as int),
        -DIST_MAX - COORD_MAX <= r <= DIST_MAX,
{
    proof {
        lemma_mul_bounds(d2 - d1, ONE as int, 2 * DIST_MAX as int, ONE as int);
    }
    let gap = (d2 - d1) * ONE;
    proof {
        crate::fx::lemma_div_range(gap as int, 2 * fuzz as int, (2 * DIST_MAX as int) * (ONE as int));
    }
    let h = clamp64(HALF + sdiv64(gap, 2 * fuzz), 0, ONE);
    let l = lerp(d2, d1, h);
    proof {
        lemma_mul_bounds(fuzz as int, h as int, COORD_MAX as int, ONE as int);
        lemma_smul_unit(fuzz as int, h as int, COORD_MAX as int);
    }
    let c1 = fx_mul(fuzz, h);
    proof {
        lemma_mul_bounds(c1 as int, ONE - h as int, COORD_MAX as int, ONE as int);
        lemma_smul_unit(c1 as int, ONE - h as int, COORD_MAX as int);
        assert(c1 >= 0 ==> 0 <= smul(c1 as int, ONE - h as int) <= c1 as int);
    }
    let c2 = fx_mul(c1, ONE - h);
    l - c2
}

impl OpSmoothUnion {
    /// The smooth union of its two operand nodes' distances at a point.
    pub fn get_distance(&self, arena: &Vec<Object>, point: Vec2) -> (d: i64)
        requires
            arena_wf(arena@),
            self.sdf_1 < arena.len(),
            self.sdf_2 < arena.len(),
            1 <= self.fuzz <= COORD_MAX,
            point.bounded(COORD_MAX as int),
        ensures
            d == smooth_union_spec(
                eval_at_spec(arena@, self.sdf_1 as int, point),
                eval_at_spec(arena@, self.sdf_2 as int, point),
                self.fuzz as int,
            ),
            -DIST_MAX - COORD_MAX <= d <= DIST_MAX,
    {
        let d1 = eval_at(arena, self.sdf_1, point);
        let d2 = eval_at(arena, self.sdf_2, point);
        smooth_union(d1, d2, self.fuzz)
    }
}

/// Evaluate the arena entry at `idx` on a scene point.
pub fn eval_at(arena: &Vec<Object>, idx: usize, point: Vec2) -> (d: i64)
    requires
        arena_wf(arena@),
        idx < arena.len(),
        point.bounded(COORD_MAX as int),
    ensures
        d == eval_at_spec(arena@, idx as int, point),
        -DIST_MAX <= d <= DIST_MAX,
    decreases arena.len() - idx,
{
    proof {
        assert(node_wf(arena@[idx as int], idx as int, arena@.len() as int));
    }
    let obj = &arena[idx];
    let lp = local_point(obj, point);
    let d = match &obj.sdf {
        SDF::Circle(c) => c.get_distance(arena, lp),
        SDF::Square(sq) => sq.get_distance(arena, lp),
        SDF::Text(t) => t.get_distance(arena, lp),
        SDF::OpSmoothUnion(u) => {
            let d1 = eval_at(arena, u.sdf_1, lp);
            let d2 = eval_at(arena, u.sdf_2, lp);
            smooth_union(d1, d2, u.fuzz)
        },
    };
    proof {
        lemma_mul_bounds(
            d as int,
            obj.transform.scale as int,
            DIST_MAX + COORD_MAX as int,
            0x10_0000,
        );
    }
    let scaled = fx_mul(d, obj.transform.scale);
    clamp64(scaled, -DIST_MAX, DIST_MAX)
}

impl Object {
    /// The node's distance at a scene point: the point runs through the
    /// node's transform and distortions, its evaluator, and the metric
    /// correction by the node's uniform scale.
    pub fn get_distance(&self, arena: &Vec<Object>, point: Vec2) -> (d: i64)
        requires
            arena_wf(arena@),
            obj_wf(*self),
            obj_refs_ok(*self, arena@.len() as int),
            point.bounded(COORD_MAX as int),
        ensures
            d == obj_dist_spec(arena@, *self, point),
            -DIST_MAX <= d <= DIST_MAX,
    {
        let lp = local_point(self, point);
        let d = match &self.sdf {
            SDF::Circle(c) => c.get_distance(arena, lp),
            SDF::Square(sq) => sq.get_distance(arena, lp),
            SDF::Text(t) => t.get_distance(arena, lp),
            SDF::OpSmoothUnion(u) => {
                let d1 = eval_at(arena, u.sdf_1, lp);
                let d2 = eval_at(arena, u.sdf_2, lp);
                smooth_union(d1, d2, u.fuzz)
            },
        };
        proof {
            lemma_mul_bounds(
                d as int,
                self.transform.scale as int,
                DIST_MAX + COORD_MAX as int,
                0x10_0000,
            );
        }
        let scaled = fx_mul(d, self.transform.scale);
        clamp64(scaled, -DIST_MAX, DIST_MAX)
    }
}

/// In the blend band the smooth union dips below the plain minimum by at
/// most a quarter of the fuzz (plus rounding that scales with the fuzz in
/// whole units), and never rises above it by more than that rounding.
proof fn lemma_smooth_union_band(d1: int, d2: int, fuzz: int)
    requires
        1 <= fuzz <= COORD_MAX,
        -DIST_MAX <= d1 <= DIST_MAX,
        -DIST_MAX <= d2 <= DIST_MAX,
        sabs(d2 - d1) < fuzz,
    ensures
        smooth_union_spec(d1, d2, fuzz) <= smin(d1, d2) + fuzz / (ONE as int) + 2,
        smooth_union_spec(d1, d2, fuzz) >= smin(d1, d2) - fuzz / 4 - fuzz / (ONE as int) - 2,
{
    let n = ONE as int;
    let f = fuzz;
    let g = d2 - d1;
    let q0 = (g * n) / (2 * f);
    vstd::arithmetic::div_mod::lemma_fundamental_div_mod(g * n, 2 * f);
    vstd::arithmetic::div_mod::lemma_mod_division_less_than_divisor(g * n, 2 * f);
    let r0 = (g * n) % (2 * f);
    // The pre-clamp blend factor already lies in [0, n].
    assert((-f) * n <= g * n <= f * n) by (nonlinear_arith)
        requires
            -f < g < f,
            n > 0,
    ;
    assert((-f) * 65536 == (2 * f) * (-32768)) by (nonlinear_arith);
    assert(f * 65536 == (2 * f) * 32768) by (nonlinear_arith);
    lemma_div_is_ordered((-f) * n, g * n, 2 * f);
    lemma_div_is_ordered(g * n, f * n, 2 * f);
    lemma_div_multiples_vanish(-HALF as int, 2 * f);
    lemma_div_multiples_vanish(HALF as int, 2 * f);
    let h = HALF + q0;
    assert(0 <= h <= n);
    assert(smooth_union_spec(d1, d2, fuzz) == lerp_spec(d2, d1, h) - smul(smul(f, h), n - h));
    // Materialize every flooring division as an exact equation.
    let lv = d2 * (n - h) + d1 * h;
    assert(lv == d2 * n - h * g) by (nonlinear_arith)
        requires
            g == d2 - d1,
            lv == d2 * (n - h) + d1 * h,
    ;
    let ll = lv / n;
    vstd::arithmetic::div_mod::lemma_fundamental_div_mod(lv, n);
    vstd::arithmetic::div_mod::lemma_mod_division_less_than_divisor(lv, n);
    let rl = lv % n;
    assert(lerp_spec(d2, d1, h) == ll);
    let c1 = (f * h) / n;
    vstd::arithmetic::div_mod::lemma_fundamental_div_mod(f * h, n);
    vstd::arithmetic::div_mod::lemma_mod_division_less_than_divisor(f * h, n);
    let rc1 = (f * h) % n;
    let cc = (c1 * (n - h)) / n;
    vstd::arithmetic::div_mod::lemma_fundamental_div_mod(c1 * (n - h), n);
    vstd::arithmetic::div_mod::lemma_mod_division_less_than_divisor(c1 * (n - h), n);
    let rc2 = (c1 * (n - h)) % n;
    assert(smul(f, h) == c1);
    assert(smul(c1, n - h) == cc);
    let fd = f / n;
    vstd::arithmetic::div_mod::lemma_fundamental_div_mod(f, n);
    vstd::arithmetic::div_mod::lemma_mod_division_less_than_divisor(f, n);
    let rf = f % n;
    let f4 = f / 4;
    vstd::arithmetic::div_mod::lemma_fundamental_div_mod(f, 4);
    vstd::arithmetic::div_mod::lemma_mod_division_less_than_divisor(f, 4);
    let r4 = f % 4;
    if g >= 0 {
        assert(ll - cc <= d1 + fd + 2) by (nonlinear_arith)
            requires
                n == 65536,
                HALF == 32768,
                h == HALF + q0,
                1 <= f,
                0 <= g < f,
                g == d2 - d1,
                0 <= h <= n,
                (2 * f) * q0 + r0 == g * n,
                0 <= r0 < 2 * f,
                n * ll + rl == d2 * n - h * g,
                0 <= rl < n,
                n * c1 + rc1 == f * h,
                0 <= rc1 < n,
                n * cc + rc2 == c1 * (n - h),
                0 <= rc2 < n,
                n * fd + rf == f,
                0 <= rf < n,
        ;
        assert(ll - cc >= d1 - f4 - fd - 2) by (nonlinear_arith)
            requires
                n == 65536,
                HALF == 32768,
                h == HALF + q0,
                1 <= f,
                0 <= g < f,
                g == d2 - d1,
                0 <= h <= n,
                (2 * f) * q0 + r0 == g * n,
                0 <= r0 < 2 * f,
                n * ll + rl == d2 * n - h * g,
                0 <= rl < n,
                n * c1 + rc1 == f * h,
                0 <= rc1 < n,
                n * cc + rc2 == c1 * (n - h),
                0 <= rc2 < n,
                n * fd + rf == f,
                0 <= rf < n,
                4 * f4 + r4 == f,
                0 <= r4 < 4,
        ;
    } else {
        assert(ll - cc <= d2 + fd + 2) by (nonlinear_arith)
            requires
                n == 65536,
                HALF == 32768,
                h == HALF + q0,
                1 <= f,
                -f < g < 0,
                g == d2 - d1,
                0 <= h <= n,
                (2 * f) * q0 + r0 == g * n,
                0 <= r0 < 2 * f,
                n * ll + rl == d2 * n - h * g,
                0 <= rl < n,
                n * c1 + rc1 == f * h,
                0 <= rc1 < n,
                n * cc + rc2 == c1 * (n - h),
                0 <= rc2 < n,
                n * fd + rf == f,
                0 <= rf < n,
        ;
        assert(ll - cc >= d2 - f4 - fd - 2) by (nonlinear_arith)
            requires
                n == 65536,
                HALF == 32768,
                h == HALF + q0,
                1 <= f,
                -f < g < 0,
                g == d2 - d1,
                0 <= h <= n,
                (2 * f) * q0 + r0 == g * n,
                0 <= r0 < 2 * f,
                n * ll + rl == d2 * n - h * g,
                0 <= rl < n,
                n * c1 + rc1 == f * h,
                0 <= rc1 < n,
                n * cc + rc2 == c1 * (n - h),
                0 <= rc2 < n,
                n * fd + rf == f,
                0 <= rf < n,
                4 * f4 + r4 == f,
                0 <= r4 < 4,
        ;
    }
}

/// Law: the smooth union coincides with the plain minimum of its operands
/// as soon as their gap reaches the fuzz radius — so it converges to the
/// minimum as the fuzz shrinks. Inside the blend band it dips below the
/// minimum by at most a quarter of the fuzz, and it never rises above the
/// minimum — each up to a rounding slack of one part of the fuzz per unit
/// and two fixed-point steps.
pub proof fn lemma_smooth_union_min(d1: int, d2: int, fuzz: int)
    requires
        1 <= fuzz <= COORD_MAX,
        -DIST_MAX <= d1 <= DIST_MAX,
        -DIST_MAX <= d2 <= DIST_MAX,
    ensures
        sabs(d2 - d1) >= fuzz ==> smooth_union_spec(d1, d2, fuzz) == smin(d1, d2),
        sabs(smooth_union_spec(d1, d2, fuzz) - smin(d1, d2)) <= fuzz,
        smooth_union_spec(d1, d2, fuzz) <= smin(d1, d2) + fuzz / (ONE as int) + 2,
        smooth_union_spec(d1, d2, fuzz) >= smin(d1, d2) - fuzz / 4 - fuzz / (ONE as int) - 2,
{
    vstd::arithmetic::div_mod::lemma_div_pos_is_pos(fuzz, ONE as int);
    vstd::arithmetic::div_mod::lemma_div_pos_is_pos(fuzz, 4);
    if sabs(d2 - d1) < fuzz {
        lemma_smooth_union_band(d1, d2, fuzz);
    }
    let n = ONE as int;
    let pre = HALF + sdiv((d2 - d1) * n, 2 * fuzz);
    let h = sclamp(pre, 0, n);
    if d2 - d1 >= fuzz {
        lemma_mul_inequality(fuzz, d2 - d1, n);
        lemma_div_is_ordered(fuzz * n, (d2 - d1) * n, 2 * fuzz);
        assert(fuzz * 65536 == (2 * fuzz) * 32768) by (nonlinear_arith);
        lemma_div_multiples_vanish(HALF as int, 2 * fuzz);
        assert(h == n);
        // The interpolation collapses to d1 and the correction to 0.
        assert(d2 * (n - n) == 0) by (nonlinear_arith);
        lemma_div_multiples_vanish(d1, n);
        assert(d1 * n == n * d1) by (nonlinear_arith);
        assert(lerp_spec(d2, d1, h) == d1);
        lemma_div_multiples_vanish(fuzz, n);
        assert(fuzz * n == n * fuzz) by (nonlinear_arith);
        assert(smul(fuzz, h) == fuzz);
        assert(fuzz * (n - n) == 0) by (nonlinear_arith);
        lemma_div_of0(n);
        assert(smul(fuzz, n - h) == 0);
        assert(smul(smul(fuzz, h), n - h) == 0);
        assert(smooth_union_spec(d1, d2, fuzz) == d1);
        assert(smin(d1, d2) == d1);
    } else if d1 - d2 >= fuzz {
        lemma_mul_inequality(d2 - d1, -fuzz, n);
        lemma_div_is_ordered((d2 - d1) * n, (-fuzz) * n, 2 * fuzz);
        assert((-fuzz) * 65536 == (2 * fuzz) * (-32768)) by (nonlinear_arith);
        lemma_div_multiples_vanish(-HALF as int, 2 * fuzz);
        assert(h == 0);
        assert(d1 * 0 == 0) by (nonlinear_arith);
        lemma_div_multiples_vanish(d2, n);
        assert(d2 * n == n * d2) by (nonlinear_arith);
        assert(lerp_spec(d2, d1, h) == d2);
        assert(fuzz * 0 == 0) by (nonlinear_arith);
        lemma_div_of0(n);
        assert(smul(fuzz, 0) == 0);
        assert(0 * (n - 0) == 0) by (nonlinear_arith);
        assert(smul(smul(fuzz, h), n - h) == 0);
        assert(smooth_union_spec(d1, d2, fuzz) == d2);
        assert(smin(d1, d2) == d2);
    } else {
        // Inside the blend band the result stays within one fuzz radius of
        // the minimum: the interpolation lies between the operands and the
        // correction lies in [0, fuzz].
        lemma_lerp_bounds(d2, d1, h);
        lemma_mul_bounds(fuzz, h, COORD_MAX as int, n);
        lemma_smul_unit(fuzz, h, COORD_MAX as int);
        let c1 = smul(fuzz, h);
        lemma_mul_bounds(c1, n - h, COORD_MAX as int, n);
        lemma_smul_unit(c1, n - h, COORD_MAX as int);
        assert(0 <= smul(c1, n - h) <= c1);
        assert(0 <= c1 <= fuzz);
        assert(smax(d1, d2) - smin(d1, d2) < fuzz);
    }
}

} // verus!
