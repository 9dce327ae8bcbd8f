//! Node transforms: translation, rotation in fixed-point degrees, and a
//! uniform scale, with the point mapping into a node's local space.

use vstd::prelude::*;
use vstd::arithmetic::div_mod::lemma_div_is_ordered;

use crate::fx::{
    clamp64, cos_deg, cos_deg_spec, div_floor, fx_mul, lemma_div_range, lemma_mul_bounds, sclamp,
    sdiv, sin_deg, sin_deg_spec, smul, COORD_MAX, ONE, ROT_MAX, SCALE_MAX,
};
use crate::vec2::Vec2;

verus! {

/// Translation, rotation (fixed-point degrees) and uniform scale.
#[derive(Clone, Copy, Debug, PartialEq, Eq, Structural)]
pub struct Transform {
    pub x: i64,
    pub y: i64,
    pub rotation: i64,
    pub scale: i64,
}

/// The identity transform.
pub open spec fn identity_spec() -> Transform {
    Transform { x: 0, y: 0, rotation: 0, scale: ONE }
}

/// Accumulating a transform onto another: translations and rotations add,
/// scales multiply.
pub open spec fn apply_spec(acc: Transform, t: Transform) -> Transform {
    Transform {
        x: (acc.x + t.x) as i64,
        y: (acc.y + t.y) as i64,
        rotation: (acc.rotation + t.rotation) as i64,
        scale: smul(acc.scale as int, t.scale as int) as i64,
    }
}

/// Mapping a point into the transform's local frame: translate by the
/// negated translation, rotate by the negated rotation (so that evaluation
/// happens in the node's un-rotated frame), then divide by the scale; the
/// result is clamped into the evaluators' coordinate range.
pub open spec fn map_spec(t: Transform, p: Vec2) -> Vec2 {
    let n = ONE as int;
    let tx = p.x - t.x;
    let ty = p.y - t.y;
    let c = cos_deg_spec(t.rotation as int);
    let s = sin_deg_spec(t.rotation as int);
    let rx = (c * tx + s * ty) / n;
    let ry = (c * ty - s * tx) / n;
    Vec2 {
        x: sclamp(sdiv(rx * n, t.scale as int), -COORD_MAX as int, COORD_MAX as int) as i64,
        y: sclamp(sdiv(ry * n, t.scale as int), -COORD_MAX as int, COORD_MAX as int) as i64,
    }
}

impl Transform {
    /// Translation within the coordinate range, a strictly positive bounded
    /// scale, and a bounded rotation.
    pub open spec fn wf(self) -> bool {
        &&& -COORD_MAX <= self.x <= COORD_MAX
        &&& -COORD_MAX <= self.y <= COORD_MAX
        &&& -ROT_MAX <= self.rotation <= ROT_MAX
        &&& 1 <= self.scale <= SCALE_MAX
    }

    /// The identity transform.
    pub fn new() -> (t: Transform)
        ensures
            t == identity_spec(),
            t.wf(),
    {
        Transform { x: 0, y: 0, rotation: 0, scale: ONE }
    }

    /// Accumulate another transform onto this one, as when walking an
    /// ancestor chain; the caller guarantees the composition stays in range.
    pub fn apply(&mut self, transform: Transform)
        requires
            old(self).wf(),
            transform.wf(),
            -COORD_MAX <= old(self).x + transform.x <= COORD_MAX,
            -COORD_MAX <= old(self).y + transform.y <= COORD_MAX,
            -ROT_MAX <= old(self).rotation + transform.rotation <= ROT_MAX,
            1 <= smul(old(self).scale as int, transform.scale as int) <= SCALE_MAX,
        ensures
            *final(self) == apply_spec(*old(self), transform),
            final(self).wf(),
    {
        proof {
            lemma_mul_bounds(
                self.scale as int,
                transform.scale as int,
                SCALE_MAX as int,
                SCALE_MAX as int,
            );
        }
        self.x = self.x + transform.x;
        self.y = self.y + transform.y;
        self.rotation = self.rotation + transform.rotation;
        self.scale = fx_mul(self.scale, transform.scale);
    }

    /// Map a point into this transform's local frame.
    pub fn map(&self, point: Vec2) -> (p: Vec2)
        requires
            self.wf(),
            point.bounded(COORD_MAX as int),
        ensures
            p == map_spec(*self, point),
            p.bounded(COORD_MAX as int),
    {
        let tx = point.x - self.x;
        let ty = point.y - self.y;
        let c = cos_deg(self.rotation);
        let s = sin_deg(self.rotation);
        proof {
            lemma_mul_bounds(c as int, tx as int, ONE as int, 2 * COORD_MAX as int);
            lemma_mul_bounds(s as int, ty as int, ONE as int, 2 * COORD_MAX as int);
            lemma_mul_bounds(s as int, tx as int, ONE as int, 2 * COORD_MAX as int);
            lemma_mul_bounds(c as int, ty as int, ONE as int, 2 * COORD_MAX as int);
        }
        let rxn = c * tx + s * ty;
        let ryn = c * ty - s * tx;
        proof {
            lemma_div_is_ordered(rxn as int, 0x1_0000_0000_0000, ONE as int);
            lemma_div_is_ordered(-0x1_0000_0000_0000, rxn as int, ONE as int);
            lemma_div_is_ordered(ryn as int, 0x1_0000_0000_0000, ONE as int);
            lemma_div_is_ordered(-0x1_0000_0000_0000, ryn as int, ONE as int);
        }
        let rx = div_floor(rxn, ONE);
        let ry = div_floor(ryn, ONE);
        proof {
            lemma_mul_bounds(rx as int, ONE as int, 0x1_0000_0000, ONE as int);
            lemma_mul_bounds(ry as int, ONE as int, 0x1_0000_0000, ONE as int);
            lemma_div_range(rx as int * ONE, self.scale as int, 0x1_0000_0000_0000);
            lemma_div_range(ry as int * ONE, self.scale as int, 0x1_0000_0000_0000);
        }
        let dx = div_floor(rx * ONE, self.scale);
        let dy = div_floor(ry * ONE, self.scale);
        Vec2 { x: clamp64(dx, -COORD_MAX, COORD_MAX), y: clamp64(dy, -COORD_MAX, COORD_MAX) }
    }
}

} // verus!
