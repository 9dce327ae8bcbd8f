//! Point-space warps applied after a node's transform and before its
//! distance evaluator.

use vstd::prelude::*;

use crate::fx::{
    clamp64, div_floor, fx_mul, lemma_div_shrinks, lemma_mul_bounds, lemma_smul_bound, sclamp,
    sdiv, sin_rad, sin_rad_spec, smul, COORD_MAX, ONE,
};
use crate::vec2::Vec2;

verus! {

/// Largest admissible wave frequency.
pub const FREQ_MAX: i64 = 0x400_0000;

/// Largest admissible wave time parameter.
pub const TIME_MAX: i64 = 0x4000_0000;

/// A periodic wave warp: each coordinate is offset by a sine of the other
/// coordinate (normalized by the field size), the time and a frequency.
#[derive(Clone, Copy, Debug, PartialEq, Eq, Structural)]
pub struct Wave {
    pub width: i64,
    pub height: i64,
    pub x_amplitude: i64,
    pub x_freq: i64,
    pub y_amplitude: i64,
    pub y_freq: i64,
    pub time: i64,
}

/// The sine argument for the x offset of a wave.
pub open spec fn wave_arg_x(w: Wave, p: Vec2) -> int {
    w.time + smul(sdiv(p.y * (ONE as int), w.height as int), w.x_freq as int)
}

/// The sine argument for the y offset of a wave.
pub open spec fn wave_arg_y(w: Wave, p: Vec2) -> int {
    w.time + smul(sdiv(p.x * (ONE as int), w.width as int), w.y_freq as int)
}

/// What `Wave::map` yields: each coordinate offset by its scaled sine, then
/// clamped back into the coordinate range.
pub open spec fn wave_map_spec(w: Wave, p: Vec2) -> Vec2 {
    let m = COORD_MAX as int;
    Vec2 {
        x: sclamp(p.x + smul(sin_rad_spec(wave_arg_x(w, p)), w.x_amplitude as int), -m, m) as i64,
        y: sclamp(p.y + smul(sin_rad_spec(wave_arg_y(w, p)), w.y_amplitude as int), -m, m) as i64,
    }
}

impl Wave {
    /// Field sizes of at least one unit and bounded parameters.
    pub open spec fn wf(self) -> bool {
        &&& ONE <= self.width <= COORD_MAX
        &&& ONE <= self.height <= COORD_MAX
        &&& -COORD_MAX <= self.x_amplitude <= COORD_MAX
        &&& -COORD_MAX <= self.y_amplitude <= COORD_MAX
        &&& -FREQ_MAX <= self.x_freq <= FREQ_MAX
        &&& -FREQ_MAX <= self.y_freq <= FREQ_MAX
        &&& -TIME_MAX <= self.time <= TIME_MAX
    }

    /// Warp a point.
    pub fn map(&self, point: Vec2) -> (p: Vec2)
        requires
            self.wf(),
            point.bounded(COORD_MAX as int),
        ensures
            p == wave_map_spec(*self, point),
            p.bounded(COORD_MAX as int),
    {
        proof {
            lemma_mul_bounds(point.y as int, ONE as int, COORD_MAX as int, ONE as int);
            lemma_mul_bounds(point.x as int, ONE as int, COORD_MAX as int, ONE as int);
        }
        let qy = div_floor(point.y * ONE, self.height);
        let qx = div_floor(point.x * ONE, self.width);
        proof {
            lemma_div_shrinks(point.y as int * ONE, self.height as int, COORD_MAX as int);
            lemma_div_shrinks(point.x as int * ONE, self.width as int, COORD_MAX as int);
            assert((COORD_MAX as int) * (FREQ_MAX as int) == 0x100_0000_0000 * (ONE as int))
                by (nonlinear_arith);
            lemma_smul_bound(
                qy as int,
                self.x_freq as int,
                COORD_MAX as int,
                FREQ_MAX as int,
                0x100_0000_0000,
            );
            lemma_smul_bound(
                qx as int,
                self.y_freq as int,
                COORD_MAX as int,
                FREQ_MAX as int,
                0x100_0000_0000,
            );
            lemma_mul_bounds(qy as int, self.x_freq as int, COORD_MAX as int, FREQ_MAX as int);
            lemma_mul_bounds(qx as int, self.y_freq as int, COORD_MAX as int, FREQ_MAX as int);
        }
        let ax = self.time + fx_mul(qy, self.x_freq);
        let ay = self.time + fx_mul(qx, self.y_freq);
        let sx = sin_rad(ax);
        let sy = sin_rad(ay);
        proof {
            assert((ONE as int) * (COORD_MAX as int) == (COORD_MAX as int) * (ONE as int))
                by (nonlinear_arith);
            lemma_mul_bounds(sx as int, self.x_amplitude as int, ONE as int, COORD_MAX as int);
            lemma_mul_bounds(sy as int, self.y_amplitude as int, ONE as int, COORD_MAX as int);
            lemma_smul_bound(
                sx as int,
                self.x_amplitude as int,
                ONE as int,
                COORD_MAX as int,
                COORD_MAX as int,
            );
            lemma_smul_bound(
                sy as int,
                self.y_amplitude as int,
                ONE as int,
                COORD_MAX as int,
                COORD_MAX as int,
            );
        }
        let ox = fx_mul(sx, self.x_amplitude);
        let oy = fx_mul(sy, self.y_amplitude);
        Vec2 {
            x: clamp64(point.x + ox, -COORD_MAX, COORD_MAX),
            y: clamp64(point.y + oy, -COORD_MAX, COORD_MAX),
        }
    }
}

/// The closed set of point distortions.
#[derive(Clone, Copy, Debug, PartialEq, Eq, Structural)]
pub enum Distorsion {
    Wave(Wave),
}

/// What a distortion does to a point.
pub open spec fn distorsion_map_spec(d: Distorsion, p: Vec2) -> Vec2 {
    match d {
        Distorsion::Wave(w) => wave_map_spec(w, p),
    }
}

impl Distorsion {
    /// The contained warp is well-formed.
    pub open spec fn wf(self) -> bool {
        match self {
            Distorsion::Wave(w) => w.wf(),
        }
    }

    /// Warp a point.
    pub fn map(&self, point: Vec2) -> (p: Vec2)
        requires
            self.wf(),
            point.bounded(COORD_MAX as int),
        ensures
            p == distorsion_map_spec(*self, point),
            p.bounded(COORD_MAX as int),
    {
        match self {
            Distorsion::Wave(w) => w.map(point),
        }
    }
}

} // verus!
