//! Premultiplied-alpha colors in fixed point.
//!
//! Channels live in `[0, ONE]`; the red, green and blue channels are stored
//! already multiplied by alpha, so back-to-front compositing is a single
//! multiply-add per channel ([`mix_spec`]).

use vstd::prelude::*;
use vstd::arithmetic::div_mod::{lemma_div_is_ordered, lemma_div_multiples_vanish, lemma_div_of0};
use vstd::arithmetic::mul::lemma_mul_inequality;

use crate::fx::{clamp64, div_floor, fx_mul, lemma_mul_bounds, lemma_smul_unit, sclamp, smul, ONE};
use crate::fx::DIST_MAX;
use crate::utils::{smoothstep, smoothstep_spec};

verus! {

/// A premultiplied RGBA color; every channel is a fixed-point scalar.
#[derive(Clone, Copy, Debug, PartialEq, Eq, Structural)]
pub struct Color {
    pub r: i64,
    pub g: i64,
    pub b: i64,
    pub a: i64,
}

impl Color {
    /// Every channel lies in the unit interval.
    pub open spec fn in_range(self) -> bool {
        &&& 0 <= self.r <= ONE
        &&& 0 <= self.g <= ONE
        &&& 0 <= self.b <= ONE
        &&& 0 <= self.a <= ONE
    }

    /// The construction invariant: channels in range and premultiplied,
    /// so no color channel ever exceeds the alpha.
    pub open spec fn wf(self) -> bool {
        &&& self.in_range()
        &&& self.r <= self.a
        &&& self.g <= self.a
        &&& self.b <= self.a
    }
}

/// The fully transparent color.
pub open spec fn transparent_spec() -> Color {
    Color { r: 0, g: 0, b: 0, a: 0 }
}

/// What `Color::new` builds: each channel clamped to the unit interval and
/// premultiplied by the clamped alpha.
pub open spec fn new_spec(r: int, g: int, b: int, a: int) -> Color {
    let ac = sclamp(a, 0, ONE as int);
    Color {
        r: smul(sclamp(r, 0, ONE as int), ac) as i64,
        g: smul(sclamp(g, 0, ONE as int), ac) as i64,
        b: smul(sclamp(b, 0, ONE as int), ac) as i64,
        a: ac as i64,
    }
}

/// All four channels scaled by a unit-interval coverage factor.
pub open spec fn scale_spec(front: Color, t: int) -> Color {
    Color {
        r: smul(front.r as int, t) as i64,
        g: smul(front.g as int, t) as i64,
        b: smul(front.b as int, t) as i64,
        a: smul(front.a as int, t) as i64,
    }
}

/// Back-to-front premultiplied compositing: each back channel attenuated by
/// the front's remaining transparency, plus the front channel; the alpha is
/// the clamped sum.
pub open spec fn mix_spec(back: Color, front: Color) -> Color {
    Color {
        r: ((back.r * (ONE - front.a)) / (ONE as int) + front.r) as i64,
        g: ((back.g * (ONE - front.a)) / (ONE as int) + front.g) as i64,
        b: ((back.b * (ONE - front.a)) / (ONE as int) + front.b) as i64,
        a: sclamp(back.a + front.a, 0, ONE as int) as i64,
    }
}

/// Coverage-weighted compositing: the front color scaled by `t`, then mixed.
pub open spec fn blend_spec(back: Color, front: Color, t: int) -> Color {
    mix_spec(back, scale_spec(front, t))
}

/// One scaled channel, attenuated and offset, stays premultiplied.
proof fn lemma_mix_channel(ch: int, al: int, fch: int, fal: int)
    requires
        0 <= ch <= al <= ONE,
        0 <= fch <= fal <= ONE,
    ensures
        0 <= (ch * (ONE - fal)) / (ONE as int) + fch,
        (ch * (ONE - fal)) / (ONE as int) + fch <= sclamp(al + fal, 0, ONE as int),
{
    let n = ONE as int;
    lemma_mul_inequality(ch, al, n - fal);
    lemma_div_is_ordered(ch * (n - fal), al * (n - fal), n);
    lemma_mul_bounds(ch, n - fal, n, n);
    lemma_div_is_ordered(0, ch * (n - fal), n);
    lemma_smul_unit(al, n - fal, n);
    if al + fal > n {
        lemma_mul_inequality(al, n, n - fal);
        lemma_div_is_ordered(al * (n - fal), n * (n - fal), n);
        lemma_div_multiples_vanish(n - fal, n);
    }
}

impl Color {
    /// Build a color from raw channels: everything is clamped into the unit
    /// interval and the color channels are premultiplied by alpha.
    pub fn new(r: i64, g: i64, b: i64, a: i64) -> (c: Color)
        ensures
            c == new_spec(r as int, g as int, b as int, a as int),
            c.wf(),
    {
        let ac = clamp64(a, 0, ONE);
        let rc = clamp64(r, 0, ONE);
        let gc = clamp64(g, 0, ONE);
        let bc = clamp64(b, 0, ONE);
        proof {
            lemma_mul_bounds(rc as int, ac as int, ONE as int, ONE as int);
            lemma_mul_bounds(gc as int, ac as int, ONE as int, ONE as int);
            lemma_mul_bounds(bc as int, ac as int, ONE as int, ONE as int);
            assert((rc as int) * (ac as int) == (ac as int) * (rc as int)) by (nonlinear_arith);
            assert((gc as int) * (ac as int) == (ac as int) * (gc as int)) by (nonlinear_arith);
            assert((bc as int) * (ac as int) == (ac as int) * (bc as int)) by (nonlinear_arith);
            lemma_smul_unit(ac as int, rc as int, ONE as int);
            lemma_smul_unit(ac as int, gc as int, ONE as int);
            lemma_smul_unit(ac as int, bc as int, ONE as int);
        }
        Color { r: fx_mul(rc, ac), g: fx_mul(gc, ac), b: fx_mul(bc, ac), a: ac }
    }

    /// Composite `front` over `self`.
    ///
    /// Law: the result's alpha is exactly the clamped sum of the two alphas.
    pub fn mix(&self, front: &Color) -> (c: Color)
        requires
            self.wf(),
            front.wf(),
        ensures
            c == mix_spec(*self, *front),
            c.wf(),
            c.a == sclamp(self.a + front.a, 0, ONE as int),
    {
        let k = ONE - front.a;
        proof {
            lemma_mul_bounds(self.r as int, k as int, ONE as int, ONE as int);
            lemma_mul_bounds(self.g as int, k as int, ONE as int, ONE as int);
            lemma_mul_bounds(self.b as int, k as int, ONE as int, ONE as int);
            lemma_mix_channel(self.r as int, self.a as int, front.r as int, front.a as int);
            lemma_mix_channel(self.g as int, self.a as int, front.g as int, front.a as int);
            lemma_mix_channel(self.b as int, self.a as int, front.b as int, front.a as int);
        }
        Color {
            r: fx_mul(self.r, k) + front.r,
            g: fx_mul(self.g, k) + front.g,
            b: fx_mul(self.b, k) + front.b,
            a: clamp64(self.a + front.a, 0, ONE),
        }
    }

    /// Composite `front` over `self` at partial coverage `t`: the front's
    /// premultiplied channels are scaled by `t` first, which keeps the
    /// compositing correct — this is not a channel-wise interpolation.
    pub fn blend(&self, front: &Color, t: i64) -> (c: Color)
        requires
            self.wf(),
            front.wf(),
            0 <= t <= ONE,
        ensures
            c == blend_spec(*self, *front, t as int),
            c.wf(),
    {
        proof {
            lemma_mul_bounds(front.r as int, t as int, ONE as int, ONE as int);
            lemma_mul_bounds(front.g as int, t as int, ONE as int, ONE as int);
            lemma_mul_bounds(front.b as int, t as int, ONE as int, ONE as int);
            lemma_mul_bounds(front.a as int, t as int, ONE as int, ONE as int);
            lemma_smul_unit(front.r as int, t as int, ONE as int);
            lemma_smul_unit(front.g as int, t as int, ONE as int);
            lemma_smul_unit(front.b as int, t as int, ONE as int);
            lemma_smul_unit(front.a as int, t as int, ONE as int);
            lemma_mul_inequality(front.r as int, front.a as int, t as int);
            lemma_mul_inequality(front.g as int, front.a as int, t as int);
            lemma_mul_inequality(front.b as int, front.a as int, t as int);
            lemma_div_is_ordered((front.r as int) * (t as int), (front.a as int) * (t as int),
                ONE as int);
            lemma_div_is_ordered((front.g as int) * (t as int), (front.a as int) * (t as int),
                ONE as int);
            lemma_div_is_ordered((front.b as int) * (t as int), (front.a as int) * (t as int),
                ONE as int);
        }
        let scaled = Color {
            r: fx_mul(front.r, t),
            g: fx_mul(front.g, t),
            b: fx_mul(front.b, t),
            a: fx_mul(front.a, t),
        };
        self.mix(&scaled)
    }

    /// Channel-wise smoothstep between two colors.
    pub fn mix_smooth(&self, color: Color, t: i64) -> (c: Color)
        requires
            self.in_range(),
            color.in_range(),
            -DIST_MAX <= t <= DIST_MAX,
        ensures
            c.r == smoothstep_spec(self.r as int, color.r as int, t as int),
            c.g == smoothstep_spec(self.g as int, color.g as int, t as int),
            c.b == smoothstep_spec(self.b as int, color.b as int, t as int),
            c.a == smoothstep_spec(self.a as int, color.a as int, t as int),
            c.in_range(),
    {
        Color {
            r: smoothstep(self.r, color.r, t),
            g: smoothstep(self.g, color.g, t),
            b: smoothstep(self.b, color.b, t),
            a: smoothstep(self.a, color.a, t),
        }
    }

    /// The color as 8-bit RGBA bytes with an opaque alpha.
    pub fn to_array(&self) -> (out: [u8; 4])
        requires
            self.in_range(),
        ensures
            out@ == to_array_spec(*self),
    {
        proof {
            lemma_to_byte(self.r as int);
            lemma_to_byte(self.g as int);
            lemma_to_byte(self.b as int);
        }
        let r = div_floor(self.r * 255, ONE) as u8;
        let g = div_floor(self.g * 255, ONE) as u8;
        let b = div_floor(self.b * 255, ONE) as u8;
        let out = [r, g, b, 0xFFu8];
        proof {
            assert(out@ =~= to_array_spec(*self));
        }
        out
    }
}

/// The byte value of a unit-interval channel.
pub open spec fn channel_byte(ch: int) -> int {
    (ch * 255) / (ONE as int)
}

/// What `Color::to_array` yields: 8-bit RGB plus an opaque alpha byte.
pub open spec fn to_array_spec(c: Color) -> Seq<u8> {
    seq![
        channel_byte(c.r as int) as u8,
        channel_byte(c.g as int) as u8,
        channel_byte(c.b as int) as u8,
        255u8,
    ]
}

/// A unit-interval channel maps into a single byte.
proof fn lemma_to_byte(ch: int)
    requires
        0 <= ch <= ONE,
    ensures
        0 <= channel_byte(ch) <= 255,
{
    let n = ONE as int;
    lemma_mul_inequality(ch, n, 255);
    lemma_div_is_ordered(0, ch * 255, n);
    lemma_div_is_ordered(ch * 255, n * 255, n);
    lemma_div_multiples_vanish(255, n);
}

/// Law: mixing a fully transparent front color leaves the back unchanged.
pub proof fn lemma_mix_transparent_front(back: Color)
    requires
        back.in_range(),
    ensures
        mix_spec(back, transparent_spec()) == back,
{
    let n = ONE as int;
    lemma_div_multiples_vanish(back.r as int, n);
    lemma_div_multiples_vanish(back.g as int, n);
    lemma_div_multiples_vanish(back.b as int, n);
    assert((back.r as int) * n == n * (back.r as int)) by (nonlinear_arith);
    assert((back.g as int) * n == n * (back.g as int)) by (nonlinear_arith);
    assert((back.b as int) * n == n * (back.b as int)) by (nonlinear_arith);
}

/// Law: mixing a fully opaque front color yields exactly the front.
pub proof fn lemma_mix_opaque_front(back: Color, front: Color)
    requires
        back.a >= 0,
        front.a == ONE,
    ensures
        mix_spec(back, front) == front,
{
    let n = ONE as int;
    assert((back.r as int) * 0 == 0) by (nonlinear_arith);
    assert((back.g as int) * 0 == 0) by (nonlinear_arith);
    assert((back.b as int) * 0 == 0) by (nonlinear_arith);
    lemma_div_of0(n);
}

} // verus!
