//! The distance-to-color zone model: an optional inside fill, an optional
//! border with a position policy, and an optional outside fill, separated
//! by fixed-width antialiasing bands.

use vstd::prelude::*;
use vstd::arithmetic::div_mod::{lemma_div_is_ordered, lemma_div_multiples_vanish, lemma_div_of0};

use crate::color::{blend_spec, mix_spec, scale_spec, transparent_spec, Color};
use crate::fx::{abs64, div_floor, lemma_mul_bounds, sabs, sdiv, COORD_MAX, DIST_MAX, ONE};

verus! {

/// The fixed antialiasing band width, in distance units.
pub const FUZZ: i64 = 2 * 65536;

/// How a zone is painted. The set is open to gradient variants; today a
/// fill is a single solid color.
#[derive(Clone, Copy, Debug, PartialEq, Eq, Structural)]
pub enum Fill {
    Solid(Color),
}

/// Where a border sits relative to the shape boundary.
#[derive(Clone, Copy, Debug, PartialEq, Eq, Structural)]
pub enum BorderPosition {
    Inside,
    Center,
    Outside,
}

/// A border: its position policy, its width and its color.
#[derive(Clone, Copy, Debug, PartialEq, Eq, Structural)]
pub struct Border {
    pub position: BorderPosition,
    pub size: i64,
    pub color: Color,
}

/// A layer's zone colors: optional inside fill, optional border, optional
/// outside fill; absent parts default to fully transparent.
#[derive(Clone, Copy, Debug, PartialEq, Eq, Structural)]
pub struct LayerColor {
    pub inside: Option<Fill>,
    pub border: Option<Border>,
    pub outside: Option<Fill>,
}

/// The color a fill paints at a distance.
pub open spec fn fill_color_spec(f: Fill, distance: int) -> Color {
    match f {
        Fill::Solid(c) => c,
    }
}

impl Fill {
    /// Every color the fill can paint is well-formed.
    pub open spec fn wf(self) -> bool {
        match self {
            Fill::Solid(c) => c.wf(),
        }
    }

    /// The fill's color at a distance.
    pub fn get_color(&self, distance: i64) -> (c: Color)
        ensures
            c == fill_color_spec(*self, distance as int),
    {
        match self {
            Fill::Solid(color) => *color,
        }
    }
}

/// The distance at which the outside zone begins: the border width outside
/// the boundary for an outside border, half of it for a centered one,
/// nothing for an inside or absent border.
pub open spec fn outside_threshold_spec(lc: LayerColor) -> int {
    match lc.border {
        Option::Some(b) => match b.position {
            BorderPosition::Inside => 0,
            BorderPosition::Center => sabs(b.size as int) / 2,
            BorderPosition::Outside => sabs(b.size as int),
        },
        Option::None => 0,
    }
}

/// The distance at which the inside zone ends.
pub open spec fn inside_threshold_spec(lc: LayerColor) -> int {
    match lc.border {
        Option::Some(b) => outside_threshold_spec(lc) - sabs(b.size as int),
        Option::None => 0,
    }
}

/// The zone model: with a positive-width border, five regimes (inside,
/// inside-to-border band, border, border-to-outside band, outside); without
/// one, a single band of width [`FUZZ`] centered at the threshold. Absent
/// fills paint fully transparent, and band colors are coverage blends of
/// the two abutting zone colors.
pub open spec fn layer_color_spec(lc: LayerColor, distance: int) -> Color {
    let n = ONE as int;
    let fz = FUZZ as int;
    let transparent = transparent_spec();
    let ot = outside_threshold_spec(lc);
    let it = inside_threshold_spec(lc);
    let has_border = match lc.border {
        Option::Some(b) => b.size > 0,
        Option::None => false,
    };
    if has_border {
        if distance > ot + fz {
            match lc.outside {
                Option::Some(f) => fill_color_spec(f, distance),
                Option::None => transparent,
            }
        } else if distance > ot {
            let t = sdiv((distance - ot) * n, fz);
            let oc = match lc.outside {
                Option::Some(f) => fill_color_spec(f, distance),
                Option::None => transparent,
            };
            match lc.border {
                Option::Some(b) => blend_spec(b.color, oc, t),
                Option::None => {
                    let ic = match lc.inside {
                        Option::Some(f) => fill_color_spec(f, distance),
                        Option::None => transparent,
                    };
                    blend_spec(ic, oc, t)
                },
            }
        } else if distance > it {
            match lc.border {
                Option::Some(b) => b.color,
                Option::None => transparent,
            }
        } else if distance > it - fz {
            let t = n - sdiv(sabs(distance + sabs(it)) * n, fz);
            let ic = match lc.inside {
                Option::Some(f) => fill_color_spec(f, distance),
                Option::None => transparent,
            };
            match lc.border {
                Option::Some(b) => blend_spec(ic, b.color, t),
                Option::None => {
                    let oc = match lc.outside {
                        Option::Some(f) => fill_color_spec(f, distance),
                        Option::None => transparent,
                    };
                    blend_spec(ic, oc, t)
                },
            }
        } else {
            match lc.inside {
                Option::Some(f) => fill_color_spec(f, distance),
                Option::None => transparent,
            }
        }
    } else {
        if distance > ot + fz / 2 {
            match lc.outside {
                Option::Some(f) => fill_color_spec(f, distance),
                Option::None => transparent,
            }
        } else if distance > ot - fz / 2 {
            let t = n - sdiv((ot + fz / 2 - distance) * n, fz);
            let oc = match lc.outside {
                Option::Some(f) => fill_color_spec(f, distance),
                Option::None => transparent,
            };
            match lc.inside {
                Option::Some(f) => blend_spec(fill_color_spec(f, distance), oc, t),
                Option::None => blend_spec(transparent, oc, t),
            }
        } else {
            match lc.inside {
                Option::Some(f) => fill_color_spec(f, distance),
                Option::None => transparent,
            }
        }
    }
}

impl LayerColor {
    /// All contained colors are well-formed and the border width is in
    /// coordinate range.
    pub open spec fn wf(self) -> bool {
        &&& match self.inside {
            Option::Some(f) => f.wf(),
            Option::None => true,
        }
        &&& match self.outside {
            Option::Some(f) => f.wf(),
            Option::None => true,
        }
        &&& match self.border {
            Option::Some(b) => b.color.wf() && -COORD_MAX <= b.size <= COORD_MAX,
            Option::None => true,
        }
    }

    /// The distance at which the outside zone begins.
    fn get_outside_threshold(&self) -> (t: i64)
        requires
            self.wf(),
        ensures
            t == outside_threshold_spec(*self),
            0 <= t <= COORD_MAX,
    {
        match &self.border {
            Option::Some(border) => match &border.position {
                BorderPosition::Inside => 0,
                BorderPosition::Center => div_floor(abs64(border.size), 2),
                BorderPosition::Outside => abs64(border.size),
            },
            Option::None => 0,
        }
    }

    /// The layer's color at a distance, per the zone model.
    pub fn get_color(&self, distance: i64) -> (c: Color)
        requires
            self.wf(),
            -DIST_MAX <= distance <= DIST_MAX,
        ensures
            c == layer_color_spec(*self, distance as int),
            c.wf(),
    {
        let fz = FUZZ;
        let has_border = match &self.border {
            Option::Some(b) => b.size > 0,
            Option::None => false,
        };
        let transparent = Color::new(0, 0, 0, 0);
        proof {
            assert(transparent == transparent_spec());
        }
        let outside_threshold = self.get_outside_threshold();
        let inside_threshold = match &self.border {
            Option::Some(border) => outside_threshold - abs64(border.size),
            Option::None => 0,
        };
        if has_border {
            if distance > outside_threshold + fz {
                match &self.outside {
                    Option::Some(fill) => fill.get_color(distance),
                    Option::None => transparent,
                }
            } else if distance > outside_threshold {
                proof {
                    lemma_mul_bounds(
                        distance - outside_threshold as int,
                        ONE as int,
                        FUZZ as int,
                        ONE as int,
                    );
                    lemma_div_is_ordered(0, (distance - outside_threshold as int) * ONE, FUZZ as int);
                    lemma_div_is_ordered(
                        (distance - outside_threshold as int) * ONE,
                        (FUZZ as int) * ONE,
                        FUZZ as int,
                    );
                    lemma_div_multiples_vanish(ONE as int, FUZZ as int);
                    assert((FUZZ as int) * ONE == (FUZZ as int) * (ONE as int));
                }
                let t = div_floor((distance - outside_threshold) * ONE, fz);
                let outside_color = match &self.outside {
                    Option::Some(fill) => fill.get_color(distance),
                    Option::None => transparent,
                };
                match &self.border {
                    Option::Some(border) => border.color.blend(&outside_color, t),
                    Option::None => {
                        let inside_color = match &self.inside {
                            Option::Some(fill) => fill.get_color(distance),
                            Option::None => transparent,
                        };
                        inside_color.blend(&outside_color, t)
                    },
                }
            } else if distance > inside_threshold {
                match &self.border {
                    Option::Some(border) => border.color,
                    Option::None => transparent,
                }
            } else if distance > inside_threshold - fz {
                proof {
                    lemma_mul_bounds(
                        sabs(distance + sabs(inside_threshold as int)),
                        ONE as int,
                        FUZZ as int,
                        ONE as int,
                    );
                    lemma_div_is_ordered(
                        0,
                        sabs(distance + sabs(inside_threshold as int)) * ONE,
                        FUZZ as int,
                    );
                    lemma_div_is_ordered(
                        sabs(distance + sabs(inside_threshold as int)) * ONE,
                        (FUZZ as int) * ONE,
                        FUZZ as int,
                    );
                    lemma_div_multiples_vanish(ONE as int, FUZZ as int);
                }
                let t = ONE - div_floor(abs64(distance + abs64(inside_threshold)) * ONE, fz);
                let inside_color = match &self.inside {
                    Option::Some(fill) => fill.get_color(distance),
                    Option::None => transparent,
                };
                match &self.border {
                    Option::Some(border) => inside_color.blend(&border.color, t),
                    Option::None => {
                        let outside_color = match &self.outside {
                            Option::Some(fill) => fill.get_color(distance),
                            Option::None => transparent,
                        };
                        inside_color.blend(&outside_color, t)
                    },
                }
            } else {
                match &self.inside {
                    Option::Some(fill) => fill.get_color(distance),
                    Option::None => transparent,
                }
            }
        } else {
            if distance > outside_threshold + fz / 2 {
                match &self.outside {
                    Option::Some(fill) => fill.get_color(distance),
                    Option::None => transparent,
                }
            } else if distance > outside_threshold - fz / 2 {
                proof {
                    lemma_mul_bounds(
                        outside_threshold as int + (FUZZ as int) / 2 - distance,
                        ONE as int,
                        FUZZ as int,
                        ONE as int,
                    );
                    lemma_div_is_ordered(
                        0,
                        (outside_threshold as int + (FUZZ as int) / 2 - distance) * ONE,
                        FUZZ as int,
                    );
                    lemma_div_is_ordered(
                        (outside_threshold as int + (FUZZ as int) / 2 - distance) * ONE,
                        (FUZZ as int) * ONE,
                        FUZZ as int,
                    );
                    lemma_div_multiples_vanish(ONE as int, FUZZ as int);
                }
                let t = ONE - div_floor((outside_threshold + fz / 2 - distance) * ONE, fz);
                let outside_color = match &self.outside {
                    Option::Some(fill) => fill.get_color(distance),
                    Option::None => transparent,
                };
                match &self.inside {
                    Option::Some(fill) => fill.get_color(distance).blend(&outside_color, t),
                    Option::None => transparent.blend(&outside_color, t),
                }
            } else {
                match &self.inside {
                    Option::Some(fill) => fill.get_color(distance),
                    Option::None => transparent,
                }
            }
        }
    }
}

/// Every color the zone model paints has a nonnegative alpha: zone colors
/// come from well-formed fills and borders, the transparent default, or
/// coverage blends whose alpha is clamped to the unit interval.
pub proof fn lemma_layer_color_alpha(lc: LayerColor, d: int)
    requires
        lc.wf(),
    ensures
        layer_color_spec(lc, d).a >= 0,
{
    match lc.border {
        Option::Some(b) => {},
        Option::None => {},
    }
}

/// Law: a layer with only an inside fill paints exactly the fill color for
/// every distance up to one unit outside the boundary (the far edge of the
/// transition band) and is fully transparent beyond it. With an absent
/// outside fill the coverage blend leaves the inside color unchanged, so
/// the zone and band colors agree everywhere except across the band's far
/// edge.
pub proof fn lemma_inside_fill_zones(lc: LayerColor, c: Color, d: int)
    requires
        lc.border == Option::<Border>::None,
        lc.outside == Option::<Fill>::None,
        lc.inside == Option::Some(Fill::Solid(c)),
        c.wf(),
    ensures
        d <= ONE ==> layer_color_spec(lc, d) == c,
        d > ONE ==> layer_color_spec(lc, d) == transparent_spec(),
{
    let n = ONE as int;
    let fz = FUZZ as int;
    assert(outside_threshold_spec(lc) == 0);
    if d > n {
    } else if d > -n {
        // In the band the outside is transparent, so the blend returns the
        // fill unchanged.
        let t = n - sdiv((fz / 2 - d) * n, fz);
        let scaled = scale_spec(transparent_spec(), t);
        assert(0 * t == 0) by (nonlinear_arith);
        lemma_div_of0(n);
        assert(scaled == transparent_spec());
        crate::color::lemma_mix_transparent_front(c);
        assert(blend_spec(c, transparent_spec(), t) == c);
    } else {
    }
}

} // verus!
