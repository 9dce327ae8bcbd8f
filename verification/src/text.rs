//! The bitmap-font text evaluator: a monospaced-cursor line layout built
//! once at construction, and per-point distance lookup by bilinear
//! sampling of the font's distance atlas.

use vstd::prelude::*;
use vstd::arithmetic::div_mod::{
    lemma_div_is_ordered, lemma_div_multiples_vanish, lemma_fundamental_div_mod,
    lemma_mod_division_less_than_divisor,
};

use crate::font::{char_spec, char_wf, Char, Font, ADVANCE_MAX};
use crate::fx::{div_floor, lemma_smul_unit, sabs, smin, COORD_MAX, ONE};
use crate::sdf::Object;
use crate::vec2::Vec2;

verus! {

/// The sentinel distance returned when a point lies in no glyph box: far
/// outside any transition band, though not a true distance to the text.
pub const FAR_DISTANCE: i64 = 99999 * 65536;

/// One laid-out glyph: its metrics and its box in the text's local space.
#[derive(Clone, Copy, Debug, PartialEq, Eq, Structural)]
pub struct BBox {
    pub glyph: Char,
    pub pos: Vec2,
    pub size: Vec2,
}

/// The box size agrees with the glyph patch, the patch fits the atlas and
/// the box position is in coordinate range.
pub open spec fn bbox_wf(b: BBox, atlas_w: int, atlas_h: int) -> bool {
    &&& char_wf(b.glyph, atlas_w, atlas_h)
    &&& b.size.x == b.glyph.width
    &&& b.size.y == b.glyph.height
    &&& -COORD_MAX <= b.pos.x <= COORD_MAX
    &&& -COORD_MAX <= b.pos.y <= COORD_MAX
}

/// A point lies within the box, borders included.
pub open spec fn contains_spec(b: BBox, p: Vec2) -> bool {
    &&& b.pos.x <= p.x <= b.pos.x + b.size.x
    &&& b.pos.y <= p.y <= b.pos.y + b.size.y
}

impl BBox {
    /// Whether a point lies within the box.
    pub fn contains(&self, point: Vec2) -> (r: bool)
        requires
            i64::MIN <= self.pos.x + self.size.x <= i64::MAX,
            i64::MIN <= self.pos.y + self.size.y <= i64::MAX,
        ensures
            r == contains_spec(*self, point),
    {
        (point.x >= self.pos.x && point.x <= self.pos.x + self.size.x) && (point.y >= self.pos.y
            && point.y <= self.pos.y + self.size.y)
    }
}

/// A string of byte codes laid out as glyph boxes over a distance-field
/// font, evaluated as a signed distance field.
#[derive(Debug)]
pub struct Text {
    pub bboxes: Vec<BBox>,
    pub font: Font,
    pub size: i64,
    pub text: Vec<u8>,
}

/// The layout cursor before the first glyph: the first glyph's x offset is
/// cancelled so that the text starts at the local origin.
pub open spec fn initial_cursor_spec(chars: Seq<Char>, text: Seq<u8>) -> int {
    if text.len() == 0 {
        0
    } else {
        -char_spec(chars, text[0]).x_offset
    }
}

/// The layout cursor before the glyph at position `i`: the initial cursor
/// plus the advances of all earlier glyphs.
pub open spec fn cursor_at(chars: Seq<Char>, text: Seq<u8>, i: int) -> int
    decreases i,
{
    if i <= 0 {
        initial_cursor_spec(chars, text)
    } else {
        cursor_at(chars, text, i - 1) + char_spec(chars, text[i - 1]).x_advance
    }
}

/// The glyph box at position `i` of the layout: placed at the cursor plus
/// the glyph's offsets, sized by the glyph patch.
pub open spec fn bbox_at(chars: Seq<Char>, text: Seq<u8>, i: int) -> BBox {
    let ch = char_spec(chars, text[i]);
    BBox {
        glyph: ch,
        pos: Vec2 { x: (cursor_at(chars, text, i) + ch.x_offset) as i64, y: ch.y_offset },
        size: Vec2 { x: ch.width, y: ch.height },
    }
}

/// The bilinear sample of the atlas under a glyph box, remapped to a signed
/// distance: the four texels around the sample point are weighted by their
/// overlap, the byte value is flipped and rescaled so that 0 is the glyph
/// boundary and the full byte range spans 16 units with 8 units of padding.
pub open spec fn char_distance_spec(image: Seq<u8>, sw: int, b: BBox, p: Vec2) -> int {
    let n = ONE as int;
    let ix = p.x - b.pos.x + b.glyph.x;
    let iy = p.y - b.pos.y + b.glyph.y;
    let xi = ix / n;
    let yi = iy / n;
    let w = sw / n;
    let sa = image[yi * w + xi] as int;
    let sb = image[yi * w + xi + 1] as int;
    let sc = image[(yi + 1) * w + xi] as int;
    let sd = image[(yi + 1) * w + xi + 1] as int;
    let wx1 = (xi + 1) * n - ix;
    let wx0 = ix - xi * n;
    let wy1 = (yi + 1) * n - iy;
    let wy0 = iy - yi * n;
    let aw = (wx1 * wy1) / n;
    let bw = (wx0 * wy1) / n;
    let cw = (wx1 * wy0) / n;
    let dw = (wx0 * wy0) / n;
    let value = sa * aw + sb * bw + sc * cw + sd * dw;
    let v2 = 255 * n - value;
    (v2 * 16) / 255 - 8 * n
}

/// The least sampled distance among the boxes of a prefix of the layout
/// that contain the point, if any does.
pub open spec fn text_prefix_min(image: Seq<u8>, sw: int, bs: Seq<BBox>, q: Vec2) -> Option<int>
    decreases bs.len(),
{
    if bs.len() == 0 {
        Option::None
    } else {
        let m = text_prefix_min(image, sw, bs.drop_last(), q);
        let b = bs.last();
        if contains_spec(b, q) {
            let d = char_distance_spec(image, sw, b, q);
            match m {
                Option::None => Option::Some(d),
                Option::Some(v) => Option::Some(smin(v, d)),
            }
        } else {
            m
        }
    }
}

/// The text's distance at a point: the point's y is flipped (the atlas is
/// top-down while scene space is bottom-up), and the least sampled distance
/// among containing glyph boxes is returned — or the far sentinel when no
/// box contains the point.
pub open spec fn text_dist_spec(t: Text, p: Vec2) -> int {
    let q = Vec2 { x: p.x, y: (-(p.y as int)) as i64 };
    match text_prefix_min(t.font.image@, t.font.scale_width as int, t.bboxes@, q) {
        Option::Some(d) => d,
        Option::None => FAR_DISTANCE as int,
    }
}

/// A sample byte weighted by a unit-interval factor.
proof fn lemma_sample_term(s: int, w: int)
    requires
        0 <= s <= 255,
        0 <= w <= ONE,
    ensures
        0 <= s * w <= 255 * ONE,
        s * w <= 255 * w,
{
    assert(0 <= s * w <= 255 * ONE && s * w <= 255 * w) by (nonlinear_arith)
        requires
            0 <= s <= 255,
            0 <= w <= ONE,
    ;
}

/// Flooring division is subadditive over sums.
proof fn lemma_div_sum_le(a: int, b: int, n: int)
    requires
        n > 0,
    ensures
        a / n + b / n <= (a + b) / n,
{
    lemma_fundamental_div_mod(a, n);
    lemma_fundamental_div_mod(b, n);
    lemma_mod_division_less_than_divisor(a, n);
    lemma_mod_division_less_than_divisor(b, n);
    let qa = a / n;
    let qb = b / n;
    let r = a % n + b % n;
    assert(a + b == n * (qa + qb) + r) by (nonlinear_arith)
        requires
            a == n * qa + a % n,
            b == n * qb + b % n,
            r == a % n + b % n,
    ;
    if r < n {
        vstd::arithmetic::div_mod::lemma_fundamental_div_mod_converse_div(a + b, n, qa + qb, r);
    } else {
        assert(a + b == n * (qa + qb + 1) + (r - n)) by (nonlinear_arith)
            requires
                a + b == n * (qa + qb) + r,
        ;
        vstd::arithmetic::div_mod::lemma_fundamental_div_mod_converse_div(
            a + b,
            n,
            qa + qb + 1,
            r - n,
        );
    }
}

/// The four bilinear weights (each floored) sum to at most one unit, so the
/// weighted sample stays within the byte range.
proof fn lemma_weight_sum(wx1: int, wx0: int, wy1: int, wy0: int)
    requires
        wx1 + wx0 == ONE,
        wy1 + wy0 == ONE,
        0 <= wx1 <= ONE,
        0 <= wx0 <= ONE,
        0 <= wy1 <= ONE,
        0 <= wy0 <= ONE,
    ensures
        0 <= (wx1 * wy1) / (ONE as int) + (wx0 * wy1) / (ONE as int) + (wx1 * wy0) / (
        ONE as int) + (wx0 * wy0) / (ONE as int) <= ONE,
{
    let n = ONE as int;
    lemma_smul_unit(wx1, wy1, n);
    lemma_smul_unit(wx0, wy1, n);
    lemma_smul_unit(wx1, wy0, n);
    lemma_smul_unit(wx0, wy0, n);
    lemma_div_sum_le(wx1 * wy1, wx0 * wy1, n);
    lemma_div_sum_le(wx1 * wy0, wx0 * wy0, n);
    assert(wx1 * wy1 + wx0 * wy1 == n * wy1) by (nonlinear_arith)
        requires
            wx1 + wx0 == n,
    ;
    assert(wx1 * wy0 + wx0 * wy0 == n * wy0) by (nonlinear_arith)
        requires
            wx1 + wx0 == n,
    ;
    lemma_div_multiples_vanish(wy1, n);
    lemma_div_multiples_vanish(wy0, n);
}

impl Text {
    /// The font is well-formed and every glyph box is consistent with it.
    pub open spec fn wf(self) -> bool {
        &&& self.font.wf()
        &&& self.bboxes.len() <= 4096
        &&& forall|i: int|
            0 <= i < self.bboxes.len() ==> bbox_wf(
                #[trigger] self.bboxes[i],
                self.font.scale_width as int,
                self.font.scale_height as int,
            )
    }

    /// Lay a byte string out over a font.
    pub fn new(text: Vec<u8>, size: i64, font: &Font) -> (t: Text)
        requires
            font.wf(),
            text.len() <= 1024,
        ensures
            t.wf(),
            t.size == size,
            t.text@ == text@,
            t.font.chars@ == font.chars@,
            t.font.image@ == font.image@,
            t.font.scale_width == font.scale_width,
            t.font.scale_height == font.scale_height,
            t.bboxes.len() == text@.len(),
            forall|i: int|
                0 <= i < text@.len() ==> #[trigger] t.bboxes[i] == bbox_at(
                    font.chars@,
                    text@,
                    i,
                ),
    {
        let mut t = Text { bboxes: Vec::new(), font: font.duplicate(), size, text };
        proof {
            assert(t.font.wf());
        }
        t.generate_bboxes();
        t
    }

    /// The cursor before the first glyph.
    fn get_initial_cursor_position(&self) -> (c: i64)
        requires
            self.font.wf(),
        ensures
            c == initial_cursor_spec(self.font.chars@, self.text@),
            -ADVANCE_MAX <= c <= ADVANCE_MAX,
    {
        if self.text.len() == 0 {
            0
        } else {
            let ch = self.font.get_char(self.text[0]);
            -ch.x_offset
        }
    }

    /// Walk the layout cursor over the byte string, producing one glyph box
    /// per byte.
    fn generate_bboxes(&mut self)
        requires
            old(self).font.wf(),
            old(self).text.len() <= 1024,
            old(self).bboxes.len() == 0,
        ensures
            final(self).font == old(self).font,
            final(self).text == old(self).text,
            final(self).size == old(self).size,
            final(self).bboxes.len() == old(self).text@.len(),
            forall|i: int|
                0 <= i < old(self).text@.len() ==> #[trigger] final(self).bboxes[i] == bbox_at(
                    old(self).font.chars@,
                    old(self).text@,
                    i,
                ),
            forall|i: int|
                0 <= i < final(self).bboxes.len() ==> bbox_wf(
                    #[trigger] final(self).bboxes[i],
                    old(self).font.scale_width as int,
                    old(self).font.scale_height as int,
                ),
    {
        let mut cursor = self.get_initial_cursor_position();
        let n = self.text.len();
        let mut i: usize = 0;
        while i < n
            invariant
                self.font == old(self).font,
                self.text == old(self).text,
                self.size == old(self).size,
                self.font.wf(),
                n == self.text@.len(),
                n <= 1024,
                i <= n,
                self.bboxes.len() == i,
                forall|k: int|
                    0 <= k < i ==> #[trigger] self.bboxes[k] == bbox_at(
                        self.font.chars@,
                        self.text@,
                        k,
                    ),
                forall|k: int|
                    0 <= k < i ==> bbox_wf(
                        #[trigger] self.bboxes[k],
                        self.font.scale_width as int,
                        self.font.scale_height as int,
                    ),
                cursor == cursor_at(self.font.chars@, self.text@, i as int),
                -ADVANCE_MAX * (i as int + 1) <= cursor <= ADVANCE_MAX * (i as int + 1),
            decreases n - i,
        {
            proof {
                assert(-ADVANCE_MAX * 1025 <= cursor <= ADVANCE_MAX * 1025) by (nonlinear_arith)
                    requires
                        -ADVANCE_MAX * (i as int + 1) <= cursor <= ADVANCE_MAX * (i as int + 1),
                        0 <= i as int,
                        i as int + 1 <= 1025,
                ;
            }
            let letter = self.text[i];
            let ch = *self.font.get_char(letter);
            let bbox = BBox {
                glyph: ch,
                pos: Vec2 { x: cursor + ch.x_offset, y: ch.y_offset },
                size: Vec2 { x: ch.width, y: ch.height },
            };
            self.bboxes.push(bbox);
            cursor = cursor + ch.x_advance;
            proof {
                assert(ADVANCE_MAX * (i as int + 1) + ADVANCE_MAX == ADVANCE_MAX * (i as int + 2))
                    by (nonlinear_arith);
                assert(-ADVANCE_MAX * (i as int + 1) - ADVANCE_MAX == -ADVANCE_MAX * (i as int
                    + 2)) by (nonlinear_arith);
            }
            i = i + 1;
        }
    }

    /// Sample the atlas under one glyph box that contains the point.
    fn get_char_distance(&self, point: &Vec2, bbox: &BBox) -> (d: i64)
        requires
            self.font.wf(),
            bbox_wf(*bbox, self.font.scale_width as int, self.font.scale_height as int),
            contains_spec(*bbox, *point),
            point.bounded(COORD_MAX as int),
        ensures
            d == char_distance_spec(
                self.font.image@,
                self.font.scale_width as int,
                *bbox,
                *point,
            ),
            -8 * ONE <= d <= 8 * ONE,
    {
        let nn = ONE;
        let ix = point.x - bbox.pos.x + bbox.glyph.x;
        let iy = point.y - bbox.pos.y + bbox.glyph.y;
        let xi = div_floor(ix, nn);
        let yi = div_floor(iy, nn);
        let w = div_floor(self.font.scale_width, nn);
        let h = div_floor(self.font.scale_height, nn);
        proof {
            let n = ONE as int;
            let swi = self.font.scale_width as int;
            let shi = self.font.scale_height as int;
            // The atlas sides are whole texel counts.
            lemma_fundamental_div_mod(swi, n);
            lemma_fundamental_div_mod(shi, n);
            lemma_div_is_ordered(swi, 0x1000_0000, n);
            lemma_div_is_ordered(shi, 0x1000_0000, n);
            lemma_div_is_ordered(2 * n, swi, n);
            lemma_div_is_ordered(2 * n, shi, n);
            lemma_div_multiples_vanish(2, n);
            // Sample coordinates stay two texels inside the atlas.
            assert(0 <= ix && ix <= swi - 2 * n);
            assert(0 <= iy && iy <= shi - 2 * n);
            lemma_div_is_ordered(0, ix as int, n);
            lemma_div_is_ordered(0, iy as int, n);
            lemma_div_is_ordered(ix as int, swi - 2 * n, n);
            lemma_div_is_ordered(iy as int, shi - 2 * n, n);
            assert(swi - 2 * n == n * (w as int - 2) + swi % n) by (nonlinear_arith)
                requires
                    swi == n * (w as int) + swi % n,
            ;
            assert((swi - 2 * n) / n == w as int - 2) by {
                lemma_mod_division_less_than_divisor(swi, n);
                vstd::arithmetic::div_mod::lemma_fundamental_div_mod_converse_div(
                    swi - 2 * n,
                    n,
                    w as int - 2,
                    swi % n,
                );
            };
            assert(shi - 2 * n == n * (h as int - 2) + shi % n) by (nonlinear_arith)
                requires
                    shi == n * (h as int) + shi % n,
            ;
            assert((shi - 2 * n) / n == h as int - 2) by {
                lemma_mod_division_less_than_divisor(shi, n);
                vstd::arithmetic::div_mod::lemma_fundamental_div_mod_converse_div(
                    shi - 2 * n,
                    n,
                    h as int - 2,
                    shi % n,
                );
            };
            assert(0 <= xi as int <= w as int - 2);
            assert(0 <= yi as int <= h as int - 2);
            assert(2 <= w as int <= 4096);
            assert(2 <= h as int <= 4096);
            // All four sample indices are inside the image.
            assert(self.font.image@.len() == (w as int) * (h as int));
            assert((yi as int + 1) * (w as int) + xi as int + 1 < (w as int) * (h as int))
                by (nonlinear_arith)
                requires
                    0 <= yi as int <= h as int - 2,
                    0 <= xi as int <= w as int - 2,
                    2 <= w as int,
                    2 <= h as int,
            ;
            assert((yi as int) * (w as int) >= 0) by (nonlinear_arith)
                requires
                    yi as int >= 0,
                    w as int >= 0,
            ;
            assert((yi as int) * (w as int) <= (yi as int + 1) * (w as int)) by (nonlinear_arith)
                requires
                    w as int >= 0,
            ;
        }
        let wu = w as usize;
        let xu = xi as usize;
        let yu = yi as usize;
        let sa = self.font.image[yu * wu + xu] as i64;
        let sb = self.font.image[yu * wu + xu + 1] as i64;
        let sc = self.font.image[(yu + 1) * wu + xu] as i64;
        let sd = self.font.image[(yu + 1) * wu + xu + 1] as i64;
        proof {
            let n = ONE as int;
            lemma_fundamental_div_mod(ix as int, n);
            lemma_mod_division_less_than_divisor(ix as int, n);
            lemma_fundamental_div_mod(iy as int, n);
            lemma_mod_division_less_than_divisor(iy as int, n);
        }
        let wx1 = (xi + 1) * nn - ix;
        let wx0 = ix - xi * nn;
        let wy1 = (yi + 1) * nn - iy;
        let wy0 = iy - yi * nn;
        proof {
            lemma_smul_unit(wx1 as int, wy1 as int, ONE as int);
            lemma_smul_unit(wx0 as int, wy1 as int, ONE as int);
            lemma_smul_unit(wx1 as int, wy0 as int, ONE as int);
            lemma_smul_unit(wx0 as int, wy0 as int, ONE as int);
        }
        let aw = div_floor(wx1 * wy1, nn);
        let bw = div_floor(wx0 * wy1, nn);
        let cw = div_floor(wx1 * wy0, nn);
        let dw = div_floor(wx0 * wy0, nn);
        proof {
            lemma_sample_term(sa as int, aw as int);
            lemma_sample_term(sb as int, bw as int);
            lemma_sample_term(sc as int, cw as int);
            lemma_sample_term(sd as int, dw as int);
            lemma_weight_sum(wx1 as int, wx0 as int, wy1 as int, wy0 as int);
        }
        let value = sa * aw + sb * bw + sc * cw + sd * dw;
        proof {
            // The weighted samples together stay within one byte's range.
            assert(value as int <= 255 * (aw as int + bw as int + cw as int + dw as int));
            assert(value <= 255 * ONE);
        }
        let v2 = 255 * nn - value;
        let num = v2 * 16;
        proof {
            lemma_div_is_ordered(num as int, 267386880, 255);
            lemma_div_is_ordered(0, num as int, 255);
        }
        div_floor(num, 255) - 8 * nn
    }

    /// The text's distance at a point: the least sampled distance among the
    /// glyph boxes containing the (y-flipped) point, or the far sentinel.
    pub fn get_distance(&self, _arena: &Vec<Object>, point: Vec2) -> (d: i64)
        requires
            self.wf(),
            point.bounded(COORD_MAX as int),
        ensures
            d == text_dist_spec(*self, point),
            d == FAR_DISTANCE || -8 * ONE <= d <= 8 * ONE,
    {
        let q = Vec2 { x: point.x, y: -point.y };
        let ghost image = self.font.image@;
        let ghost sw = self.font.scale_width as int;
        let mut best: Option<i64> = Option::None;
        let n = self.bboxes.len();
        let mut i: usize = 0;
        while i < n
            invariant
                self.wf(),
                q.bounded(COORD_MAX as int),
                image == self.font.image@,
                sw == self.font.scale_width as int,
                n == self.bboxes.len(),
                i <= n,
                match best {
                    Option::None => text_prefix_min(image, sw, self.bboxes@.take(i as int), q)
                        == Option::<int>::None,
                    Option::Some(v) => text_prefix_min(image, sw, self.bboxes@.take(i as int), q)
                        == Option::Some(v as int) && -8 * ONE <= v <= 8 * ONE,
                },
            decreases n - i,
        {
            let b = self.bboxes[i];
            proof {
                assert(bbox_wf(b, self.font.scale_width as int, self.font.scale_height as int));
            }
            let hit = b.contains(q);
            if hit {
                let d = self.get_char_distance(&q, &b);
                best = match best {
                    Option::None => Option::Some(d),
                    Option::Some(v) => if d < v {
                        Option::Some(d)
                    } else {
                        Option::Some(v)
                    },
                };
            }
            proof {
                assert(self.bboxes@.take(i as int + 1).drop_last() =~= self.bboxes@.take(i as int));
                assert(self.bboxes@.take(i as int + 1).last() == self.bboxes@[i as int]);
            }
            i = i + 1;
        }
        proof {
            assert(self.bboxes@.take(n as int) =~= self.bboxes@);
        }
        match best {
            Option::Some(d) => d,
            Option::None => FAR_DISTANCE,
        }
    }
}

} // verus!
