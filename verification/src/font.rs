//! Bitmap distance-field fonts: per-byte-code glyph metrics over a
//! single-channel atlas image.
//!
//! The atlas stores one distance sample per texel; glyph metrics carry
//! fixed-point texel coordinates. Well-formedness keeps every glyph's
//! sampling window (including the extra texel used by bilinear
//! interpolation) inside the atlas.

use vstd::prelude::*;

use crate::fx::{COORD_MAX, ONE};

verus! {

/// Largest admissible atlas side, in fixed-point texels.
pub const ATLAS_MAX: i64 = 0x1000_0000;

/// Largest admissible glyph advance or x offset.
pub const ADVANCE_MAX: i64 = 0x8_0000;

/// Metrics of one glyph: its byte code, the size and position of its patch
/// in the atlas, and its layout advance and offsets. All scalars are
/// fixed point.
#[derive(Clone, Copy, Debug, PartialEq, Eq, Structural)]
pub struct Char {
    pub code: u8,
    pub width: i64,
    pub height: i64,
    pub x: i64,
    pub x_advance: i64,
    pub x_offset: i64,
    pub y: i64,
    pub y_offset: i64,
}

/// A glyph's patch, padded by one texel on each side for bilinear sampling,
/// lies inside an atlas of the given size; its layout fields are bounded.
pub open spec fn char_wf(c: Char, atlas_w: int, atlas_h: int) -> bool {
    &&& 0 <= c.width
    &&& 0 <= c.height
    &&& 0 <= c.x
    &&& c.x + c.width + 2 * ONE <= atlas_w
    &&& 0 <= c.y
    &&& c.y + c.height + 2 * ONE <= atlas_h
    &&& -ADVANCE_MAX <= c.x_advance <= ADVANCE_MAX
    &&& -ADVANCE_MAX <= c.x_offset <= ADVANCE_MAX
    &&& -COORD_MAX <= c.y_offset <= COORD_MAX
}

/// A distance-field font: global metrics, the glyph table and the atlas.
#[derive(Debug)]
pub struct Font {
    pub size: i64,
    pub line_height: i64,
    pub base: i64,
    pub scale_width: i64,
    pub scale_height: i64,
    pub chars: Vec<Char>,
    pub image: Vec<u8>,
}

impl Font {
    /// The atlas is a whole number of texels on each side, the image holds
    /// exactly one byte per texel, every glyph fits the atlas, codes are
    /// unique and the fallback glyph (the question mark) is present.
    pub open spec fn wf(self) -> bool {
        &&& 2 * ONE <= self.scale_width <= ATLAS_MAX
        &&& 2 * ONE <= self.scale_height <= ATLAS_MAX
        &&& self.scale_width as int % (ONE as int) == 0
        &&& self.scale_height as int % (ONE as int) == 0
        &&& self.image.len() == (self.scale_width as int / (ONE as int)) * (self.scale_height
            as int / (ONE as int))
        &&& forall|i: int|
            0 <= i < self.chars.len() ==> char_wf(
                #[trigger] self.chars[i],
                self.scale_width as int,
                self.scale_height as int,
            )
        &&& exists|i: int| 0 <= i < self.chars.len() && (#[trigger] self.chars[i].code) == 63
        &&& forall|i: int, j: int|
            0 <= i < j < self.chars.len() ==> (#[trigger] self.chars[i].code) != (
            #[trigger] self.chars[j].code)
    }
}

/// The glyph a byte code maps to in a glyph table: its own entry when the
/// table has one, else the question-mark fallback.
pub open spec fn char_spec(chars: Seq<Char>, code: u8) -> Char {
    if exists|i: int| 0 <= i < chars.len() && (#[trigger] chars[i].code) == code {
        chars[choose|i: int| 0 <= i < chars.len() && (#[trigger] chars[i].code) == code]
    } else {
        chars[choose|i: int| 0 <= i < chars.len() && (#[trigger] chars[i].code) == 63]
    }
}

impl Font {
    /// Look a byte code up in the glyph table, falling back to the
    /// question-mark glyph for unmapped codes.
    pub fn get_char(&self, letter: u8) -> (c: &Char)
        requires
            self.wf(),
        ensures
            *c == char_spec(self.chars@, letter),
            char_wf(*c, self.scale_width as int, self.scale_height as int),
    {
        let n = self.chars.len();
        let mut i: usize = 0;
        while i < n
            invariant
                self.wf(),
                i <= n,
                n == self.chars.len(),
                forall|k: int| 0 <= k < i ==> (#[trigger] self.chars[k].code) != letter,
            decreases n - i,
        {
            if self.chars[i].code == letter {
                proof {
                    let w = choose|k: int|
                        0 <= k < self.chars.len() && (#[trigger] self.chars[k].code) == letter;
                    assert(self.chars[i as int].code == letter);
                    if w != i as int {
                        assert(false);
                    }
                }
                return &self.chars[i];
            }
            i = i + 1;
        }
        proof {
            assert(forall|k: int|
                0 <= k < self.chars.len() ==> (#[trigger] self.chars[k].code) != letter);
        }
        let mut j: usize = 0;
        while j < n
            invariant
                self.wf(),
                j <= n,
                n == self.chars.len(),
                forall|k: int| 0 <= k < self.chars.len() ==> (#[trigger] self.chars[k].code)
                    != letter,
                forall|k: int| 0 <= k < j ==> (#[trigger] self.chars[k].code) != 63,
            decreases n - j,
        {
            if self.chars[j].code == 63 {
                proof {
                    let w = choose|k: int|
                        0 <= k < self.chars.len() && (#[trigger] self.chars[k].code) == 63;
                    assert(self.chars[j as int].code == 63);
                    if w != j as int {
                        assert(false);
                    }
                }
                return &self.chars[j];
            }
            j = j + 1;
        }
        proof {
            let w = choose|k: int|
                0 <= k < self.chars.len() && (#[trigger] self.chars[k].code) == 63;
            assert(self.chars[w].code == 63);
            assert(false);
        }
        &self.chars[0]
    }

    /// An equal copy of the font: the glyph table and the atlas are copied
    /// entry by entry, so a text evaluator can own its font.
    pub fn duplicate(&self) -> (g: Font)
        ensures
            g.size == self.size,
            g.line_height == self.line_height,
            g.base == self.base,
            g.scale_width == self.scale_width,
            g.scale_height == self.scale_height,
            g.chars@ == self.chars@,
            g.image@ == self.image@,
    {
        let mut chars: Vec<Char> = Vec::new();
        let mut i: usize = 0;
        while i < self.chars.len()
            invariant
                i <= self.chars.len(),
                chars@ == self.chars@.take(i as int),
            decreases self.chars.len() - i,
        {
            chars.push(self.chars[i]);
            proof {
                assert(chars@ =~= self.chars@.take(i as int + 1));
            }
            i = i + 1;
        }
        let mut image: Vec<u8> = Vec::new();
        let mut j: usize = 0;
        while j < self.image.len()
            invariant
                j <= self.image.len(),
                image@ == self.image@.take(j as int),
            decreases self.image.len() - j,
        {
            image.push(self.image[j]);
            proof {
                assert(image@ =~= self.image@.take(j as int + 1));
            }
            j = j + 1;
        }
        proof {
            assert(chars@ =~= self.chars@);
            assert(image@ =~= self.image@);
        }
        Font {
            size: self.size,
            line_height: self.line_height,
            base: self.base,
            scale_width: self.scale_width,
            scale_height: self.scale_height,
            chars,
            image,
        }
    }
}

} // verus!
