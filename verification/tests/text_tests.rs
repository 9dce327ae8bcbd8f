use sdf2d::font::{Char, Font};
use sdf2d::fx::ONE;
use sdf2d::sdf::Object;
use sdf2d::text::{Text, FAR_DISTANCE};
use sdf2d::vec2::Vec2;

fn glyph(code: u8, width: i64, height: i64, x: i64, y: i64, x_advance: i64) -> Char {
    Char { code, width, height, x, x_advance, x_offset: 0, y, y_offset: 0 }
}

/// A 256x256-texel atlas of zero bytes (the deepest inside value), with the
/// fallback question mark and a capital A of known metrics.
fn test_font() -> Font {
    Font {
        size: 32 * ONE,
        line_height: 46 * ONE,
        base: 36 * ONE,
        scale_width: 256 * ONE,
        scale_height: 256 * ONE,
        chars: vec![
            glyph(63, 20 * ONE, 20 * ONE, 0, 0, 20 * ONE),
            glyph(65, 36 * ONE, 41 * ONE, 178 * ONE, 135 * ONE, 23 * ONE),
        ],
        image: vec![0u8; 256 * 256],
    }
}

#[test]
fn test_get_char_and_fallback() {
    let font = test_font();
    assert_eq!(font.get_char(65).code, 65);
    assert_eq!(font.get_char(65).width, 36 * ONE);
    assert_eq!(font.get_char(65).x, 178 * ONE);
    // Unmapped codes fall back to the question mark.
    assert_eq!(font.get_char(90).code, 63);
}

#[test]
fn test_single_glyph_layout() {
    let font = test_font();
    let t = Text::new(vec![65], 32 * ONE, &font);
    assert_eq!(t.bboxes.len(), 1);
    assert_eq!(t.bboxes[0].glyph.code, 65);
    assert_eq!(t.bboxes[0].pos, Vec2::new(0, 0));
    assert_eq!(t.bboxes[0].size, Vec2::new(36 * ONE, 41 * ONE));
}

#[test]
fn test_advance_walks_cursor() {
    let font = test_font();
    let t = Text::new(vec![65, 65, 65], 32 * ONE, &font);
    assert_eq!(t.bboxes.len(), 3);
    assert_eq!(t.bboxes[0].pos.x, 0);
    assert_eq!(t.bboxes[1].pos.x, 23 * ONE);
    assert_eq!(t.bboxes[2].pos.x, 46 * ONE);
}

#[test]
fn test_single_glyph_center_sample_is_deterministic() {
    let font = test_font();
    let arena: Vec<Object> = Vec::new();
    let t = Text::new(vec![65], 32 * ONE, &font);
    // The exact center of the glyph's box, in scene space (y up, so the
    // evaluator's internal flip lands inside the box).
    let center = Vec2::new(18 * ONE, -(20 * ONE + ONE / 2));
    let d1 = t.get_distance(&arena, center);
    let d2 = t.get_distance(&arena, center);
    // Deterministic across repeated evaluations, and a finite in-band
    // distance, not the sentinel.
    assert_eq!(d1, d2);
    assert!(d1 > -FAR_DISTANCE && d1 < FAR_DISTANCE);
    // A zero atlas byte decodes to the farthest in-band outside
    // distance: 8 units.
    assert_eq!(d1, 8 * ONE);
}

#[test]
fn test_outside_every_box_is_sentinel() {
    let font = test_font();
    let arena: Vec<Object> = Vec::new();
    let t = Text::new(vec![65], 32 * ONE, &font);
    let d = t.get_distance(&arena, Vec2::new(100 * ONE, 100 * ONE));
    assert_eq!(d, FAR_DISTANCE);
}

#[test]
fn test_empty_text_is_everywhere_far() {
    let font = test_font();
    let arena: Vec<Object> = Vec::new();
    let t = Text::new(Vec::new(), 32 * ONE, &font);
    assert_eq!(t.bboxes.len(), 0);
    assert_eq!(t.get_distance(&arena, Vec2::new(0, 0)), FAR_DISTANCE);
}

#[test]
fn test_min_over_overlapping_boxes() {
    // Two glyphs whose patches differ in atlas content: the second's
    // patch holds bytes of 255 (the farthest outside value). With a zero
    // advance the boxes overlap and the minimum must win.
    let mut font = test_font();
    font.chars = vec![
        glyph(63, 20 * ONE, 20 * ONE, 0, 0, 0),
        glyph(66, 20 * ONE, 20 * ONE, 64 * ONE, 64 * ONE, 0),
    ];
    for ty in 0..22 {
        for tx in 0..22 {
            font.image[(64 + ty) * 256 + 64 + tx] = 255;
        }
    }
    let arena: Vec<Object> = Vec::new();
    let t = Text::new(vec![63, 66], 32 * ONE, &font);
    let p = Vec2::new(10 * ONE, -10 * ONE);
    let d = t.get_distance(&arena, p);
    // The zero patch samples 8 units outside; the filled patch samples
    // 8 units inside; the minimum is the inside one.
    assert_eq!(d, -8 * ONE);
}
