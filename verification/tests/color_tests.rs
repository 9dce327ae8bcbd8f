use sdf2d::color::Color;
use sdf2d::fx::ONE;

#[test]
fn test_new_clamps_and_premultiplies() {
    let c = Color::new(2 * ONE, -ONE, ONE, ONE / 2);
    assert_eq!(c.a, ONE / 2);
    assert_eq!(c.r, ONE / 2); // clamped to ONE, then halved
    assert_eq!(c.g, 0);
    assert_eq!(c.b, ONE / 2);
}

#[test]
fn test_mix_alpha_is_clamped_sum() {
    let back = Color::new(ONE, 0, 0, ONE / 2);
    let front = Color::new(0, ONE, 0, ONE / 4);
    let out = back.mix(&front);
    assert_eq!(out.a, ONE / 2 + ONE / 4);

    let back = Color::new(ONE, 0, 0, ONE);
    let front = Color::new(0, ONE, 0, ONE / 2);
    let out = back.mix(&front);
    assert_eq!(out.a, ONE); // saturated
}

#[test]
fn test_mix_transparent_front_returns_back() {
    let back = Color::new(ONE / 2, ONE / 4, ONE, 3 * ONE / 4);
    let front = Color::new(0, 0, 0, 0);
    let out = back.mix(&front);
    assert_eq!(out, back);
}

#[test]
fn test_mix_opaque_front_returns_front() {
    let back = Color::new(ONE / 2, ONE / 4, ONE, 3 * ONE / 4);
    let front = Color::new(0, ONE, ONE / 2, ONE);
    let out = back.mix(&front);
    assert_eq!(out, front);
}

#[test]
fn test_blend_scales_coverage() {
    let back = Color::new(0, 0, 0, 0);
    let front = Color::new(ONE, ONE, ONE, ONE);
    // Half coverage over a transparent back halves every channel.
    let out = back.blend(&front, ONE / 2);
    assert_eq!(out.r, ONE / 2);
    assert_eq!(out.g, ONE / 2);
    assert_eq!(out.b, ONE / 2);
    assert_eq!(out.a, ONE / 2);
    // Full coverage yields the front; zero coverage yields the back.
    assert_eq!(back.blend(&front, ONE), front);
    assert_eq!(back.blend(&front, 0), back);
}

#[test]
fn test_mix_smooth_channels() {
    let a = Color::new(0, 0, 0, ONE);
    let b = Color::new(ONE, ONE, ONE, ONE);
    let out = a.mix_smooth(b, ONE / 2);
    // Halfway along the cubic ramp of each channel.
    assert_eq!(out.r, ONE / 2);
    assert_eq!(out.a, ONE); // equal ends stay constant
}

#[test]
fn test_to_array() {
    let red = Color::new(ONE, 0, 0, ONE);
    assert_eq!(red.to_array(), [255, 0, 0, 255]);
    let half = Color::new(ONE, ONE, ONE, ONE / 2);
    // Premultiplied half-intensity channels.
    assert_eq!(half.to_array(), [127, 127, 127, 255]);
    let transparent = Color::new(0, 0, 0, 0);
    assert_eq!(transparent.to_array(), [0, 0, 0, 255]);
}
