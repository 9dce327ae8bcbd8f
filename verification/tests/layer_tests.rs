use sdf2d::color::Color;
use sdf2d::fx::ONE;
use sdf2d::layer::{Border, BorderPosition, Fill, LayerColor, FUZZ};

fn red() -> Color {
    Color::new(ONE, 0, 0, ONE)
}

fn inside_only() -> LayerColor {
    LayerColor { inside: Some(Fill::Solid(red())), border: None, outside: None }
}

#[test]
fn test_inside_fill_deep_inside_is_fill() {
    let lc = inside_only();
    // Distances well below zero paint exactly the fill, fully opaque.
    for d in [-100 * ONE, -10 * ONE, -2 * ONE, -ONE] {
        let c = lc.get_color(d);
        assert_eq!(c, red());
        assert_eq!(c.a, ONE);
    }
}

#[test]
fn test_inside_fill_far_outside_is_transparent() {
    let lc = inside_only();
    for d in [ONE + 1, 2 * ONE, 10 * ONE, 100 * ONE] {
        let c = lc.get_color(d);
        assert_eq!(c.a, 0);
        assert_eq!(c.r, 0);
        assert_eq!(c.g, 0);
        assert_eq!(c.b, 0);
    }
}

#[test]
fn test_inside_fill_band_continues_fill() {
    // With no outside fill the coverage blend leaves the inside color
    // unchanged across the whole transition band.
    let lc = inside_only();
    for d in [-ONE + 1, 0, ONE / 2, ONE] {
        assert_eq!(lc.get_color(d), red());
    }
}

#[test]
fn test_outside_only_band_fades_in() {
    // With no inside fill and a present outside fill, the transition band
    // blends from transparent up to the outside color: continuous with
    // both neighbouring zones.
    let lc = LayerColor { inside: None, border: None, outside: Some(Fill::Solid(red())) };
    // Band center: half coverage of the (premultiplied) outside color.
    let mid = lc.get_color(0);
    assert_eq!(mid.r, ONE / 2);
    assert_eq!(mid.a, ONE / 2);
    // Band's outer edge: the full outside color, matching the outside zone.
    assert_eq!(lc.get_color(ONE), red());
    assert_eq!(lc.get_color(2 * ONE), red());
    // Inner edge: (nearly) transparent, matching the inside zone.
    assert_eq!(lc.get_color(-ONE).a, 0);
    assert!(lc.get_color(-ONE + 1).a <= 1);
}

#[test]
fn test_border_zones() {
    let border_color = Color::new(0, 0, ONE, ONE);
    let lc = LayerColor {
        inside: Some(Fill::Solid(red())),
        border: Some(Border { position: BorderPosition::Outside, size: 5 * ONE, color: border_color }),
        outside: None,
    };
    // Outside threshold sits at the border width; inside threshold at zero.
    // Deep inside: the fill.
    assert_eq!(lc.get_color(-3 * ONE), red());
    // In the border zone: the border's own color.
    assert_eq!(lc.get_color(ONE), border_color);
    assert_eq!(lc.get_color(5 * ONE), border_color);
    // Far outside: transparent.
    assert_eq!(lc.get_color(5 * ONE + FUZZ + 1).a, 0);
    // In the border-to-outside band the blend target is absent (fully
    // transparent), so the coverage blend leaves the border color whole.
    let c = lc.get_color(5 * ONE + ONE);
    assert_eq!(c, border_color);
}

#[test]
fn test_center_border_thresholds() {
    let border_color = Color::new(0, ONE, 0, ONE);
    let lc = LayerColor {
        inside: None,
        border: Some(Border { position: BorderPosition::Center, size: 6 * ONE, color: border_color }),
        outside: None,
    };
    // A centered border of width 6 straddles the boundary by 3 each way.
    assert_eq!(lc.get_color(0), border_color);
    assert_eq!(lc.get_color(-2 * ONE), border_color);
    assert_eq!(lc.get_color(2 * ONE), border_color);
    // Well inside and well outside: transparent (no fills).
    assert_eq!(lc.get_color(-20 * ONE).a, 0);
    assert_eq!(lc.get_color(20 * ONE).a, 0);
}

#[test]
fn test_zero_size_border_acts_like_no_border() {
    let lc = LayerColor {
        inside: Some(Fill::Solid(red())),
        border: Some(Border {
            position: BorderPosition::Outside,
            size: 0,
            color: Color::new(0, 0, ONE, ONE),
        }),
        outside: None,
    };
    // A zero-width border disables the border regime entirely.
    assert_eq!(lc.get_color(-2 * ONE), red());
    assert_eq!(lc.get_color(2 * ONE).a, 0);
}

#[test]
fn test_fill_get_color() {
    let f = Fill::Solid(red());
    assert_eq!(f.get_color(-10 * ONE), red());
    assert_eq!(f.get_color(10 * ONE), red());
}
