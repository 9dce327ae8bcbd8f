use sdf2d::fx::ONE;
use sdf2d::utils::{lerp, smoothstep};

#[test]
fn test_lerp() {
    // Test clamping
    assert_eq!(lerp(0, ONE, -ONE), 0);
    assert_eq!(lerp(0, ONE, 2 * ONE), ONE);

    // 0.0 to 1.0
    assert_eq!(lerp(0, ONE, 0), 0);
    assert_eq!(lerp(0, ONE, ONE / 4), ONE / 4);
    assert_eq!(lerp(0, ONE, ONE / 2), ONE / 2);
    assert_eq!(lerp(0, ONE, 3 * ONE / 4), 3 * ONE / 4);
    assert_eq!(lerp(0, ONE, ONE), ONE);

    // 1.0 to 0.0
    assert_eq!(lerp(ONE, 0, ONE / 4), 3 * ONE / 4);
    assert_eq!(lerp(ONE, 0, ONE / 2), ONE / 2);
    assert_eq!(lerp(ONE, 0, 3 * ONE / 4), ONE / 4);
}

#[test]
fn test_smoothstep() {
    assert_eq!(smoothstep(0, 10 * ONE, -5 * ONE), 0);
    assert_eq!(smoothstep(0, 10 * ONE, 0), 0);
    assert_eq!(smoothstep(0, 10 * ONE, 5 * ONE), ONE / 2);
    assert_eq!(smoothstep(0, 10 * ONE, 10 * ONE), ONE);
    assert_eq!(smoothstep(0, 10 * ONE, 15 * ONE), ONE);

    assert_eq!(smoothstep(10 * ONE, 0, 15 * ONE), 0);
    assert_eq!(smoothstep(10 * ONE, 0, 10 * ONE), 0);
    assert_eq!(smoothstep(10 * ONE, 0, 5 * ONE), ONE / 2);
    assert_eq!(smoothstep(10 * ONE, 0, 0), ONE);
    assert_eq!(smoothstep(10 * ONE, 0, -5 * ONE), ONE);

    assert_eq!(smoothstep(-10 * ONE, -20 * ONE, -5 * ONE), 0);
    assert_eq!(smoothstep(-10 * ONE, -20 * ONE, -10 * ONE), 0);
    assert_eq!(smoothstep(-10 * ONE, -20 * ONE, -15 * ONE), ONE / 2);
    assert_eq!(smoothstep(-10 * ONE, -20 * ONE, -20 * ONE), ONE);
    assert_eq!(smoothstep(-10 * ONE, -20 * ONE, -25 * ONE), ONE);
}

#[test]
fn test_smoothstep_equal_ends_is_constant() {
    assert_eq!(smoothstep(7 * ONE, 7 * ONE, -100 * ONE), 7 * ONE);
    assert_eq!(smoothstep(7 * ONE, 7 * ONE, 100 * ONE), 7 * ONE);
}

#[test]
fn test_smoothstep_monotone_samples() {
    let mut prev = smoothstep(0, 10 * ONE, -ONE);
    let mut t = -ONE;
    while t <= 11 * ONE {
        let v = smoothstep(0, 10 * ONE, t);
        assert!(v >= prev);
        assert!((0..=ONE).contains(&v));
        prev = v;
        t += ONE / 2;
    }
}
