use sdf2d::fx::ONE;
use sdf2d::sdf::{Circle, Object, OpSmoothUnion, Square, SDF};
use sdf2d::transform::Transform;
use sdf2d::vec2::Vec2;

fn identity() -> Transform {
    Transform { x: 0, y: 0, rotation: 0, scale: ONE }
}

fn circle_node(x: i64, y: i64, radius: i64) -> Object {
    Object {
        transform: Transform { x, y, rotation: 0, scale: ONE },
        distortion: Vec::new(),
        parent_id: None,
        sdf: SDF::Circle(Circle { radius }),
    }
}

#[test]
fn test_circle_distance() {
    let arena: Vec<Object> = Vec::new();
    let c = Circle { radius: 50 * ONE };
    // At the center: minus the radius.
    assert_eq!(c.get_distance(&arena, Vec2::new(0, 0)), -50 * ONE);
    // On the boundary: zero (both on an axis and on a 3-4-5 diagonal).
    assert_eq!(c.get_distance(&arena, Vec2::new(50 * ONE, 0)), 0);
    assert_eq!(c.get_distance(&arena, Vec2::new(30 * ONE, 40 * ONE)), 0);
    // At twice the radius: the radius again.
    assert_eq!(c.get_distance(&arena, Vec2::new(100 * ONE, 0)), 50 * ONE);
    assert_eq!(c.get_distance(&arena, Vec2::new(0, -100 * ONE)), 50 * ONE);
}

#[test]
fn test_square_distance() {
    let arena: Vec<Object> = Vec::new();
    let s = Square { size: Vec2::new(10 * ONE, 5 * ONE) };
    // Inside the box: negative offset to the nearest edge.
    assert_eq!(s.get_distance(&arena, Vec2::new(0, 0)), -5 * ONE);
    // On an edge: zero.
    assert_eq!(s.get_distance(&arena, Vec2::new(10 * ONE, 0)), 0);
    // Straight out along x.
    assert_eq!(s.get_distance(&arena, Vec2::new(13 * ONE, 0)), 3 * ONE);
    // Out past a corner: Euclidean distance to it.
    assert_eq!(
        s.get_distance(&arena, Vec2::new(13 * ONE, 9 * ONE)),
        5 * ONE
    );
}

#[test]
fn test_object_scales_distance() {
    let arena: Vec<Object> = Vec::new();
    let mut node = circle_node(0, 0, 50 * ONE);
    node.transform.scale = 2 * ONE;
    // The local point is halved, the result doubled: metric distances.
    let d = node.get_distance(&arena, Vec2::new(200 * ONE, 0));
    assert_eq!(d, 100 * ONE);
}

#[test]
fn test_smooth_union_converges_to_min() {
    // A union of two circles, with the smallest possible fuzz: the blend
    // must stay within that fuzz of the plain minimum everywhere.
    let fuzz: i64 = 1;
    let arena = vec![
        Object {
            transform: identity(),
            distortion: Vec::new(),
            parent_id: None,
            sdf: SDF::OpSmoothUnion(OpSmoothUnion { sdf_1: 1, sdf_2: 2, fuzz }),
        },
        circle_node(-40 * ONE, 0, 30 * ONE),
        circle_node(40 * ONE, 10 * ONE, 20 * ONE),
    ];
    let samples = [
        (0, 0),
        (-40 * ONE, 0),
        (40 * ONE, 10 * ONE),
        (-80 * ONE, 23 * ONE),
        (100 * ONE, -7 * ONE),
        (3 * ONE, 99 * ONE),
    ];
    for (x, y) in samples {
        let p = Vec2::new(x, y);
        let u = sdf2d::sdf::eval_at(&arena, 0, p);
        let d1 = sdf2d::sdf::eval_at(&arena, 1, p);
        let d2 = sdf2d::sdf::eval_at(&arena, 2, p);
        let m = d1.min(d2);
        assert!((u - m).abs() <= fuzz, "{u} vs {m}");
    }
}

#[test]
fn test_smooth_union_blends_between_operands() {
    // With a large fuzz and operands of equal distance, the union digs
    // below the minimum by a quarter of the fuzz (the rounded blend).
    let fuzz = 8 * ONE;
    let arena = vec![
        Object {
            transform: identity(),
            distortion: Vec::new(),
            parent_id: None,
            sdf: SDF::OpSmoothUnion(OpSmoothUnion { sdf_1: 1, sdf_2: 2, fuzz }),
        },
        circle_node(-40 * ONE, 0, 30 * ONE),
        circle_node(40 * ONE, 0, 30 * ONE),
    ];
    let p = Vec2::new(0, 0);
    let u = sdf2d::sdf::eval_at(&arena, 0, p);
    let d1 = sdf2d::sdf::eval_at(&arena, 1, p);
    let d2 = sdf2d::sdf::eval_at(&arena, 2, p);
    assert_eq!(d1, d2);
    assert_eq!(u, d1 - fuzz / 4);
}

#[test]
fn test_transform_rotation_quarter_turn() {
    let t = Transform { x: 0, y: 0, rotation: 90 * ONE, scale: ONE };
    // Mapping rotates the point by the negated rotation: a quarter turn
    // sends the local y axis onto x.
    let p = t.map(Vec2::new(0, 10 * ONE));
    assert_eq!(p.x, 10 * ONE);
    assert_eq!(p.y, 0);
    let q = t.map(Vec2::new(10 * ONE, 0));
    assert_eq!(q.x, 0);
    assert_eq!(q.y, -10 * ONE);
}

#[test]
fn test_transform_translate_and_scale() {
    let t = Transform { x: 5 * ONE, y: -3 * ONE, rotation: 0, scale: 2 * ONE };
    let p = t.map(Vec2::new(9 * ONE, ONE));
    assert_eq!(p.x, 2 * ONE);
    assert_eq!(p.y, 2 * ONE);
}

#[test]
fn test_transform_apply_accumulates() {
    let mut acc = Transform::new();
    acc.apply(Transform { x: ONE, y: 2 * ONE, rotation: 30 * ONE, scale: 2 * ONE });
    acc.apply(Transform { x: 10 * ONE, y: -ONE, rotation: -10 * ONE, scale: 3 * ONE });
    assert_eq!(acc.x, 11 * ONE);
    assert_eq!(acc.y, ONE);
    assert_eq!(acc.rotation, 20 * ONE);
    assert_eq!(acc.scale, 6 * ONE);
}
