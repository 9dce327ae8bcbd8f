use rayon::iter::{IntoParallelIterator, ParallelIterator};

use sdf2d::color::Color;
use sdf2d::font::{Char, Font};
use sdf2d::fx::ONE;
use sdf2d::layer::{Fill, LayerColor};
use sdf2d::sdf::{Circle, Object, OpSmoothUnion, SDF};
use sdf2d::transform::Transform;
use sdf2d::vec2::Vec2;
use sdf2d::world::{get_debug_transform, Layer, World};

fn test_font() -> Font {
    Font {
        size: 32 * ONE,
        line_height: 46 * ONE,
        base: 36 * ONE,
        scale_width: 64 * ONE,
        scale_height: 64 * ONE,
        chars: vec![Char {
            code: 63,
            width: 20 * ONE,
            height: 20 * ONE,
            x: 0,
            x_advance: 20 * ONE,
            x_offset: 0,
            y: 0,
            y_offset: 0,
        }],
        image: vec![0u8; 64 * 64],
    }
}

fn identity() -> Transform {
    Transform { x: 0, y: 0, rotation: 0, scale: ONE }
}

fn circle_node(radius: i64) -> Object {
    Object {
        transform: identity(),
        distortion: Vec::new(),
        parent_id: None,
        sdf: SDF::Circle(Circle { radius }),
    }
}

fn red_inside() -> LayerColor {
    LayerColor {
        inside: Some(Fill::Solid(Color::new(ONE, 0, 0, ONE))),
        border: None,
        outside: None,
    }
}

/// One circle of radius 50 at the origin under a solid red inside fill.
fn circle_world() -> World {
    let mut w = World::new(test_font());
    w.is_debug = false;
    w.objects.push(circle_node(50 * ONE));
    w.layers.push(Layer { shape: 0, color: red_inside() });
    w
}

#[test]
fn test_center_red_corner_black() {
    let w = circle_world();
    let frame = w.render(101, 101);
    assert_eq!(frame.len(), 101 * 101 * 4);
    // The pixel at the image center is deep inside the circle: opaque red.
    let center = (50 * 101 + 50) * 4;
    assert_eq!(&frame[center..center + 4], &[255, 0, 0, 255]);
    // The corner pixel is far outside every layer: the opaque black
    // background.
    assert_eq!(&frame[0..4], &[0, 0, 0, 255]);
    // Every pixel is fully opaque.
    for px in frame.chunks_exact(4) {
        assert_eq!(px[3], 255);
    }
}

#[test]
fn test_parallel_rows_match_sequential_frame() {
    let mut w = World::new(test_font());
    w.init();
    w.update(ONE);
    let width = 64;
    let height = 64;
    let sequential = w.render(width, height);
    let rows: Vec<Vec<u8>> = (0..height)
        .into_par_iter()
        .map(|j| w.render_row(width, height, j))
        .collect();
    let parallel: Vec<u8> = rows.into_iter().flatten().collect();
    assert_eq!(sequential, parallel);
}

#[test]
fn test_render_row_matches_frame_slice() {
    let w = circle_world();
    let frame = w.render(32, 32);
    for j in [0usize, 7, 31] {
        let row = w.render_row(32, 32, j);
        assert_eq!(&frame[j * 32 * 4..(j + 1) * 32 * 4], &row[..]);
    }
}

#[test]
fn test_init_builds_scene_once() {
    let mut w = World::new(test_font());
    assert!(!w.is_initialized);
    w.init();
    assert!(w.is_initialized);
    assert_eq!(w.objects.len(), 7);
    assert_eq!(w.layers.len(), 5);
    match &w.objects[0].sdf {
        SDF::OpSmoothUnion(u) => {
            assert_eq!(u.sdf_1, 1);
            assert_eq!(u.sdf_2, 2);
            assert_eq!(u.fuzz, 25 * ONE);
        },
        _ => panic!("the root node is the smooth union"),
    }
    // Running it again changes nothing.
    let shape0 = w.layers[0].shape;
    w.init();
    assert_eq!(w.objects.len(), 7);
    assert_eq!(w.layers[0].shape, shape0);
}

#[test]
fn test_update_at_time_zero() {
    let mut w = World::new(test_font());
    w.init();
    w.update(0);
    // All the animated sines vanish at time zero.
    assert_eq!(w.objects[0].transform.rotation, 0);
    assert_eq!(w.objects[0].transform.scale, ONE);
    match &w.objects[0].sdf {
        SDF::OpSmoothUnion(u) => assert_eq!(u.fuzz, 25 * ONE),
        _ => panic!("the root node is the smooth union"),
    }
}

#[test]
fn test_get_debug_transform_walks_ancestors() {
    let mut root = circle_node(10 * ONE);
    root.transform = Transform { x: 10 * ONE, y: -2 * ONE, rotation: 30 * ONE, scale: 2 * ONE };
    let mut child = circle_node(5 * ONE);
    child.parent_id = Some(0);
    child.transform = Transform { x: ONE, y: ONE, rotation: 5 * ONE, scale: ONE };
    let arena = vec![root, child];
    // The chain of the child excludes its own transform: only the root's.
    let t = get_debug_transform(1, &arena);
    assert_eq!(t.x, 10 * ONE);
    assert_eq!(t.y, -2 * ONE);
    assert_eq!(t.rotation, 30 * ONE);
    assert_eq!(t.scale, 2 * ONE);
    // A node with no ancestors accumulates the identity.
    let t0 = get_debug_transform(0, &arena);
    assert_eq!(t0.x, 0);
    assert_eq!(t0.scale, ONE);
}

#[test]
fn test_debug_outline_changes_selected_pixels() {
    let mut w = circle_world();
    let plain = w.render(101, 101);
    w.is_debug = true;
    w.selected_id = 0;
    w.debug_transform = identity();
    let outlined = w.render(101, 101);
    assert_ne!(plain, outlined);
    // Pixels well inside the circle are untouched by the ring.
    let center = (50 * 101 + 50) * 4;
    assert_eq!(&plain[center..center + 4], &outlined[center..center + 4]);
}

#[test]
fn test_empty_layer_stack_is_black() {
    let mut w = World::new(test_font());
    w.is_debug = false;
    let frame = w.render(8, 8);
    for px in frame.chunks_exact(4) {
        assert_eq!(px, &[0, 0, 0, 255]);
    }
}

#[test]
fn test_layers_composite_top_to_bottom() {
    // Two overlapping opaque layers: the top (first) one wins.
    let mut w = World::new(test_font());
    w.is_debug = false;
    w.objects.push(circle_node(50 * ONE));
    w.objects.push(circle_node(30 * ONE));
    let green = LayerColor {
        inside: Some(Fill::Solid(Color::new(0, ONE, 0, ONE))),
        border: None,
        outside: None,
    };
    w.layers.push(Layer { shape: 1, color: green });
    w.layers.push(Layer { shape: 0, color: red_inside() });
    let frame = w.render(101, 101);
    let center = (50 * 101 + 50) * 4;
    // The smaller green circle sits on top at the center.
    assert_eq!(&frame[center..center + 4], &[0, 255, 0, 255]);
    // Forty pixels out only the red circle covers the point.
    let off = (50 * 101 + 90) * 4;
    assert_eq!(&frame[off..off + 4], &[255, 0, 0, 255]);
}
