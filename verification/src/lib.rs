//! A 2D signed-distance-field renderer over fixed-point arithmetic.
//!
//! A scene is an arena of nodes; each node owns a transform, a chain of
//! point distortions and a distance evaluator (circle, rectangle, bitmap-font
//! text, or a smooth boolean union of two other nodes referenced by index).
//! Per pixel, the evaluated distance is turned into a color by a layered
//! fill/border/outside zone model and composited back to front.
//!
//! Every scalar quantity (coordinate, distance, angle, color channel) is an
//! `i64` counting 1/65536-ths of a unit, so the whole pipeline is exact
//! integer arithmetic with stated rounding.

pub mod color;
pub mod distortion;
pub mod font;
pub mod fx;
pub mod layer;
pub mod sdf;
pub mod text;
pub mod transform;
pub mod utils;
pub mod vec2;
pub mod world;
