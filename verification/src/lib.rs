//! Rendering pipeline for drawing 3-D wireframe geometry into a terminal
//! character grid: world-to-camera transformation, perspective projection,
//! near-plane clipping, Bresenham line rasterization into a boolean pixel
//! buffer, and packing of that buffer into block or braille glyphs.
//!
//! Coordinates are fixed-point numbers: an `i64` counts 1/65536ths of a
//! world unit, so that all geometry is exact integer arithmetic.

pub mod fixed;
pub mod model;
pub mod renderer;
pub mod screen;
pub mod three;
