//! Rasterization of basic 2D primitives (points, lines, circles, triangles,
//! rectangles) into discrete pixel coordinates, using integer arithmetic only.
//! Shapes are written through a caller-supplied pixel sink; the library never
//! clips, and out-of-bounds pixels are the sink's responsibility.

pub mod arith;
pub mod canvas;
pub mod circle;
pub mod line;
pub mod point;
pub mod rectangle;
mod rng;
pub mod triangle;
