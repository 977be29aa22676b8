//! The boundary between the rasterization core and the pixel buffer: a color
//! payload, the sink that receives pixels, and the trait shared by every
//! drawable shape.

use vstd::prelude::*;
use crate::rng::random_number;

verus! {

/// An RGBA color, carried unchanged to the sink with every pixel. A shape
/// picks one color and shares it across all of its pixels (a triangle's three
/// edges each pick their own).
#[derive(Clone, Copy, Debug, PartialEq, Eq, Structural)]
pub struct Color {
    pub r: u8,
    pub g: u8,
    pub b: u8,
    pub a: u8,
}

/// A pixel sink. An implementation must accept any coordinates and ignore
/// those outside its own bounds: the rasterizers never pre-clip.
pub trait Displayable {
    fn display(&mut self, x: i32, y: i32, color: Color);
}

/// A shape that can rasterize itself into a pixel sink.
pub trait Drawable {
    /// The coordinate ranges the shape must stay in so that drawing cannot
    /// overflow; `true` for every shape except the circle.
    spec fn wf(&self) -> bool;

    /// Write every rasterized pixel of the shape into the sink.
    fn draw<C: Displayable>(&self, canvas: &mut C)
        requires
            self.wf(),
    ;

    /// A color chosen at random, always fully opaque.
    fn color() -> (c: Color)
        ensures
            c.a == 255,
    {
        Color {
            r: random_number(0, 255) as u8,
            g: random_number(0, 255) as u8,
            b: random_number(0, 255) as u8,
            a: 255,
        }
    }
}

} // verus!
