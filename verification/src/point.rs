//! The 2D integer coordinate that every shape is built from.

use vstd::prelude::*;
use crate::arith::{is_rounded_sqrt, rounded_sqrt, lemma_rounded_sqrt_le, sq};
use crate::canvas::{Displayable, Drawable};
use crate::rng::random_number;

verus! {

/// A 2D integer coordinate. Validity against a canvas is not an invariant
/// here: it is enforced only where a pixel is written to the sink.
#[derive(Clone, Copy, Debug, PartialEq, Eq, Structural)]
pub struct Point {
    pub x: i32,
    pub y: i32,
}

impl View for Point {
    type V = (int, int);

    open spec fn view(&self) -> (int, int) {
        (self.x as int, self.y as int)
    }
}

/// The coordinate pairs held by a sequence of points.
pub open spec fn coords(s: Seq<Point>) -> Seq<(int, int)> {
    s.map_values(|p: Point| p@)
}

/// Appending a point keeps every coordinate pair already present, and adds
/// the appended one.
pub(crate) proof fn lemma_coords_push(s: Seq<Point>, p: Point)
    ensures
        forall|q: (int, int)|
            coords(s).contains(q) ==> #[trigger] coords(s.push(p)).contains(q),
        coords(s.push(p)).contains(p@),
{
    assert forall|q: (int, int)|
        coords(s).contains(q) implies #[trigger] coords(s.push(p)).contains(q) by {
        let k = choose|k: int| 0 <= k < coords(s).len() && coords(s)[k] == q;
        assert(coords(s.push(p))[k] == q);
    }
    assert(coords(s.push(p))[s.len() as int] == p@);
}

/// Squared Euclidean distance between two coordinate pairs.
pub open spec fn dist_sq(a: (int, int), b: (int, int)) -> int {
    sq(a.0 - b.0) + sq(a.1 - b.1)
}

impl Point {
    pub fn new(x: i32, y: i32) -> (p: Self)
        ensures
            p@ == (x as int, y as int),
    {
        Point { x, y }
    }

    /// A point sampled uniformly with `x` in `[0, max_w)`, `y` in `[0, max_h)`.
    pub fn random(max_w: i32, max_h: i32) -> (p: Self)
        requires
            1 <= max_w,
            1 <= max_h,
        ensures
            0 <= p@.0 < max_w,
            0 <= p@.1 < max_h,
    {
        Point { x: random_number(0, max_w), y: random_number(0, max_h) }
    }

    /// Euclidean distance to `other`, rounded to the nearest integer. The
    /// bound on the squared distance is exactly what makes the result fit in
    /// an `i32`.
    pub fn distance(&self, other: &Point) -> (d: i32)
        requires
            dist_sq(self@, other@) <= 0x7fff_ffff * 0x8000_0000,
        ensures
            is_rounded_sqrt(dist_sq(self@, other@), d as int),
    {
        let adx: u64 = if self.x >= other.x {
            (self.x as i64 - other.x as i64) as u64
        } else {
            (other.x as i64 - self.x as i64) as u64
        };
        let ady: u64 = if self.y >= other.y {
            (self.y as i64 - other.y as i64) as u64
        } else {
            (other.y as i64 - self.y as i64) as u64
        };
        proof {
            assert((adx as int) * (adx as int) == sq(self@.0 - other@.0)) by (nonlinear_arith)
                requires
                    adx as int == self@.0 - other@.0 || adx as int == other@.0 - self@.0,
            ;
            assert((ady as int) * (ady as int) == sq(self@.1 - other@.1)) by (nonlinear_arith)
                requires
                    ady as int == self@.1 - other@.1 || ady as int == other@.1 - self@.1,
            ;
        }
        let n: u128 = (adx as u128) * (adx as u128) + (ady as u128) * (ady as u128);
        let r: u128 = rounded_sqrt(n);
        proof {
            assert(sq(2 * 0x7fff_ffffint + 1) == 0xffff_ffff * 0xffff_ffff);
            lemma_rounded_sqrt_le(n as int, r as int, 0x7fff_ffff);
        }
        r as i32
    }
}

impl Drawable for Point {
    open spec fn wf(&self) -> bool {
        true
    }

    /// A point draws as its own single pixel.
    fn draw<C: Displayable>(&self, canvas: &mut C) {
        canvas.display(self.x, self.y, Self::color());
    }
}

} // verus!
