//! The triangle: an outline composed of three independently rasterized line
//! segments connecting the vertices in cyclic order.

use vstd::prelude::*;
use crate::canvas::{Displayable, Drawable};
use crate::line::{line_seq, Line};
use crate::point::{coords, Point};

verus! {

/// Three vertices; their order fixes the three edges.
#[derive(Clone, Copy, Debug, PartialEq, Eq, Structural)]
pub struct Triangle {
    pub x1: Point,
    pub x2: Point,
    pub x3: Point,
}

impl Triangle {
    pub fn new(x1: &Point, x2: &Point, x3: &Point) -> (t: Self)
        ensures
            t.x1@ == x1@,
            t.x2@ == x2@,
            t.x3@ == x3@,
    {
        Triangle {
            x1: Point::new(x1.x, x1.y),
            x2: Point::new(x2.x, x2.y),
            x3: Point::new(x3.x, x3.y),
        }
    }

    /// The outline: exactly the concatenation of the three edge
    /// rasterizations, each valid on its own.
    pub fn points(&self) -> (v: Vec<Point>)
        ensures
            coords(v@) == line_seq(self.x1@, self.x2@) + line_seq(self.x2@, self.x3@)
                + line_seq(self.x3@, self.x1@),
    {
        let mut v = Line::new(&self.x1, &self.x2).points();
        let mut e2 = Line::new(&self.x2, &self.x3).points();
        let mut e3 = Line::new(&self.x3, &self.x1).points();
        let ghost s1: Seq<Point> = v@;
        let ghost s2: Seq<Point> = e2@;
        let ghost s3: Seq<Point> = e3@;
        v.append(&mut e2);
        v.append(&mut e3);
        proof {
            assert(v@ == s1 + s2 + s3);
            assert(coords(v@) =~= coords(s1) + coords(s2) + coords(s3));
        }
        v
    }
}

impl Drawable for Triangle {
    open spec fn wf(&self) -> bool {
        true
    }

    /// Draw the three edges one after the other; each edge picks its own
    /// color.
    fn draw<C: Displayable>(&self, canvas: &mut C) {
        let line1 = Line::new(&self.x1, &self.x2);
        let line2 = Line::new(&self.x2, &self.x3);
        let line3 = Line::new(&self.x3, &self.x1);
        line1.draw(canvas);
        line2.draw(canvas);
        line3.draw(canvas);
    }
}

} // verus!
