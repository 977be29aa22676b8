//! The axis-aligned rectangle: an unfilled outline given by two opposite
//! corners, in any order. The outline is two horizontal spans and two
//! vertical spans; no interior pixel is ever produced.

use vstd::prelude::*;
use vstd::math::{max, min};
use crate::canvas::{Displayable, Drawable};
use crate::point::{coords, lemma_coords_push, Point};

verus! {

/// A coordinate pair lies on the outline of the rectangle spanned by the two
/// corners exactly when it is inside the closed bounding box and on one of
/// its four boundary edges.
pub open spec fn on_rect_outline(q: (int, int), c1: (int, int), c2: (int, int)) -> bool {
    &&& min(c1.0, c2.0) <= q.0 <= max(c1.0, c2.0)
    &&& min(c1.1, c2.1) <= q.1 <= max(c1.1, c2.1)
    &&& (q.0 == min(c1.0, c2.0) || q.0 == max(c1.0, c2.0) || q.1 == min(c1.1, c2.1) || q.1
        == max(c1.1, c2.1))
}

/// Two opposite corners, in either relation to each other on both axes; the
/// span is normalized when rasterizing.
#[derive(Clone, Copy, Debug, PartialEq, Eq, Structural)]
pub struct Rectangle {
    pub x1: Point,
    pub x2: Point,
}

impl Rectangle {
    pub fn new(x1: &Point, x2: &Point) -> (rect: Self)
        ensures
            rect.x1@ == x1@,
            rect.x2@ == x2@,
    {
        Rectangle { x1: Point::new(x1.x, x1.y), x2: Point::new(x2.x, x2.y) }
    }

    /// Exactly the four boundary edges of the rectangle, no interior point.
    pub fn points(&self) -> (v: Vec<Point>)
        ensures
            forall|q: (int, int)|
                #![trigger coords(v@).contains(q)]
                #![trigger on_rect_outline(q, self.x1@, self.x2@)]
                coords(v@).contains(q) <==> on_rect_outline(q, self.x1@, self.x2@),
    {
        let ghost c1: (int, int) = self.x1@;
        let ghost c2: (int, int) = self.x2@;
        let xmin: i32 = if self.x1.x <= self.x2.x {
            self.x1.x
        } else {
            self.x2.x
        };
        let xmax: i32 = if self.x1.x <= self.x2.x {
            self.x2.x
        } else {
            self.x1.x
        };
        let ymin: i32 = if self.x1.y <= self.x2.y {
            self.x1.y
        } else {
            self.x2.y
        };
        let ymax: i32 = if self.x1.y <= self.x2.y {
            self.x2.y
        } else {
            self.x1.y
        };
        let mut v: Vec<Point> = Vec::new();
        let mut x: i64 = xmin as i64;
        while x <= xmax as i64
            invariant
                xmin as int == min(c1.0, c2.0),
                xmax as int == max(c1.0, c2.0),
                ymin as int == min(c1.1, c2.1),
                ymax as int == max(c1.1, c2.1),
                xmin as int <= x <= xmax as int + 1,
                forall|k: int|
                    0 <= k < v@.len() ==> on_rect_outline(#[trigger] v@[k]@, c1, c2),
                forall|q: (int, int)|
                    #![trigger coords(v@).contains(q)]
                    ((q.1 == ymin as int || q.1 == ymax as int) && xmin as int <= q.0 < x)
                        ==> coords(v@).contains(q),
            decreases xmax as int + 1 - x,
        {
            let p1 = Point::new(x as i32, ymin);
            let p2 = Point::new(x as i32, ymax);
            let ghost v0: Seq<Point> = v@;
            v.push(p1);
            proof {
                lemma_coords_push(v0, p1);
            }
            let ghost v1: Seq<Point> = v@;
            v.push(p2);
            proof {
                lemma_coords_push(v1, p2);
                assert forall|q: (int, int)|
                    ((q.1 == ymin as int || q.1 == ymax as int) && xmin as int <= q.0 < x
                        + 1) implies #[trigger] coords(v@).contains(q) by {
                    if q.0 == x {
                        assert(q == p1@ || q == p2@);
                    } else {
                        assert(coords(v0).contains(q));
                    }
                }
            }
            x = x + 1;
        }
        let mut y: i64 = ymin as i64;
        while y <= ymax as i64
            invariant
                xmin as int == min(c1.0, c2.0),
                xmax as int == max(c1.0, c2.0),
                ymin as int == min(c1.1, c2.1),
                ymax as int == max(c1.1, c2.1),
                ymin as int <= y <= ymax as int + 1,
                forall|k: int|
                    0 <= k < v@.len() ==> on_rect_outline(#[trigger] v@[k]@, c1, c2),
                forall|q: (int, int)|
                    #![trigger coords(v@).contains(q)]
                    ((q.1 == ymin as int || q.1 == ymax as int) && xmin as int <= q.0 <= xmax
                        as int) ==> coords(v@).contains(q),
                forall|q: (int, int)|
                    #![trigger coords(v@).contains(q)]
                    ((q.0 == xmin as int || q.0 == xmax as int) && ymin as int <= q.1 < y)
                        ==> coords(v@).contains(q),
            decreases ymax as int + 1 - y,
        {
            let p1 = Point::new(xmin, y as i32);
            let p2 = Point::new(xmax, y as i32);
            let ghost v0: Seq<Point> = v@;
            v.push(p1);
            proof {
                lemma_coords_push(v0, p1);
            }
            let ghost v1: Seq<Point> = v@;
            v.push(p2);
            proof {
                lemma_coords_push(v1, p2);
                assert forall|q: (int, int)|
                    ((q.1 == ymin as int || q.1 == ymax as int) && xmin as int <= q.0 <= xmax
                        as int) implies #[trigger] coords(v@).contains(q) by {
                    assert(coords(v0).contains(q));
                }
                assert forall|q: (int, int)|
                    ((q.0 == xmin as int || q.0 == xmax as int) && ymin as int <= q.1 < y
                        + 1) implies #[trigger] coords(v@).contains(q) by {
                    if q.1 == y {
                        assert(q == p1@ || q == p2@);
                    } else {
                        assert(coords(v0).contains(q));
                    }
                }
            }
            y = y + 1;
        }
        proof {
            assert forall|q: (int, int)|
                on_rect_outline(q, c1, c2) implies #[trigger] coords(v@).contains(q) by {
                if q.1 == ymin as int || q.1 == ymax as int {
                    assert(coords(v@).contains(q));
                } else {
                    assert(q.0 == xmin as int || q.0 == xmax as int);
                    assert(coords(v@).contains(q));
                }
            }
            assert forall|q: (int, int)|
                coords(v@).contains(q) implies on_rect_outline(q, c1, c2) by {
                let k = choose|k: int| 0 <= k < coords(v@).len() && coords(v@)[k] == q;
                assert(v@[k]@ == q);
            }
        }
        v
    }
}

impl Drawable for Rectangle {
    open spec fn wf(&self) -> bool {
        true
    }

    /// Rasterize the outline and write every pixel with one shared color.
    fn draw<C: Displayable>(&self, canvas: &mut C) {
        let color = Self::color();
        let pts = self.points();
        let mut i: usize = 0;
        while i < pts.len()
            invariant
                i <= pts@.len(),
            decreases pts@.len() - i,
        {
            let p = pts[i];
            canvas.display(p.x, p.y, color);
            i = i + 1;
        }
    }
}

} // verus!
