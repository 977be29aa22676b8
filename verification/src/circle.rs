//! Circle rasterization by membership filter and symmetry: only the first
//! quadrant is scanned for points whose rounded distance to the center equals
//! the radius; the other three quadrants are reflections of it, so no
//! distance is ever recomputed for a mirrored point.

use vstd::prelude::*;
use crate::arith::{is_rounded_sqrt, lemma_rounded_sqrt_big, lemma_rounded_sqrt_unique, sq};
use crate::canvas::{Displayable, Drawable};
use crate::point::{coords, dist_sq, lemma_coords_push, Point};
use crate::rng::random_number;

verus! {

/// A coordinate pair lies on the rasterized circle exactly when its distance
/// to the center, rounded to the nearest integer, equals the radius.
pub open spec fn on_circle(q: (int, int), c: (int, int), r: int) -> bool {
    is_rounded_sqrt(dist_sq(q, c), r)
}

/// The circle's point set is symmetric under reflection across the vertical
/// and the horizontal axis through the center.
pub proof fn lemma_circle_symmetry(q: (int, int), c: (int, int), r: int)
    ensures
        on_circle(q, c, r) == on_circle((2 * c.0 - q.0, q.1), c, r),
        on_circle(q, c, r) == on_circle((q.0, 2 * c.1 - q.1), c, r),
{
    assert(sq(c.0 - q.0) == sq(q.0 - c.0)) by (nonlinear_arith);
    assert(sq(c.1 - q.1) == sq(q.1 - c.1)) by (nonlinear_arith);
}

/// A circle of radius zero degenerates to its center and nothing else.
pub proof fn lemma_circle_radius_zero(q: (int, int), c: (int, int))
    ensures
        on_circle(q, c, 0) <==> q == c,
{
    if q == c {
        assert(dist_sq(q, c) == 0);
        assert(on_circle(q, c, 0));
    }
    if on_circle(q, c, 0) {
        assert(sq(q.0 - c.0) >= 0 && sq(q.1 - c.1) >= 0) by (nonlinear_arith);
        assert(sq(1int) == 1);
        assert(4 * dist_sq(q, c) < sq(2 * 0int + 1));
        assert(sq(q.0 - c.0) == 0 && sq(q.1 - c.1) == 0);
        assert(q.0 == c.0 && q.1 == c.1) by (nonlinear_arith)
            requires
                (q.0 - c.0) * (q.0 - c.0) == 0,
                (q.1 - c.1) * (q.1 - c.1) == 0,
        ;
        assert(q == c);
    }
}

/// The four points where the circle meets the axes through its center are
/// always part of the rasterization: their distance to the center is the
/// radius itself, no rounding involved.
pub proof fn lemma_circle_axis_points(c: (int, int), r: int)
    requires
        0 <= r,
    ensures
        on_circle((c.0 + r, c.1), c, r),
        on_circle((c.0 - r, c.1), c, r),
        on_circle((c.0, c.1 + r), c, r),
        on_circle((c.0, c.1 - r), c, r),
{
    assert(4 * (r * r) < (2 * r + 1) * (2 * r + 1) && (r == 0 || (2 * r - 1) * (2 * r - 1)
        <= 4 * (r * r))) by (nonlinear_arith)
        requires
            0 <= r,
    ;
    assert(is_rounded_sqrt(r * r, r));
    assert(dist_sq((c.0 + r, c.1), c) == r * r) by (nonlinear_arith);
    assert(dist_sq((c.0 - r, c.1), c) == r * r) by (nonlinear_arith);
    assert(dist_sq((c.0, c.1 + r), c) == r * r) by (nonlinear_arith);
    assert(dist_sq((c.0, c.1 - r), c) == r * r) by (nonlinear_arith);
}

/// Every point of the circle lies in the square of side `2r` around the
/// center.
pub proof fn lemma_on_circle_box(q: (int, int), c: (int, int), r: int)
    requires
        on_circle(q, c, r),
    ensures
        c.0 - r <= q.0 <= c.0 + r,
        c.1 - r <= q.1 <= c.1 + r,
{
    assert(c.0 - r <= q.0 <= c.0 + r && c.1 - r <= q.1 <= c.1 + r) by (nonlinear_arith)
        requires
            0 <= r,
            4 * (sq(q.0 - c.0) + sq(q.1 - c.1)) < sq(2 * r + 1),
    ;
}

/// A circle: a center and a non-negative radius. The radius may exceed any
/// canvas; clipping is the pixel sink's concern.
#[derive(Clone, Copy, Debug, PartialEq, Eq, Structural)]
pub struct Circle {
    pub center: Point,
    pub r: i32,
}

impl Circle {
    /// The square of side `2r` around the center stays inside the `i32`
    /// range, so rasterization cannot overflow.
    pub open spec fn in_range(&self) -> bool {
        &&& 0 <= self.r
        &&& i32::MIN <= self.center@.0 - self.r
        &&& self.center@.0 + self.r <= i32::MAX
        &&& i32::MIN <= self.center@.1 - self.r
        &&& self.center@.1 + self.r <= i32::MAX
    }

    pub fn new(center: &Point, r: i32) -> (c: Self)
        requires
            0 <= r,
        ensures
            c.center@ == center@,
            c.r == r,
    {
        Circle { center: Point::new(center.x, center.y), r }
    }

    /// A circle with a uniformly sampled center in `[0, max_w) x [0, max_h)`
    /// and a uniformly sampled radius in `[0, max_w)`.
    pub fn random(max_w: i32, max_h: i32) -> (c: Self)
        requires
            1 <= max_w,
            1 <= max_h,
        ensures
            0 <= c.center@.0 < max_w,
            0 <= c.center@.1 < max_h,
            0 <= c.r < max_w,
    {
        Circle { center: Point::random(max_w, max_h), r: random_number(0, max_w) }
    }

    /// Every pixel whose rounded distance to the center equals the radius,
    /// each exactly once: the first quadrant is found by scanning, the rest
    /// by reflection.
    pub fn points(&self) -> (v: Vec<Point>)
        requires
            self.in_range(),
        ensures
            forall|q: (int, int)|
                #![trigger on_circle(q, self.center@, self.r as int)]
                #![trigger coords(v@).contains(q)]
                coords(v@).contains(q) <==> on_circle(q, self.center@, self.r as int),
    {
        let cx: i32 = self.center.x;
        let cy: i32 = self.center.y;
        let rr: i32 = self.r;
        let ghost c: (int, int) = self.center@;
        let ghost ri: int = self.r as int;
        let mut quarter: Vec<Point> = Vec::new();
        let mut a: i64 = 0;
        while a <= rr as i64
            invariant
                self.in_range(),
                c == self.center@,
                ri == self.r as int,
                cx as int == c.0,
                cy as int == c.1,
                rr as int == ri,
                0 <= a <= ri + 1,
                forall|k: int|
                    0 <= k < quarter@.len() ==> {
                        let p = #[trigger] quarter@[k]@;
                        on_circle(p, c, ri) && c.0 <= p.0 <= c.0 + ri && c.1 <= p.1 <= c.1 + ri
                    },
                forall|q: (int, int)|
                    #![trigger on_circle(q, c, ri)]
                    (c.0 <= q.0 < c.0 + a && c.1 <= q.1 <= c.1 + ri && on_circle(q, c, ri))
                        ==> coords(quarter@).contains(q),
            decreases ri + 1 - a,
        {
            let mut b: i64 = 0;
            while b <= rr as i64
                invariant
                    self.in_range(),
                    c == self.center@,
                    ri == self.r as int,
                    cx as int == c.0,
                    cy as int == c.1,
                    rr as int == ri,
                    0 <= a <= ri,
                    0 <= b <= ri + 1,
                    forall|k: int|
                        0 <= k < quarter@.len() ==> {
                            let p = #[trigger] quarter@[k]@;
                            on_circle(p, c, ri) && c.0 <= p.0 <= c.0 + ri && c.1 <= p.1 <= c.1
                                + ri
                        },
                    forall|q: (int, int)|
                        #![trigger on_circle(q, c, ri)]
                        (c.0 <= q.0 < c.0 + a && c.1 <= q.1 <= c.1 + ri && on_circle(q, c, ri))
                            ==> coords(quarter@).contains(q),
                    forall|q: (int, int)|
                        #![trigger on_circle(q, c, ri)]
                        (q.0 == c.0 + a && c.1 <= q.1 < c.1 + b && on_circle(q, c, ri))
                            ==> coords(quarter@).contains(q),
                decreases ri + 1 - b,
            {
                let px: i32 = (cx as i64 + a) as i32;
                let py: i32 = (cy as i64 + b) as i32;
                let p = Point::new(px, py);
                proof {
                    assert((a as int) * (a as int) <= 0x4000_0000_0000_0000) by (nonlinear_arith)
                        requires
                            0 <= a as int <= 0x8000_0000,
                    ;
                    assert((b as int) * (b as int) <= 0x4000_0000_0000_0000) by (nonlinear_arith)
                        requires
                            0 <= b as int <= 0x8000_0000,
                    ;
                }
                let dsq: u128 = (a as u128) * (a as u128) + (b as u128) * (b as u128);
                proof {
                    assert(dsq as int == dist_sq(p@, c));
                }
                let ghost qpre: Seq<Point> = quarter@;
                if dsq <= 0x7fff_ffffu128 * 0x8000_0000u128 {
                    let d: i32 = p.distance(&self.center);
                    if d == rr {
                        quarter.push(p);
                        proof {
                            lemma_coords_push(qpre, p);
                        }
                    } else {
                        proof {
                            if on_circle(p@, c, ri) {
                                lemma_rounded_sqrt_unique(dist_sq(p@, c), d as int, ri);
                                assert(false);
                            }
                        }
                    }
                } else {
                    proof {
                        lemma_rounded_sqrt_big(dist_sq(p@, c), ri);
                    }
                }
                proof {
                    assert(on_circle(p@, c, ri) ==> coords(quarter@).contains(p@));
                    assert(forall|q: (int, int)|
                        #[trigger] coords(qpre).contains(q) ==> coords(quarter@).contains(q));
                    assert forall|q: (int, int)|
                        (q.0 == c.0 + a && c.1 <= q.1 < c.1 + b + 1 && on_circle(
                            q,
                            c,
                            ri,
                        )) implies coords(quarter@).contains(q) by {
                        if q.1 == c.1 + b {
                            assert(q == p@);
                        } else {
                            assert(coords(qpre).contains(q));
                        }
                    }
                }
                b = b + 1;
            }
            a = a + 1;
        }
        let mut v: Vec<Point> = Vec::new();
        let mut idx: usize = 0;
        while idx < quarter.len()
            invariant
                self.in_range(),
                c == self.center@,
                ri == self.r as int,
                cx as int == c.0,
                cy as int == c.1,
                rr as int == ri,
                idx <= quarter@.len(),
                forall|k: int|
                    0 <= k < quarter@.len() ==> {
                        let p = #[trigger] quarter@[k]@;
                        on_circle(p, c, ri) && c.0 <= p.0 <= c.0 + ri && c.1 <= p.1 <= c.1 + ri
                    },
                forall|k: int|
                    0 <= k < v@.len() ==> on_circle(#[trigger] v@[k]@, c, ri),
                forall|k: int|
                    0 <= k < idx ==> {
                        let p = #[trigger] quarter@[k]@;
                        &&& coords(v@).contains(p)
                        &&& (p.0 > c.0 ==> coords(v@).contains((2 * c.0 - p.0, p.1)))
                        &&& (p.1 > c.1 ==> coords(v@).contains((p.0, 2 * c.1 - p.1)))
                        &&& (p.0 > c.0 && p.1 > c.1 ==> coords(v@).contains(
                            (2 * c.0 - p.0, 2 * c.1 - p.1),
                        ))
                    },
            decreases quarter@.len() - idx,
        {
            let p = quarter[idx];
            let mx: i32 = (2 * (cx as i64) - p.x as i64) as i32;
            let my: i32 = (2 * (cy as i64) - p.y as i64) as i32;
            proof {
                lemma_circle_symmetry(p@, c, ri);
                lemma_circle_symmetry((2 * c.0 - p@.0, p@.1), c, ri);
            }
            let ghost v0: Seq<Point> = v@;
            v.push(p);
            proof {
                lemma_coords_push(v0, p);
            }
            if p.x > cx {
                let m = Point::new(mx, p.y);
                let ghost v1: Seq<Point> = v@;
                v.push(m);
                proof {
                    lemma_coords_push(v1, m);
                }
            }
            if p.y > cy {
                let m = Point::new(p.x, my);
                let ghost v2: Seq<Point> = v@;
                v.push(m);
                proof {
                    lemma_coords_push(v2, m);
                }
            }
            if p.x > cx && p.y > cy {
                let m = Point::new(mx, my);
                let ghost v3: Seq<Point> = v@;
                v.push(m);
                proof {
                    lemma_coords_push(v3, m);
                }
            }
            idx = idx + 1;
        }
        proof {
            assert forall|q: (int, int)|
                on_circle(q, c, ri) implies coords(v@).contains(q) by {
                lemma_on_circle_box(q, c, ri);
                let i = if q.0 >= c.0 {
                    q.0 - c.0
                } else {
                    c.0 - q.0
                };
                let j = if q.1 >= c.1 {
                    q.1 - c.1
                } else {
                    c.1 - q.1
                };
                let rep = (c.0 + i, c.1 + j);
                assert(sq(rep.0 - c.0) == sq(q.0 - c.0) && sq(rep.1 - c.1) == sq(q.1 - c.1))
                    by (nonlinear_arith)
                    requires
                        rep.0 - c.0 == q.0 - c.0 || rep.0 - c.0 == c.0 - q.0,
                        rep.1 - c.1 == q.1 - c.1 || rep.1 - c.1 == c.1 - q.1,
                ;
                assert(on_circle(rep, c, ri));
                assert(coords(quarter@).contains(rep));
                let k = choose|k: int|
                    0 <= k < coords(quarter@).len() && coords(quarter@)[k] == rep;
                assert(quarter@[k]@ == rep);
                if q.0 >= c.0 && q.1 >= c.1 {
                    assert(q == rep);
                } else if q.0 < c.0 && q.1 >= c.1 {
                    assert(q == (2 * c.0 - rep.0, rep.1));
                } else if q.0 >= c.0 && q.1 < c.1 {
                    assert(q == (rep.0, 2 * c.1 - rep.1));
                } else {
                    assert(q == (2 * c.0 - rep.0, 2 * c.1 - rep.1));
                }
            }
            assert forall|q: (int, int)|
                coords(v@).contains(q) implies on_circle(q, c, ri) by {
                let k = choose|k: int| 0 <= k < coords(v@).len() && coords(v@)[k] == q;
                assert(v@[k]@ == q);
            }
        }
        v
    }
}

impl Drawable for Circle {
    open spec fn wf(&self) -> bool {
        self.in_range()
    }

    /// Rasterize the circumference and write every pixel with one shared
    /// color.
    fn draw<C: Displayable>(&self, canvas: &mut C) {
        let color = Self::color();
        let pts = self.points();
        let mut i: usize = 0;
        while i < pts.len()
            invariant
                i <= pts@.len(),
            decreases pts@.len() - i,
        {
            let p = pts[i];
            canvas.display(p.x, p.y, color);
            i = i + 1;
        }
    }
}

} // verus!
