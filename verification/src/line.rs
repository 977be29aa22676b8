//! Line rasterization: an axis-adaptive incremental algorithm. The axis with
//! the greater span drives the iteration, one pixel per unit, so no row or
//! column along that axis is ever skipped; the other coordinate advances by
//! the rounded fraction `i * minor / major`.

use vstd::prelude::*;
use vstd::math::{max, min};
use crate::canvas::{Displayable, Drawable};
use crate::point::{coords, Point};

verus! {

/// Non-negative magnitude of the difference of two coordinates.
pub open spec fn span(a: int, b: int) -> int {
    if a >= b {
        a - b
    } else {
        b - a
    }
}

/// `i * minor / major` rounded to the nearest integer, ties up.
pub open spec fn scaled(i: int, minor: int, major: int) -> int {
    (2 * i * minor + major) / (2 * major)
}

/// Whether the segment rises in one axis exactly when it rises in the other;
/// symmetric in the two endpoints.
pub open spec fn same_direction(s: (int, int), e: (int, int)) -> bool {
    (s.0 - e.0) * (s.1 - e.1) > 0
}

/// The minor-axis offset at step `i`: the rounded fraction, walked backwards
/// when the endpoints disagree in direction.
pub open spec fn minor_offset(i: int, minor: int, major: int, flipped: bool) -> int {
    if flipped {
        scaled(major - 1 - i, minor, major)
    } else {
        scaled(i, minor, major)
    }
}

/// The pixels of the segment from `s` to `e`: one per unit of the driving
/// axis (the axis of greater span), walked upward from its lower coordinate.
/// A degenerate segment still yields its single point. The count is exactly
/// the larger span, one less than the pixels the closed segment touches, so
/// the endpoint at the higher driving-axis coordinate is deliberately left
/// out; this makes the count independent of direction, and abutting segments
/// drawn in driving-axis order never write a shared pixel twice.
pub open spec fn line_seq(s: (int, int), e: (int, int)) -> Seq<(int, int)> {
    let dx = span(s.0, e.0);
    let dy = span(s.1, e.1);
    let x0 = min(s.0, e.0);
    let y0 = min(s.1, e.1);
    let flipped = !same_direction(s, e);
    if dx == 0 && dy == 0 {
        seq![(s.0, s.1)]
    } else if dx < dy {
        Seq::new(dy as nat, |i: int| (x0 + minor_offset(i, dx, dy, flipped), y0 + i))
    } else {
        Seq::new(dx as nat, |i: int| (x0 + i, y0 + minor_offset(i, dy, dx, flipped)))
    }
}

/// A line always yields as many pixels as its greater span, except that a
/// degenerate line still yields its one point.
pub proof fn lemma_line_seq_len(s: (int, int), e: (int, int))
    ensures
        line_seq(s, e).len() == if span(s.0, e.0) == 0 && span(s.1, e.1) == 0 {
            1int
        } else {
            max(span(s.0, e.0), span(s.1, e.1))
        },
{
}

/// Rasterization does not depend on which endpoint comes first: swapping the
/// endpoints yields the same sequence of pixels.
pub proof fn lemma_line_seq_swap(s: (int, int), e: (int, int))
    ensures
        line_seq(s, e) == line_seq(e, s),
{
    assert((s.0 - e.0) * (s.1 - e.1) == (e.0 - s.0) * (e.1 - s.1)) by (nonlinear_arith);
    assert(line_seq(s, e) =~= line_seq(e, s));
}

/// The rounded fraction stays between 0 and the minor span.
proof fn lemma_scaled_bounds(i: int, minor: int, major: int)
    requires
        0 <= i < major,
        0 <= minor <= major,
    ensures
        0 <= scaled(i, minor, major) <= minor,
{
    assert(0 <= 2 * i * minor + major) by (nonlinear_arith)
        requires
            0 <= i,
            0 <= minor,
            0 <= major,
    ;
    assert(2 * i * minor + major < (2 * major) * (minor + 1)) by (nonlinear_arith)
        requires
            0 <= i < major,
            0 <= minor,
    ;
    vstd::arithmetic::div_mod::lemma_div_pos_is_pos(2 * i * minor + major, 2 * major);
    vstd::arithmetic::div_mod::lemma_multiply_divide_lt(
        2 * i * minor + major,
        2 * major,
        minor + 1,
    );
}

/// A line segment between two points, owned by value.
#[derive(Clone, Copy, Debug, PartialEq, Eq, Structural)]
pub struct Line {
    pub start: Point,
    pub end: Point,
}

impl Line {
    pub fn new(start: &Point, end: &Point) -> (l: Self)
        ensures
            l.start@ == start@,
            l.end@ == end@,
    {
        Line { start: Point::new(start.x, start.y), end: Point::new(end.x, end.y) }
    }

    /// A segment between two points sampled uniformly inside `[0, max_w) x [0, max_h)`.
    pub fn random(max_w: i32, max_h: i32) -> (l: Self)
        requires
            1 <= max_w,
            1 <= max_h,
        ensures
            0 <= l.start@.0 < max_w,
            0 <= l.start@.1 < max_h,
            0 <= l.end@.0 < max_w,
            0 <= l.end@.1 < max_h,
    {
        Line { start: Point::random(max_w, max_h), end: Point::random(max_w, max_h) }
    }

    /// Every pixel of the segment, in driving-axis order.
    pub fn points(&self) -> (v: Vec<Point>)
        ensures
            coords(v@) == line_seq(self.start@, self.end@),
    {
        let sx: i64 = self.start.x as i64;
        let sy: i64 = self.start.y as i64;
        let ex: i64 = self.end.x as i64;
        let ey: i64 = self.end.y as i64;
        let dx: i64 = if sx >= ex {
            sx - ex
        } else {
            ex - sx
        };
        let dy: i64 = if sy >= ey {
            sy - ey
        } else {
            ey - sy
        };
        let x0: i64 = if sx <= ex {
            sx
        } else {
            ex
        };
        let y0: i64 = if sy <= ey {
            sy
        } else {
            ey
        };
        let mut v: Vec<Point> = Vec::new();
        if dx == 0 && dy == 0 {
            v.push(Point::new(self.start.x, self.start.y));
            proof {
                assert(coords(v@) =~= line_seq(self.start@, self.end@));
            }
            return v;
        }
        proof {
            assert((sx as int - ex as int) * (sy as int - ey as int)
                < 0x1_0000_0000_0000_0000
                && (sx as int - ex as int) * (sy as int - ey as int)
                > -0x1_0000_0000_0000_0000) by (nonlinear_arith)
                requires
                    (sx as int - ex as int) < 0x1_0000_0000,
                    (ex as int - sx as int) < 0x1_0000_0000,
                    (sy as int - ey as int) < 0x1_0000_0000,
                    (ey as int - sy as int) < 0x1_0000_0000,
            ;
        }
        let flipped: bool = !((sx as i128 - ex as i128) * (sy as i128 - ey as i128) > 0);
        let y_drives: bool = dx < dy;
        let major: i64 = if y_drives {
            dy
        } else {
            dx
        };
        let minor: i64 = if y_drives {
            dx
        } else {
            dy
        };
        let ghost target: Seq<(int, int)> = line_seq(self.start@, self.end@);
        let mut i: i64 = 0;
        while i < major
            invariant
                0 <= i <= major,
                1 <= major,
                0 <= minor <= major,
                major == max(span(self.start@.0, self.end@.0), span(self.start@.1, self.end@.1)),
                minor == min(span(self.start@.0, self.end@.0), span(self.start@.1, self.end@.1)),
                y_drives == (span(self.start@.0, self.end@.0) < span(
                    self.start@.1,
                    self.end@.1,
                )),
                major <= 0xffff_ffff,
                x0 == min(self.start@.0, self.end@.0),
                y0 == min(self.start@.1, self.end@.1),
                x0 + span(self.start@.0, self.end@.0) <= i32::MAX,
                y0 + span(self.start@.1, self.end@.1) <= i32::MAX,
                i32::MIN <= x0,
                i32::MIN <= y0,
                flipped == !same_direction(self.start@, self.end@),
                target == line_seq(self.start@, self.end@),
                target.len() == major,
                v@.len() == i,
                forall|k: int| 0 <= k < i ==> coords(v@)[k] == target[k],
            decreases major - i,
        {
            let j: i64 = if flipped {
                major - 1 - i
            } else {
                i
            };
            proof {
                lemma_scaled_bounds(j as int, minor as int, major as int);
                assert(2 * (j as int) * (minor as int) <= 0x2_0000_0000_0000_0000) by (nonlinear_arith)
                    requires
                        0 <= j as int <= 0xffff_ffff,
                        0 <= minor as int <= 0xffff_ffff,
                ;
            }
            let q: u128 = (2 * (j as u128) * (minor as u128) + major as u128) / (2 * (major
                as u128));
            let off: i64 = q as i64;
            proof {
                assert(off == scaled(j as int, minor as int, major as int));
                assert(off == minor_offset(i as int, minor as int, major as int, flipped));
            }
            let px: i64 = if y_drives {
                x0 + off
            } else {
                x0 + i
            };
            let py: i64 = if y_drives {
                y0 + i
            } else {
                y0 + off
            };
            let ghost vpre: Seq<Point> = v@;
            v.push(Point::new(px as i32, py as i32));
            proof {
                assert(forall|k: int| 0 <= k < i ==> v@[k] == vpre[k]);
                assert(coords(v@)[i as int] == target[i as int]);
            }
            i = i + 1;
        }
        proof {
            assert(coords(v@) =~= target);
        }
        v
    }
}

impl Drawable for Line {
    open spec fn wf(&self) -> bool {
        true
    }

    /// Rasterize the segment and write every pixel with one shared color.
    fn draw<C: Displayable>(&self, canvas: &mut C) {
        let color = Self::color();
        let pts = self.points();
        let mut i: usize = 0;
        while i < pts.len()
            invariant
                i <= pts@.len(),
            decreases pts@.len() - i,
        {
            let p = pts[i];
            canvas.display(p.x, p.y, color);
            i = i + 1;
        }
    }
}

} // verus!
