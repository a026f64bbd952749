use vstd::prelude::*;
use crate::geom::{in_range, lemma_mul_bound, Point2D, MAX_COORD};
use crate::frac::{frac_wf, Frac};

verus! {

/// A line segment between two grid points.  The engine never mutates a
/// segment after construction.
#[derive(Clone, Copy, Debug, PartialEq, Eq, Structural, Hash)]
pub struct Line2D {
    pub start: Point2D,
    pub end: Point2D,
}

/// Both endpoints lie on the supported grid.
pub open spec fn seg_in_range(s: Line2D) -> bool {
    in_range(s.start) && in_range(s.end)
}

/// A segment as the sweep stores it: on the grid, not vertical, and with the
/// endpoints ordered by `x`.
pub open spec fn seg_ok(s: Line2D) -> bool {
    seg_in_range(s) && s.start.x < s.end.x
}

pub open spec fn min2(a: int, b: int) -> int {
    if a <= b { a } else { b }
}

pub open spec fn max2(a: int, b: int) -> int {
    if a <= b { b } else { a }
}

/// The point lies on the segment: it is on the supporting line (the cross
/// product of `end - start` with `p - start` vanishes) and within both
/// coordinate ranges.  A zero-length segment contains only its single point.
pub open spec fn spec_contains(s: Line2D, p: Point2D) -> bool {
    &&& (s.end.x - s.start.x) * (p.y - s.start.y) - (s.end.y - s.start.y) * (p.x - s.start.x)
        == 0
    &&& min2(s.start.x as int, s.end.x as int) <= p.x <= max2(s.start.x as int, s.end.x as int)
    &&& min2(s.start.y as int, s.end.y as int) <= p.y <= max2(s.start.y as int, s.end.y as int)
}

/// Deterministic tie-break order on segments: lexicographic by
/// `start.y, start.x, end.y, end.x`.
pub open spec fn spec_seg_lt(a: Line2D, b: Line2D) -> bool {
    ||| a.start.y < b.start.y
    ||| (a.start.y == b.start.y && a.start.x < b.start.x)
    ||| (a.start.y == b.start.y && a.start.x == b.start.x && a.end.y < b.end.y)
    ||| (a.start.y == b.start.y && a.start.x == b.start.x && a.end.y == b.end.y
        && a.end.x < b.end.x)
}

/// Numerator of the supporting line's ordinate at abscissa `x`, over the
/// denominator `s.end.x - s.start.x`.
pub open spec fn spec_y_num(s: Line2D, x: int) -> int {
    s.start.y * (s.end.x - s.start.x) + (x - s.start.x) * (s.end.y - s.start.y)
}

/// The axis-aligned bounding boxes of the two segments overlap.
pub open spec fn spec_bbox_overlap(a: Line2D, b: Line2D) -> bool {
    &&& max2(a.start.x as int, a.end.x as int) >= min2(b.start.x as int, b.end.x as int)
    &&& min2(a.start.x as int, a.end.x as int) <= max2(b.start.x as int, b.end.x as int)
    &&& max2(a.start.y as int, a.end.y as int) >= min2(b.start.y as int, b.end.y as int)
    &&& min2(a.start.y as int, a.end.y as int) <= max2(b.start.y as int, b.end.y as int)
}

impl Line2D {
    pub fn new(x1: i64, y1: i64, x2: i64, y2: i64) -> (s: Line2D)
        ensures
            s.start == (Point2D { x: x1, y: y1 }),
            s.end == (Point2D { x: x2, y: y2 }),
    {
        Line2D { start: Point2D { x: x1, y: y1 }, end: Point2D { x: x2, y: y2 } }
    }

    /// Both endpoints coincide.
    pub fn is_zero_length(&self) -> (r: bool)
        ensures
            r == (self.start == self.end),
    {
        self.start.x == self.end.x && self.start.y == self.end.y
    }

    /// Both endpoints share their abscissa.
    pub fn is_vertical(&self) -> (r: bool)
        ensures
            r == (self.start.x == self.end.x),
    {
        self.start.x == self.end.x
    }

    /// The squared Euclidean length, exactly.
    pub fn length_squared(&self) -> (r: i128)
        requires
            seg_in_range(*self),
        ensures
            r == (self.end.x - self.start.x) * (self.end.x - self.start.x) + (self.end.y
                - self.start.y) * (self.end.y - self.start.y),
    {
        let dx = self.end.x as i128 - self.start.x as i128;
        let dy = self.end.y as i128 - self.start.y as i128;
        proof {
            lemma_mul_bound(dx as int, dx as int, 2 * MAX_COORD as int, 2 * MAX_COORD as int);
            lemma_mul_bound(dy as int, dy as int, 2 * MAX_COORD as int, 2 * MAX_COORD as int);
        }
        dx * dx + dy * dy
    }

    /// Whether `point` lies on this segment.
    pub fn contains(&self, point: Point2D) -> (r: bool)
        requires
            seg_in_range(*self),
            in_range(point),
        ensures
            r == spec_contains(*self, point),
    {
        let dx = self.end.x as i128 - self.start.x as i128;
        let dy = self.end.y as i128 - self.start.y as i128;
        let px = point.x as i128 - self.start.x as i128;
        let py = point.y as i128 - self.start.y as i128;
        proof {
            lemma_mul_bound(dx as int, py as int, 2 * MAX_COORD as int, 2 * MAX_COORD as int);
            lemma_mul_bound(dy as int, px as int, 2 * MAX_COORD as int, 2 * MAX_COORD as int);
        }
        let on_line = dx * py - dy * px == 0;
        let within_x = if self.start.x <= self.end.x {
            self.start.x <= point.x && point.x <= self.end.x
        } else {
            self.end.x <= point.x && point.x <= self.start.x
        };
        let within_y = if self.start.y <= self.end.y {
            self.start.y <= point.y && point.y <= self.end.y
        } else {
            self.end.y <= point.y && point.y <= self.start.y
        };
        on_line && within_x && within_y
    }

    /// The ordinate of the segment at abscissa `x`, when `x` lies within the
    /// segment's horizontal extent; `None` otherwise.  A vertical segment
    /// answers only at its own abscissa, with the ordinate of its start.
    pub fn y_at(&self, x: i64) -> (r: Option<Frac>)
        requires
            seg_in_range(*self),
            -MAX_COORD <= x <= MAX_COORD,
        ensures
            match r {
                Some(f) => {
                    &&& frac_wf(f)
                    &&& min2(self.start.x as int, self.end.x as int) <= x <= max2(
                        self.start.x as int,
                        self.end.x as int,
                    )
                    &&& if self.start.x == self.end.x {
                        f.num == self.start.y && f.den == 1
                    } else if self.start.x < self.end.x {
                        f.num == spec_y_num(*self, x as int) && f.den == self.end.x - self.start.x
                    } else {
                        f.num == -spec_y_num(*self, x as int) && f.den == self.start.x - self.end.x
                    }
                },
                None => !(min2(self.start.x as int, self.end.x as int) <= x <= max2(
                    self.start.x as int,
                    self.end.x as int,
                )),
            },
    {
        if self.start.x == self.end.x {
            if x == self.start.x {
                Some(Frac::from_int(self.start.y))
            } else {
                None
            }
        } else {
            let within = if self.start.x < self.end.x {
                self.start.x <= x && x <= self.end.x
            } else {
                self.end.x <= x && x <= self.start.x
            };
            if within {
                let dx = self.end.x as i128 - self.start.x as i128;
                let dy = self.end.y as i128 - self.start.y as i128;
                proof {
                    lemma_mul_bound(
                        self.start.y as int,
                        dx as int,
                        MAX_COORD as int,
                        2 * MAX_COORD as int,
                    );
                    lemma_mul_bound(
                        (x - self.start.x) as int,
                        dy as int,
                        2 * MAX_COORD as int,
                        2 * MAX_COORD as int,
                    );
                }
                let num = self.start.y as i128 * dx + (x as i128 - self.start.x as i128) * dy;
                if dx > 0 {
                    Some(Frac::new(num, dx))
                } else {
                    Some(Frac::new(-num, -dx))
                }
            } else {
                None
            }
        }
    }

    /// Deterministic tie-break comparison: lexicographic by
    /// `start.y, start.x, end.y, end.x`.
    pub fn lt_seg(&self, other: &Line2D) -> (r: bool)
        ensures
            r == spec_seg_lt(*self, *other),
    {
        if self.start.y != other.start.y {
            self.start.y < other.start.y
        } else if self.start.x != other.start.x {
            self.start.x < other.start.x
        } else if self.end.y != other.end.y {
            self.end.y < other.end.y
        } else {
            self.end.x < other.end.x
        }
    }

    /// Whether the bounding boxes of the two segments overlap.
    pub fn bbox_overlap(&self, other: &Line2D) -> (r: bool)
        ensures
            r == spec_bbox_overlap(*self, *other),
    {
        let min_x1 = if self.start.x <= self.end.x { self.start.x } else { self.end.x };
        let max_x1 = if self.start.x <= self.end.x { self.end.x } else { self.start.x };
        let min_y1 = if self.start.y <= self.end.y { self.start.y } else { self.end.y };
        let max_y1 = if self.start.y <= self.end.y { self.end.y } else { self.start.y };
        let min_x2 = if other.start.x <= other.end.x { other.start.x } else { other.end.x };
        let max_x2 = if other.start.x <= other.end.x { other.end.x } else { other.start.x };
        let min_y2 = if other.start.y <= other.end.y { other.start.y } else { other.end.y };
        let max_y2 = if other.start.y <= other.end.y { other.end.y } else { other.start.y };
        max_x1 >= min_x2 && min_x1 <= max_x2 && max_y1 >= min_y2 && min_y1 <= max_y2
    }
}

} // verus!
