use vstd::prelude::*;
use crate::geom::{in_range, lemma_mul_bound, spec_ccw, Point2D, MAX_COORD};
use crate::frac::{Frac, RPoint, FRAC_DEN_MAX};
use crate::line::{seg_in_range, spec_bbox_overlap, spec_contains, Line2D};
use crate::intersection::{record_wf, Intersection};

verus! {

/// Denominator of the parametric intersection of the two supporting lines:
/// `(y4-y3)(x2-x1) - (x4-x3)(y2-y1)`.  Zero exactly when the segments are
/// parallel.
pub open spec fn spec_denom(s1: Line2D, s2: Line2D) -> int {
    (s2.end.y - s2.start.y) * (s1.end.x - s1.start.x) - (s2.end.x - s2.start.x) * (s1.end.y
        - s1.start.y)
}

/// Numerator of the parameter of the intersection along `s1`.
pub open spec fn spec_ua_num(s1: Line2D, s2: Line2D) -> int {
    (s2.end.x - s2.start.x) * (s1.start.y - s2.start.y) - (s2.end.y - s2.start.y) * (s1.start.x
        - s2.start.x)
}

/// Numerator of the parameter of the intersection along `s2`.
pub open spec fn spec_ub_num(s1: Line2D, s2: Line2D) -> int {
    (s1.end.x - s1.start.x) * (s1.start.y - s2.start.y) - (s1.end.y - s1.start.y) * (s1.start.x
        - s2.start.x)
}

/// `num / d` lies in the closed unit interval (for `d != 0`).
pub open spec fn param_in_unit(num: int, d: int) -> bool {
    0 <= num * d && num * d <= d * d
}

/// The exact intersection point of the two supporting lines, as a rational
/// point with positive denominator `|spec_denom(s1, s2)|`.
pub open spec fn spec_cross_point(s1: Line2D, s2: Line2D) -> RPoint {
    let d = spec_denom(s1, s2);
    let ua = spec_ua_num(s1, s2);
    let xn = s1.start.x * d + ua * (s1.end.x - s1.start.x);
    let yn = s1.start.y * d + ua * (s1.end.y - s1.start.y);
    if d > 0 {
        RPoint {
            x: Frac { num: xn as i128, den: d as i128 },
            y: Frac { num: yn as i128, den: d as i128 },
        }
    } else {
        RPoint {
            x: Frac { num: (-xn) as i128, den: (-d) as i128 },
            y: Frac { num: (-yn) as i128, den: (-d) as i128 },
        }
    }
}

/// The classification of the pair, by the classical parametric method:
/// identical pairs first, then degenerate (zero-length) segments, then the
/// parallel/collinear family decided through `spec_contains`, and finally
/// the parametric test for a proper contact.
pub open spec fn spec_classify(s1: Line2D, s2: Line2D) -> Option<Intersection> {
    if s1 == s2 {
        Some(Intersection::IdenticalOverlap { line1: s1, line2: s2, overlap: s1 })
    } else if s1.start == s1.end {
        if spec_contains(s2, s1.start) {
            Some(
                Intersection::Touching {
                    line1: s1,
                    line2: s2,
                    point: RPoint {
                        x: Frac { num: s1.start.x as i128, den: 1 },
                        y: Frac { num: s1.start.y as i128, den: 1 },
                    },
                },
            )
        } else {
            None
        }
    } else if s2.start == s2.end {
        if spec_contains(s1, s2.start) {
            Some(
                Intersection::Touching {
                    line1: s1,
                    line2: s2,
                    point: RPoint {
                        x: Frac { num: s2.start.x as i128, den: 1 },
                        y: Frac { num: s2.start.y as i128, den: 1 },
                    },
                },
            )
        } else {
            None
        }
    } else if spec_denom(s1, s2) == 0 {
        if spec_contains(s1, s2.start) && spec_contains(s1, s2.end) {
            Some(Intersection::ContainedOverlap { line1: s1, line2: s2, overlap: s2 })
        } else if spec_contains(s2, s1.start) && spec_contains(s2, s1.end) {
            Some(Intersection::ContainedOverlap { line1: s1, line2: s2, overlap: s1 })
        } else if spec_contains(s1, s2.start) || spec_contains(s1, s2.end) || spec_contains(
            s2,
            s1.start,
        ) || spec_contains(s2, s1.end) {
            let os = if spec_contains(s1, s2.start) {
                s2.start
            } else {
                s1.start
            };
            let oe = if spec_contains(s1, s2.end) {
                s2.end
            } else {
                s1.end
            };
            Some(
                Intersection::PartialOverlap {
                    line1: s1,
                    line2: s2,
                    overlap: Line2D { start: os, end: oe },
                },
            )
        } else {
            None
        }
    } else {
        let d = spec_denom(s1, s2);
        let ua = spec_ua_num(s1, s2);
        let ub = spec_ub_num(s1, s2);
        if param_in_unit(ua, d) && param_in_unit(ub, d) {
            let p = spec_cross_point(s1, s2);
            if ua == 0 || ua == d || ub == 0 || ub == d {
                Some(Intersection::Touching { line1: s1, line2: s2, point: p })
            } else {
                Some(Intersection::Crossing { line1: s1, line2: s2, point: p })
            }
        } else {
            None
        }
    }
}

/// The four-orientation straddle test.  A zero-length segment meets the
/// other exactly when its point lies on it (every orientation against a
/// degenerate segment vanishes, so the collinear rule would misread it);
/// for genuinely collinear segments, bounding-box overlap decides;
/// otherwise both straddle products must be non-positive.
pub open spec fn spec_intersects(s1: Line2D, s2: Line2D) -> bool {
    if s1.start == s1.end {
        spec_contains(s2, s1.start)
    } else if s2.start == s2.end {
        spec_contains(s1, s2.start)
    } else {
        let c1 = spec_ccw(s1.start, s1.end, s2.start);
        let c2 = spec_ccw(s1.start, s1.end, s2.end);
        let c3 = spec_ccw(s2.start, s2.end, s1.start);
        let c4 = spec_ccw(s2.start, s2.end, s1.end);
        if c1 == 0 && c2 == 0 {
            spec_bbox_overlap(s1, s2)
        } else {
            c1 * c2 <= 0 && c3 * c4 <= 0
        }
    }
}

/// Bounds for the intermediate quantities of the classifier, derived from
/// the coordinate grid bound.
pub proof fn lemma_classifier_bounds(s1: Line2D, s2: Line2D)
    requires
        seg_in_range(s1),
        seg_in_range(s2),
    ensures
        -FRAC_DEN_MAX <= spec_denom(s1, s2) <= FRAC_DEN_MAX,
        -FRAC_DEN_MAX <= spec_ua_num(s1, s2) <= FRAC_DEN_MAX,
        -FRAC_DEN_MAX <= spec_ub_num(s1, s2) <= FRAC_DEN_MAX,
        -4_000_000_000_000 <= (s2.end.y - s2.start.y) * (s1.end.x - s1.start.x)
            <= 4_000_000_000_000,
        -4_000_000_000_000 <= (s2.end.x - s2.start.x) * (s1.end.y - s1.start.y)
            <= 4_000_000_000_000,
        -4_000_000_000_000 <= (s2.end.x - s2.start.x) * (s1.start.y - s2.start.y)
            <= 4_000_000_000_000,
        -4_000_000_000_000 <= (s2.end.y - s2.start.y) * (s1.start.x - s2.start.x)
            <= 4_000_000_000_000,
        -4_000_000_000_000 <= (s1.end.x - s1.start.x) * (s1.start.y - s2.start.y)
            <= 4_000_000_000_000,
        -4_000_000_000_000 <= (s1.end.y - s1.start.y) * (s1.start.x - s2.start.x)
            <= 4_000_000_000_000,
{
    let c = MAX_COORD as int;
    lemma_mul_bound(
        (s2.end.y - s2.start.y) as int,
        (s1.end.x - s1.start.x) as int,
        2_000_000,
        2_000_000,
    );
    lemma_mul_bound(
        (s2.end.x - s2.start.x) as int,
        (s1.end.y - s1.start.y) as int,
        2_000_000,
        2_000_000,
    );
    lemma_mul_bound(
        (s2.end.x - s2.start.x) as int,
        (s1.start.y - s2.start.y) as int,
        2_000_000,
        2_000_000,
    );
    lemma_mul_bound(
        (s2.end.y - s2.start.y) as int,
        (s1.start.x - s2.start.x) as int,
        2_000_000,
        2_000_000,
    );
    lemma_mul_bound(
        (s1.end.x - s1.start.x) as int,
        (s1.start.y - s2.start.y) as int,
        2_000_000,
        2_000_000,
    );
    lemma_mul_bound(
        (s1.end.y - s1.start.y) as int,
        (s1.start.x - s2.start.x) as int,
        2_000_000,
        2_000_000,
    );
}

impl Line2D {
    /// Finds and classifies the intersection of the two segments, exactly.
    pub fn find_intersection(&self, other: Line2D) -> (res: Option<Intersection>)
        requires
            seg_in_range(*self),
            seg_in_range(other),
        ensures
            res == spec_classify(*self, other),
            res is Some ==> record_wf(res->0),
    {
        if self.start.x == other.start.x && self.start.y == other.start.y && self.end.x
            == other.end.x && self.end.y == other.end.y {
            return Some(
                Intersection::IdenticalOverlap { line1: *self, line2: other, overlap: *self },
            );
        }
        if self.start.x == self.end.x && self.start.y == self.end.y {
            if other.contains(self.start) {
                return Some(
                    Intersection::Touching {
                        line1: *self,
                        line2: other,
                        point: RPoint::from_point(&self.start),
                    },
                );
            } else {
                return None;
            }
        }
        if other.start.x == other.end.x && other.start.y == other.end.y {
            if self.contains(other.start) {
                return Some(
                    Intersection::Touching {
                        line1: *self,
                        line2: other,
                        point: RPoint::from_point(&other.start),
                    },
                );
            } else {
                return None;
            }
        }
        proof { lemma_classifier_bounds(*self, other); }
        let dx1 = self.end.x as i128 - self.start.x as i128;
        let dy1 = self.end.y as i128 - self.start.y as i128;
        let dx2 = other.end.x as i128 - other.start.x as i128;
        let dy2 = other.end.y as i128 - other.start.y as i128;
        let sx = self.start.x as i128 - other.start.x as i128;
        let sy = self.start.y as i128 - other.start.y as i128;
        let d = dy2 * dx1 - dx2 * dy1;
        if d == 0 {
            if self.contains(other.start) && self.contains(other.end) {
                return Some(
                    Intersection::ContainedOverlap { line1: *self, line2: other, overlap: other },
                );
            }
            if other.contains(self.start) && other.contains(self.end) {
                return Some(
                    Intersection::ContainedOverlap { line1: *self, line2: other, overlap: *self },
                );
            }
            if self.contains(other.start) || self.contains(other.end) || other.contains(
                self.start,
            ) || other.contains(self.end) {
                let overlap_start = if self.contains(other.start) {
                    other.start
                } else {
                    self.start
                };
                let overlap_end = if self.contains(other.end) {
                    other.end
                } else {
                    self.end
                };
                let overlap = Line2D { start: overlap_start, end: overlap_end };
                return Some(
                    Intersection::PartialOverlap { line1: *self, line2: other, overlap },
                );
            }
            return None;
        }
        let ua_num = dx2 * sy - dy2 * sx;
        let ub_num = dx1 * sy - dy1 * sx;
        proof {
            lemma_mul_bound(ua_num as int, d as int, FRAC_DEN_MAX as int, FRAC_DEN_MAX as int);
            lemma_mul_bound(ub_num as int, d as int, FRAC_DEN_MAX as int, FRAC_DEN_MAX as int);
            lemma_mul_bound(d as int, d as int, FRAC_DEN_MAX as int, FRAC_DEN_MAX as int);
        }
        let ua_ok = 0 <= ua_num * d && ua_num * d <= d * d;
        let ub_ok = 0 <= ub_num * d && ub_num * d <= d * d;
        if ua_ok && ub_ok {
            proof {
                lemma_mul_bound(self.start.x as int, d as int, MAX_COORD as int, FRAC_DEN_MAX as int);
                lemma_mul_bound(self.start.y as int, d as int, MAX_COORD as int, FRAC_DEN_MAX as int);
                lemma_mul_bound(
                    spec_ua_num(*self, other),
                    dx1 as int,
                    FRAC_DEN_MAX as int,
                    2 * MAX_COORD as int,
                );
                lemma_mul_bound(
                    spec_ua_num(*self, other),
                    dy1 as int,
                    FRAC_DEN_MAX as int,
                    2 * MAX_COORD as int,
                );
            }
            let xn = self.start.x as i128 * d + ua_num * dx1;
            let yn = self.start.y as i128 * d + ua_num * dy1;
            let point = if d > 0 {
                RPoint { x: Frac::new(xn, d), y: Frac::new(yn, d) }
            } else {
                RPoint { x: Frac::new(-xn, -d), y: Frac::new(-yn, -d) }
            };
            let is_touching = ua_num == 0 || ua_num == d || ub_num == 0 || ub_num == d;
            if is_touching {
                Some(Intersection::Touching { line1: *self, line2: other, point })
            } else {
                Some(Intersection::Crossing { line1: *self, line2: other, point })
            }
        } else {
            None
        }
    }

    /// Whether the two segments intersect at all, by the straddle test,
    /// with zero-length segments answered by containment.
    pub fn intersects(&self, other: Line2D) -> (r: bool)
        requires
            seg_in_range(*self),
            seg_in_range(other),
        ensures
            r == spec_intersects(*self, other),
    {
        if self.start.x == self.end.x && self.start.y == self.end.y {
            return other.contains(self.start);
        }
        if other.start.x == other.end.x && other.start.y == other.end.y {
            return self.contains(other.start);
        }
        let ccw1 = Point2D::ccw(&self.start, &self.end, &other.start);
        let ccw2 = Point2D::ccw(&self.start, &self.end, &other.end);
        let ccw3 = Point2D::ccw(&other.start, &other.end, &self.start);
        let ccw4 = Point2D::ccw(&other.start, &other.end, &self.end);
        if ccw1 == 0 && ccw2 == 0 {
            self.bbox_overlap(&other)
        } else {
            proof {
                lemma_ccw_coord_bound(self.start, self.end, other.start);
                lemma_ccw_coord_bound(self.start, self.end, other.end);
                lemma_ccw_coord_bound(other.start, other.end, self.start);
                lemma_ccw_coord_bound(other.start, other.end, self.end);
                lemma_mul_bound(ccw1 as int, ccw2 as int, 6_000_000_000_000, 6_000_000_000_000);
                lemma_mul_bound(ccw3 as int, ccw4 as int, 6_000_000_000_000, 6_000_000_000_000);
            }
            ccw1 * ccw2 <= 0 && ccw3 * ccw4 <= 0
        }
    }
}

/// The classification of in-range segments is a well-formed record: its
/// segments are on the grid and its rational point, if any, respects the
/// fraction bounds.
pub proof fn lemma_classify_bounds_public(s1: Line2D, s2: Line2D)
    requires
        seg_in_range(s1),
        seg_in_range(s2),
        spec_classify(s1, s2) is Some,
    ensures
        record_wf(spec_classify(s1, s2)->0),
{
    lemma_classifier_bounds(s1, s2);
    let d = spec_denom(s1, s2);
    let ua = spec_ua_num(s1, s2);
    if s1 == s2 || s1.start == s1.end || s2.start == s2.end || d == 0 {
    } else {
        lemma_mul_bound(s1.start.x as int, d, MAX_COORD as int, FRAC_DEN_MAX as int);
        lemma_mul_bound(s1.start.y as int, d, MAX_COORD as int, FRAC_DEN_MAX as int);
        lemma_mul_bound(ua, (s1.end.x - s1.start.x) as int, FRAC_DEN_MAX as int, 2_000_000);
        lemma_mul_bound(ua, (s1.end.y - s1.start.y) as int, FRAC_DEN_MAX as int, 2_000_000);
    }
}

/// Each orientation value of grid points is bounded by `6 * MAX_COORD^2`.
pub proof fn lemma_ccw_coord_bound(p: Point2D, q: Point2D, r: Point2D)
    requires
        in_range(p),
        in_range(q),
        in_range(r),
    ensures
        -6_000_000_000_000 <= spec_ccw(p, q, r) <= 6_000_000_000_000,
{
    let c = MAX_COORD as int;
    lemma_mul_bound(p.x as int, q.y as int, c, c);
    lemma_mul_bound(p.y as int, q.x as int, c, c);
    lemma_mul_bound(q.x as int, r.y as int, c, c);
    lemma_mul_bound(q.y as int, r.x as int, c, c);
    lemma_mul_bound(p.y as int, r.x as int, c, c);
    lemma_mul_bound(p.x as int, r.y as int, c, c);
}

} // verus!
