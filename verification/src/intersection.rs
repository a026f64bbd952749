use vstd::prelude::*;
use crate::frac::{rp_eq, rp_wf, RPoint};
use crate::line::{seg_in_range, Line2D};

verus! {

/// The classified outcome of an intersecting pair of segments.
///
/// `Crossing` and `Touching` carry the exact rational contact point;
/// the three overlap flavours carry the shared sub-segment.
#[derive(Clone, Copy, Debug)]
pub enum Intersection {
    Crossing { line1: Line2D, line2: Line2D, point: RPoint },
    Touching { line1: Line2D, line2: Line2D, point: RPoint },
    PartialOverlap { line1: Line2D, line2: Line2D, overlap: Line2D },
    ContainedOverlap { line1: Line2D, line2: Line2D, overlap: Line2D },
    IdenticalOverlap { line1: Line2D, line2: Line2D, overlap: Line2D },
}

/// The unordered pairs `{a1, a2}` and `{b1, b2}` coincide.
pub open spec fn same_pair(a1: Line2D, a2: Line2D, b1: Line2D, b2: Line2D) -> bool {
    (a1 == b1 && a2 == b2) || (a1 == b2 && a2 == b1)
}

/// Equality of records, invariant under swapping the two source segments.
/// Contact points are compared as rationals, overlaps exactly.
pub open spec fn record_equiv(a: Intersection, b: Intersection) -> bool {
    match (a, b) {
        (
            Intersection::Crossing { line1: l1a, line2: l2a, point: pa },
            Intersection::Crossing { line1: l1b, line2: l2b, point: pb },
        ) => same_pair(l1a, l2a, l1b, l2b) && rp_eq(pa, pb),
        (
            Intersection::Touching { line1: l1a, line2: l2a, point: pa },
            Intersection::Touching { line1: l1b, line2: l2b, point: pb },
        ) => same_pair(l1a, l2a, l1b, l2b) && rp_eq(pa, pb),
        (
            Intersection::PartialOverlap { line1: l1a, line2: l2a, overlap: oa },
            Intersection::PartialOverlap { line1: l1b, line2: l2b, overlap: ob },
        ) => same_pair(l1a, l2a, l1b, l2b) && oa == ob,
        (
            Intersection::ContainedOverlap { line1: l1a, line2: l2a, overlap: oa },
            Intersection::ContainedOverlap { line1: l1b, line2: l2b, overlap: ob },
        ) => same_pair(l1a, l2a, l1b, l2b) && oa == ob,
        (
            Intersection::IdenticalOverlap { line1: l1a, line2: l2a, overlap: oa },
            Intersection::IdenticalOverlap { line1: l1b, line2: l2b, overlap: ob },
        ) => same_pair(l1a, l2a, l1b, l2b) && oa == ob,
        _ => false,
    }
}

/// The record's fields are on the grid and its rational parts are
/// well-formed.
pub open spec fn record_wf(r: Intersection) -> bool {
    match r {
        Intersection::Crossing { line1, line2, point } => seg_in_range(line1) && seg_in_range(
            line2,
        ) && rp_wf(point),
        Intersection::Touching { line1, line2, point } => seg_in_range(line1) && seg_in_range(
            line2,
        ) && rp_wf(point),
        Intersection::PartialOverlap { line1, line2, overlap } => seg_in_range(line1)
            && seg_in_range(line2) && seg_in_range(overlap),
        Intersection::ContainedOverlap { line1, line2, overlap } => seg_in_range(line1)
            && seg_in_range(line2) && seg_in_range(overlap),
        Intersection::IdenticalOverlap { line1, line2, overlap } => seg_in_range(line1)
            && seg_in_range(line2) && seg_in_range(overlap),
    }
}

/// The record's characteristic point: the contact point of a crossing or
/// touching, and the left end of an overlap.
pub open spec fn spec_record_point(r: Intersection) -> RPoint {
    match r {
        Intersection::Crossing { point, .. } => point,
        Intersection::Touching { point, .. } => point,
        Intersection::PartialOverlap { overlap, .. } => RPoint {
            x: crate::frac::Frac { num: overlap.start.x as i128, den: 1 },
            y: crate::frac::Frac { num: overlap.start.y as i128, den: 1 },
        },
        Intersection::ContainedOverlap { overlap, .. } => RPoint {
            x: crate::frac::Frac { num: overlap.start.x as i128, den: 1 },
            y: crate::frac::Frac { num: overlap.start.y as i128, den: 1 },
        },
        Intersection::IdenticalOverlap { overlap, .. } => RPoint {
            x: crate::frac::Frac { num: overlap.start.x as i128, den: 1 },
            y: crate::frac::Frac { num: overlap.start.y as i128, den: 1 },
        },
    }
}

impl Intersection {
    /// The two source segments, in the order they were stored.
    pub open spec fn spec_lines(self) -> (Line2D, Line2D) {
        match self {
            Intersection::Crossing { line1, line2, .. } => (line1, line2),
            Intersection::Touching { line1, line2, .. } => (line1, line2),
            Intersection::PartialOverlap { line1, line2, .. } => (line1, line2),
            Intersection::ContainedOverlap { line1, line2, .. } => (line1, line2),
            Intersection::IdenticalOverlap { line1, line2, .. } => (line1, line2),
        }
    }

    /// The record's characteristic point.
    pub fn record_point(&self) -> (p: RPoint)
        requires
            record_wf(*self),
        ensures
            p == spec_record_point(*self),
            rp_wf(p),
    {
        match self {
            Intersection::Crossing { point, .. } => *point,
            Intersection::Touching { point, .. } => *point,
            Intersection::PartialOverlap { overlap, .. } => RPoint::from_point(&overlap.start),
            Intersection::ContainedOverlap { overlap, .. } => RPoint::from_point(&overlap.start),
            Intersection::IdenticalOverlap { overlap, .. } => RPoint::from_point(&overlap.start),
        }
    }

    /// Whether the two records describe the same intersection, up to
    /// swapping the two source segments.
    pub fn same_intersection(&self, other: &Intersection) -> (r: bool)
        requires
            record_wf(*self),
            record_wf(*other),
        ensures
            r == record_equiv(*self, *other),
    {
        match (self, other) {
            (
                Intersection::Crossing { line1: l1a, line2: l2a, point: pa },
                Intersection::Crossing { line1: l1b, line2: l2b, point: pb },
            ) => Self::pair_eq(l1a, l2a, l1b, l2b) && pa.eq_rp(pb),
            (
                Intersection::Touching { line1: l1a, line2: l2a, point: pa },
                Intersection::Touching { line1: l1b, line2: l2b, point: pb },
            ) => Self::pair_eq(l1a, l2a, l1b, l2b) && pa.eq_rp(pb),
            (
                Intersection::PartialOverlap { line1: l1a, line2: l2a, overlap: oa },
                Intersection::PartialOverlap { line1: l1b, line2: l2b, overlap: ob },
            ) => Self::pair_eq(l1a, l2a, l1b, l2b) && oa == ob,
            (
                Intersection::ContainedOverlap { line1: l1a, line2: l2a, overlap: oa },
                Intersection::ContainedOverlap { line1: l1b, line2: l2b, overlap: ob },
            ) => Self::pair_eq(l1a, l2a, l1b, l2b) && oa == ob,
            (
                Intersection::IdenticalOverlap { line1: l1a, line2: l2a, overlap: oa },
                Intersection::IdenticalOverlap { line1: l1b, line2: l2b, overlap: ob },
            ) => Self::pair_eq(l1a, l2a, l1b, l2b) && oa == ob,
            _ => false,
        }
    }

    fn pair_eq(a1: &Line2D, a2: &Line2D, b1: &Line2D, b2: &Line2D) -> (r: bool)
        ensures
            r == same_pair(*a1, *a2, *b1, *b2),
    {
        (a1 == b1 && a2 == b2) || (a1 == b2 && a2 == b1)
    }
}

/// Swap-invariant equality is symmetric.
pub proof fn lemma_record_equiv_symmetric(a: Intersection, b: Intersection)
    ensures
        record_equiv(a, b) == record_equiv(b, a),
{
}

} // verus!
