use vstd::prelude::*;

verus! {

/// Largest coordinate magnitude the engine accepts.  Every input point must
/// satisfy `in_range`, which keeps all intermediate products of the exact
/// rational arithmetic comfortably inside `i128`.
pub const MAX_COORD: i64 = 1_000_000;

/// A point of the integer grid.
#[derive(Clone, Copy, Debug, PartialEq, Eq, Structural, Hash)]
pub struct Point2D {
    pub x: i64,
    pub y: i64,
}

/// The point lies on the supported grid.
pub open spec fn in_range(p: Point2D) -> bool {
    &&& -(MAX_COORD as int) <= p.x <= MAX_COORD as int
    &&& -(MAX_COORD as int) <= p.y <= MAX_COORD as int
}

/// The point lies on the grid widened by one step: enough room for the ray
/// origin just outside a bounding box.
pub open spec fn in_range_ext(p: Point2D) -> bool {
    &&& -(MAX_COORD as int) - 1 <= p.x <= MAX_COORD as int + 1
    &&& -(MAX_COORD as int) - 1 <= p.y <= MAX_COORD as int + 1
}

/// Twice the signed area of the triangle `(p, q, r)`: positive when the
/// triple turns counterclockwise, zero when collinear, negative when
/// clockwise.
pub open spec fn spec_ccw(p: Point2D, q: Point2D, r: Point2D) -> int {
    (p.x * q.y - p.y * q.x) + (q.x * r.y - q.y * r.x) + (p.y * r.x - p.x * r.y)
}

/// `|a * b| <= aa * bb` whenever `|a| <= aa` and `|b| <= bb`.
pub proof fn lemma_mul_bound(a: int, b: int, aa: int, bb: int)
    requires
        -aa <= a <= aa,
        -bb <= b <= bb,
        0 <= aa,
        0 <= bb,
    ensures
        -(aa * bb) <= a * b <= aa * bb,
{
    assert(-(aa * bb) <= a * b <= aa * bb) by (nonlinear_arith)
        requires
            -aa <= a <= aa,
            -bb <= b <= bb,
            0 <= aa,
            0 <= bb,
    ;
}

impl Point2D {
    pub fn new(x: i64, y: i64) -> (p: Point2D)
        ensures
            p.x == x,
            p.y == y,
    {
        Point2D { x, y }
    }

    /// The point displaced by `(dx, dy)`.
    pub fn new_relative(p: &Point2D, dx: i64, dy: i64) -> (r: Point2D)
        requires
            i64::MIN <= p.x + dx <= i64::MAX,
            i64::MIN <= p.y + dy <= i64::MAX,
        ensures
            r.x == p.x + dx,
            r.y == p.y + dy,
    {
        Point2D { x: p.x + dx, y: p.y + dy }
    }

    /// Orientation of the triple `(p, q, r)`, computed exactly.
    pub fn ccw(p: &Point2D, q: &Point2D, r: &Point2D) -> (c: i128)
        requires
            in_range_ext(*p),
            in_range_ext(*q),
            in_range_ext(*r),
        ensures
            c == spec_ccw(*p, *q, *r),
            -7_000_000_000_000 <= c <= 7_000_000_000_000,
    {
        proof {
            lemma_mul_bound(p.x as int, q.y as int, 1_000_001, 1_000_001);
            lemma_mul_bound(p.y as int, q.x as int, 1_000_001, 1_000_001);
            lemma_mul_bound(q.x as int, r.y as int, 1_000_001, 1_000_001);
            lemma_mul_bound(q.y as int, r.x as int, 1_000_001, 1_000_001);
            lemma_mul_bound(p.y as int, r.x as int, 1_000_001, 1_000_001);
            lemma_mul_bound(p.x as int, r.y as int, 1_000_001, 1_000_001);
        }
        (p.x as i128 * q.y as i128 - p.y as i128 * q.x as i128)
            + (q.x as i128 * r.y as i128 - q.y as i128 * r.x as i128)
            + (p.y as i128 * r.x as i128 - p.x as i128 * r.y as i128)
    }

    /// Lexicographic order: first by `x`, then by `y`.
    pub open spec fn spec_lt(self, other: Point2D) -> bool {
        self.x < other.x || (self.x == other.x && self.y < other.y)
    }

    /// Exact lexicographic comparison (`x` first, then `y`).
    pub fn lt(&self, other: &Point2D) -> (r: bool)
        ensures
            r == self.spec_lt(*other),
    {
        self.x < other.x || (self.x == other.x && self.y < other.y)
    }
}

} // verus!
