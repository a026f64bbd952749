use vstd::prelude::*;
use crate::geom::{in_range, in_range_ext, lemma_mul_bound, spec_ccw, Point2D, MAX_COORD};
use crate::frac::Frac;

verus! {

/// A simple polygon: the ordered ring of its vertices, implicitly closed
/// (the last vertex is not repeated).
#[derive(Debug, Clone)]
pub struct Polygon {
    pub points: Vec<Point2D>,
}

/// Every vertex lies on the supported grid.
pub open spec fn poly_in_range(pts: Seq<Point2D>) -> bool {
    forall|i: int| 0 <= i < pts.len() ==> in_range(#[trigger] pts[i])
}

/// The index that follows `i` on the closed ring.
pub open spec fn spec_next_idx(len: int, i: int) -> int {
    if i + 1 == len {
        0
    } else {
        i + 1
    }
}

/// The shoelace sum over the first `k` edges:
/// `sum x_i*y_{i+1} - x_{i+1}*y_i`.
pub open spec fn spec_shoelace_sum(pts: Seq<Point2D>, k: int) -> int
    decreases k,
{
    if k <= 0 {
        0
    } else {
        let i = k - 1;
        let j = spec_next_idx(pts.len() as int, i);
        spec_shoelace_sum(pts, i) + pts[i].x * pts[j].y - pts[j].x * pts[i].y
    }
}

/// Twice the signed area of the polygon.
pub open spec fn spec_shoelace(pts: Seq<Point2D>) -> int {
    spec_shoelace_sum(pts, pts.len() as int)
}

/// The orientation sum over the first `k` edges:
/// `sum (x_{i+1} - x_i) * (y_{i+1} + y_i)`.
pub open spec fn spec_orient_sum(pts: Seq<Point2D>, k: int) -> int
    decreases k,
{
    if k <= 0 {
        0
    } else {
        let i = k - 1;
        let j = spec_next_idx(pts.len() as int, i);
        spec_orient_sum(pts, i) + (pts[j].x - pts[i].x) * (pts[j].y + pts[i].y)
    }
}

pub open spec fn spec_orientation(pts: Seq<Point2D>) -> int {
    spec_orient_sum(pts, pts.len() as int)
}

pub open spec fn spec_min_x(pts: Seq<Point2D>) -> int
    decreases pts.len(),
{
    if pts.len() == 0 {
        0
    } else if pts.len() == 1 {
        pts[0].x as int
    } else if pts.last().x < spec_min_x(pts.drop_last()) {
        pts.last().x as int
    } else {
        spec_min_x(pts.drop_last())
    }
}

pub open spec fn spec_max_x(pts: Seq<Point2D>) -> int
    decreases pts.len(),
{
    if pts.len() == 0 {
        0
    } else if pts.len() == 1 {
        pts[0].x as int
    } else if pts.last().x > spec_max_x(pts.drop_last()) {
        pts.last().x as int
    } else {
        spec_max_x(pts.drop_last())
    }
}

pub open spec fn spec_min_y(pts: Seq<Point2D>) -> int
    decreases pts.len(),
{
    if pts.len() == 0 {
        0
    } else if pts.len() == 1 {
        pts[0].y as int
    } else if pts.last().y < spec_min_y(pts.drop_last()) {
        pts.last().y as int
    } else {
        spec_min_y(pts.drop_last())
    }
}

pub open spec fn spec_max_y(pts: Seq<Point2D>) -> int
    decreases pts.len(),
{
    if pts.len() == 0 {
        0
    } else if pts.len() == 1 {
        pts[0].y as int
    } else if pts.last().y > spec_max_y(pts.drop_last()) {
        pts.last().y as int
    } else {
        spec_max_y(pts.drop_last())
    }
}

pub open spec fn spec_sign(v: int) -> int {
    if v > 0 {
        1
    } else if v < 0 {
        -1
    } else {
        0
    }
}

/// The ray origin strictly outside the polygon's bounding box.
pub open spec fn spec_outside_point(pts: Seq<Point2D>) -> Point2D {
    Point2D { x: (spec_max_x(pts) + 1) as i64, y: (spec_max_y(pts) + 1) as i64 }
}

/// The first vertex index at which the ray through `q` is not collinear
/// with the vertex; the length when every vertex is collinear with the ray.
pub open spec fn spec_first_nonzero(
    pts: Seq<Point2D>,
    outside: Point2D,
    q: Point2D,
    i: int,
) -> int
    decreases pts.len() - i,
{
    if i < 0 || i >= pts.len() {
        pts.len() as int
    } else if spec_ccw(outside, q, pts[i]) != 0 {
        i
    } else {
        spec_first_nonzero(pts, outside, q, i + 1)
    }
}

/// The crossing-count walk: from vertex position `j` (exclusive bound
/// `endj`), watching for sign changes of the orientation of each vertex
/// against the ray, and counting the edges that the ray actually crosses.
pub open spec fn spec_walk(
    pts: Seq<Point2D>,
    outside: Point2D,
    q: Point2D,
    j: int,
    endj: int,
    last: int,
    steps: int,
) -> int
    decreases endj - j,
{
    if j >= endj || pts.len() == 0 {
        steps
    } else {
        let w = j % (pts.len() as int);
        let s = spec_sign(spec_ccw(outside, q, pts[w]));
        if s - last == 2 || s - last == -2 {
            let prev = if w == 0 {
                pts.len() - 1
            } else {
                w - 1
            };
            if spec_ccw(pts[prev], pts[w], outside) * spec_ccw(pts[prev], pts[w], q) <= 0 {
                spec_walk(pts, outside, q, j + 1, endj, s, steps + 1)
            } else {
                spec_walk(pts, outside, q, j + 1, endj, s, steps)
            }
        } else {
            spec_walk(pts, outside, q, j + 1, endj, last, steps)
        }
    }
}

/// Ray-crossing containment: shoot a ray from just outside the bounding box
/// to `q` and count how many edges it crosses; `q` is inside exactly when
/// that count is odd.
pub open spec fn spec_poly_contains(pts: Seq<Point2D>, q: Point2D) -> bool {
    if pts.len() == 0 {
        false
    } else {
        let outside = spec_outside_point(pts);
        let i = spec_first_nonzero(pts, outside, q, 0);
        if i >= pts.len() {
            false
        } else {
            let last = spec_sign(spec_ccw(outside, q, pts[i]));
            spec_walk(pts, outside, q, i + 1, i + pts.len() + 1, last, 0) % 2 == 1
        }
    }
}

impl Polygon {
    pub fn new() -> (p: Polygon)
        ensures
            p.points@.len() == 0,
    {
        Polygon { points: Vec::new() }
    }

    pub fn with_capacity(capacity: usize) -> (p: Polygon)
        ensures
            p.points@.len() == 0,
    {
        Polygon { points: Vec::with_capacity(capacity) }
    }

    pub fn add_point(&mut self, point: Point2D)
        ensures
            final(self).points@ == old(self).points@.push(point),
    {
        self.points.push(point);
    }

    /// Appends the vertex `(x, y)`.
    pub fn push(&mut self, x: i64, y: i64)
        ensures
            final(self).points@ == old(self).points@.push(Point2D { x, y }),
    {
        self.points.push(Point2D { x, y });
    }

    /// Appends a vertex displaced from the last one (or from the origin for
    /// an empty polygon).
    pub fn push_relative(&mut self, dx: i64, dy: i64)
        requires
            old(self).points@.len() > 0 ==> {
                &&& i64::MIN <= old(self).points@.last().x + dx <= i64::MAX
                &&& i64::MIN <= old(self).points@.last().y + dy <= i64::MAX
            },
        ensures
            final(self).points@ == old(self).points@.push(
                if old(self).points@.len() == 0 {
                    Point2D { x: dx, y: dy }
                } else {
                    Point2D {
                        x: (old(self).points@.last().x + dx) as i64,
                        y: (old(self).points@.last().y + dy) as i64,
                    }
                },
            ),
    {
        if self.points.len() == 0 {
            self.points.push(Point2D { x: dx, y: dy });
        } else {
            let last = self.points[self.points.len() - 1];
            self.points.push(Point2D { x: last.x + dx, y: last.y + dy });
        }
    }

    /// The polygon's area: the absolute shoelace sum, halved.
    pub fn get_area(&self) -> (r: Frac)
        requires
            poly_in_range(self.points@),
        ensures
            r.den == 2,
            r.num == if spec_shoelace(self.points@) >= 0 {
                spec_shoelace(self.points@)
            } else {
                -spec_shoelace(self.points@)
            },
            0 <= r.num <= 2_000_000_000_000 * self.points@.len(),
    {
        let n = self.points.len();
        let sum = self.shoelace();
        proof {
            assert(2_000_000_000_000 * self.points@.len()
                < 0x8000_0000_0000_0000_0000_0000_0000_0000) by (nonlinear_arith)
                requires
                    self.points@.len() == n as int,
                    n <= 0xFFFF_FFFF_FFFF_FFFF,
            ;
        }
        if sum >= 0 {
            Frac { num: sum, den: 2 }
        } else {
            Frac { num: -sum, den: 2 }
        }
    }

    /// Twice the signed area of the polygon, by the shoelace sum.
    pub fn shoelace(&self) -> (sum: i128)
        requires
            poly_in_range(self.points@),
        ensures
            sum == spec_shoelace(self.points@),
            -2_000_000_000_000 * self.points@.len() <= sum <= 2_000_000_000_000
                * self.points@.len(),
    {
        let n = self.points.len();
        let mut sum: i128 = 0;
        let mut i: usize = 0;
        while i < n
            invariant
                n == self.points@.len(),
                i <= n,
                poly_in_range(self.points@),
                sum == spec_shoelace_sum(self.points@, i as int),
                -2_000_000_000_000 * i <= sum <= 2_000_000_000_000 * i,
            decreases n - i,
        {
            let j = if i + 1 == n {
                0
            } else {
                i + 1
            };
            let pi = self.points[i];
            let pj = self.points[j];
            proof {
                lemma_mul_bound(pi.x as int, pj.y as int, 1_000_000, 1_000_000);
                lemma_mul_bound(pj.x as int, pi.y as int, 1_000_000, 1_000_000);
                assert(-2_000_000_000_000 * (i + 1) == -2_000_000_000_000 * i
                    - 2_000_000_000_000) by (nonlinear_arith);
                assert(2_000_000_000_000 * (i + 1) == 2_000_000_000_000 * i
                    + 2_000_000_000_000) by (nonlinear_arith);
            }
            sum = sum + pi.x as i128 * pj.y as i128 - pj.x as i128 * pi.y as i128;
            i = i + 1;
        }
        sum
    }

    /// Whether the ring is clockwise: the orientation sum is positive.
    pub fn is_clockwise(&self) -> (r: bool)
        requires
            poly_in_range(self.points@),
        ensures
            r == (spec_orientation(self.points@) > 0),
    {
        let n = self.points.len();
        let mut sum: i128 = 0;
        let mut i: usize = 0;
        while i < n
            invariant
                n == self.points@.len(),
                i <= n,
                poly_in_range(self.points@),
                sum == spec_orient_sum(self.points@, i as int),
                -8_000_000_000_000 * i <= sum <= 8_000_000_000_000 * i,
            decreases n - i,
        {
            let j = if i + 1 == n {
                0
            } else {
                i + 1
            };
            let pi = self.points[i];
            let pj = self.points[j];
            proof {
                lemma_mul_bound(
                    (pj.x - pi.x) as int,
                    (pj.y + pi.y) as int,
                    2_000_000,
                    2_000_000,
                );
                assert(-8_000_000_000_000 * (i + 1) == -8_000_000_000_000 * i
                    - 8_000_000_000_000) by (nonlinear_arith);
                assert(8_000_000_000_000 * (i + 1) == 8_000_000_000_000 * i
                    + 8_000_000_000_000) by (nonlinear_arith);
            }
            sum = sum + (pj.x as i128 - pi.x as i128) * (pj.y as i128 + pi.y as i128);
            i = i + 1;
        }
        sum > 0
    }

    /// The bounding box: the bottom-left and top-right corner.
    pub fn get_bbox(&self) -> (r: (Point2D, Point2D))
        requires
            poly_in_range(self.points@),
            self.points@.len() > 0,
        ensures
            r.0.x == spec_min_x(self.points@),
            r.0.y == spec_min_y(self.points@),
            r.1.x == spec_max_x(self.points@),
            r.1.y == spec_max_y(self.points@),
    {
        let n = self.points.len();
        let mut min_x = self.points[0].x;
        let mut min_y = self.points[0].y;
        let mut max_x = self.points[0].x;
        let mut max_y = self.points[0].y;
        let mut i: usize = 1;
        while i < n
            invariant
                n == self.points@.len(),
                1 <= i <= n,
                poly_in_range(self.points@),
                min_x == spec_min_x(self.points@.take(i as int)),
                min_y == spec_min_y(self.points@.take(i as int)),
                max_x == spec_max_x(self.points@.take(i as int)),
                max_y == spec_max_y(self.points@.take(i as int)),
            decreases n - i,
        {
            let p = self.points[i];
            proof {
                assert(self.points@.take(i + 1 as int).drop_last() =~= self.points@.take(
                    i as int,
                ));
                assert(self.points@.take(i + 1 as int).last() == self.points@[i as int]);
            }
            if p.x < min_x {
                min_x = p.x;
            }
            if p.y < min_y {
                min_y = p.y;
            }
            if p.x > max_x {
                max_x = p.x;
            }
            if p.y > max_y {
                max_y = p.y;
            }
            i = i + 1;
        }
        proof {
            assert(self.points@.take(n as int) =~= self.points@);
        }
        (Point2D { x: min_x, y: min_y }, Point2D { x: max_x, y: max_y })
    }

    /// Whether `point` lies inside the polygon (boundary points count as
    /// inside), by ray crossing.
    pub fn contains(&self, point: Point2D) -> (r: bool)
        requires
            poly_in_range(self.points@),
            in_range(point),
            self.points@.len() < 1_000_000_000,
        ensures
            r == spec_poly_contains(self.points@, point),
    {
        let n = self.points.len();
        if n == 0 {
            return false;
        }
        let ghost pts = self.points@;
        let (_, bbox_max) = self.get_bbox();
        proof {
            lemma_minmax_range(pts);
        }
        let outside = Point2D { x: bbox_max.x + 1, y: bbox_max.y + 1 };
        proof {
            assert(outside == spec_outside_point(pts));
        }
        let mut i: usize = 0;
        while i < n && Point2D::ccw(&outside, &point, &self.points[i]) == 0
            invariant
                n == pts.len(),
                self.points@ == pts,
                i <= n,
                poly_in_range(pts),
                in_range(point),
                in_range_ext(outside),
                spec_first_nonzero(pts, outside, point, i as int) == spec_first_nonzero(
                    pts,
                    outside,
                    point,
                    0,
                ),
            decreases n - i,
        {
            i = i + 1;
        }
        if i == n {
            return false;
        }
        let mut last_result = sign_of(Point2D::ccw(&outside, &point, &self.points[i]));
        let mut steps: usize = 0;
        let endj = i + n + 1;
        let mut j = i + 1;
        proof {
            assert(spec_first_nonzero(pts, outside, point, 0) == i as int);
        }
        let ghost last0 = spec_sign(spec_ccw(outside, point, pts[i as int]));
        while j < endj
            invariant
                n == pts.len(),
                self.points@ == pts,
                n > 0,
                poly_in_range(pts),
                in_range(point),
                in_range_ext(outside),
                i < n,
                endj == i + n + 1,
                i + 1 <= j <= endj,
                steps <= j,
                last_result == 1 || last_result == -1 || last_result == 0,
                spec_walk(pts, outside, point, j as int, endj as int, last_result as int,
                    steps as int) == spec_walk(pts, outside, point, i + 1 as int, endj as int,
                    last0, 0),
            decreases endj - j,
        {
            let w = j % n;
            let result = sign_of(Point2D::ccw(&outside, &point, &self.points[w]));
            if result - last_result == 2 || result - last_result == -2 {
                let previous = if w == 0 {
                    n - 1
                } else {
                    w - 1
                };
                let c1 = Point2D::ccw(&self.points[previous], &self.points[w], &outside);
                let c2 = Point2D::ccw(&self.points[previous], &self.points[w], &point);
                proof {
                    lemma_mul_bound(c1 as int, c2 as int, 7_000_000_000_000, 7_000_000_000_000);
                }
                if c1 * c2 <= 0 {
                    steps = steps + 1;
                }
                last_result = result;
            }
            j = j + 1;
        }
        steps % 2 == 1
    }

    /// Whether every vertex of `self` lies inside `other`.
    pub fn is_nested(&self, other: &Polygon) -> (r: bool)
        requires
            poly_in_range(self.points@),
            poly_in_range(other.points@),
            other.points@.len() < 1_000_000_000,
        ensures
            r == forall|i: int|
                0 <= i < self.points@.len() ==> spec_poly_contains(
                    other.points@,
                    #[trigger] self.points@[i],
                ),
    {
        let n = self.points.len();
        let mut i: usize = 0;
        while i < n
            invariant
                n == self.points@.len(),
                i <= n,
                poly_in_range(self.points@),
                poly_in_range(other.points@),
                other.points@.len() < 1_000_000_000,
                forall|k: int|
                    0 <= k < i ==> spec_poly_contains(other.points@, #[trigger] self.points@[k]),
            decreases n - i,
        {
            if !other.contains(self.points[i]) {
                return false;
            }
            i = i + 1;
        }
        true
    }

    /// Whether every vertex of `other` lies inside `self`.
    pub fn contains_other(&self, other: &Polygon) -> (r: bool)
        requires
            poly_in_range(self.points@),
            poly_in_range(other.points@),
            self.points@.len() < 1_000_000_000,
        ensures
            r == forall|i: int|
                0 <= i < other.points@.len() ==> spec_poly_contains(
                    self.points@,
                    #[trigger] other.points@[i],
                ),
    {
        other.is_nested(self)
    }

    /// Scales every vertex coordinate-wise by the integer factors.
    pub fn scale(&mut self, ax: i64, ay: i64)
        requires
            forall|i: int|
                0 <= i < old(self).points@.len() ==> {
                    &&& i64::MIN <= (#[trigger] old(self).points@[i]).x * ax <= i64::MAX
                    &&& i64::MIN <= old(self).points@[i].y * ay <= i64::MAX
                },
        ensures
            final(self).points@.len() == old(self).points@.len(),
            forall|i: int|
                0 <= i < old(self).points@.len() ==> final(self).points@[i] == (Point2D {
                    x: ((#[trigger] old(self).points@[i]).x * ax) as i64,
                    y: (old(self).points@[i].y * ay) as i64,
                }),
    {
        let n = self.points.len();
        let mut out: Vec<Point2D> = Vec::new();
        let mut i: usize = 0;
        while i < n
            invariant
                n == self.points@.len(),
                self.points@ == old(self).points@,
                i <= n,
                out@.len() == i,
                forall|k: int|
                    0 <= k < old(self).points@.len() ==> {
                        &&& i64::MIN <= (#[trigger] old(self).points@[k]).x * ax <= i64::MAX
                        &&& i64::MIN <= old(self).points@[k].y * ay <= i64::MAX
                    },
                forall|k: int|
                    0 <= k < i ==> out@[k] == (Point2D {
                        x: ((#[trigger] old(self).points@[k]).x * ax) as i64,
                        y: (old(self).points@[k].y * ay) as i64,
                    }),
            decreases n - i,
        {
            let p = self.points[i];
            out.push(Point2D { x: p.x * ax, y: p.y * ay });
            i = i + 1;
        }
        self.points = out;
    }
}

/// The sign of an orientation value, as an `i8`.
fn sign_of(v: i128) -> (s: i8)
    ensures
        s as int == spec_sign(v as int),
{
    if v > 0 {
        1
    } else if v < 0 {
        -1
    } else {
        0
    }
}

/// The bounding box of an in-range polygon stays on the grid.
proof fn lemma_minmax_range(pts: Seq<Point2D>)
    requires
        poly_in_range(pts),
        pts.len() > 0,
    ensures
        -(MAX_COORD as int) <= spec_min_x(pts) <= MAX_COORD as int,
        -(MAX_COORD as int) <= spec_min_y(pts) <= MAX_COORD as int,
        -(MAX_COORD as int) <= spec_max_x(pts) <= MAX_COORD as int,
        -(MAX_COORD as int) <= spec_max_y(pts) <= MAX_COORD as int,
    decreases pts.len(),
{
    if pts.len() == 1 {
        assert(in_range(pts[0]));
    } else {
        assert(in_range(pts.last()));
        assert forall|i: int| 0 <= i < pts.drop_last().len() implies in_range(
            #[trigger] pts.drop_last()[i],
        ) by {
            assert(pts.drop_last()[i] == pts[i]);
        }
        lemma_minmax_range(pts.drop_last());
    }
}

/// A triangle, with the primitives the polygon subsystem shares.
#[derive(Debug, Clone, Copy)]
pub struct Triangle {
    a: Point2D,
    b: Point2D,
    c: Point2D,
}

impl Triangle {
    pub fn new(a: Point2D, b: Point2D, c: Point2D) -> (t: Triangle)
        ensures
            t.spec_vertices() == (a, b, c),
    {
        Triangle { a, b, c }
    }

    pub closed spec fn spec_vertices(self) -> (Point2D, Point2D, Point2D) {
        (self.a, self.b, self.c)
    }

    /// The triangle's area: half the absolute orientation value.
    pub fn get_area(&self) -> (r: Frac)
        requires
            in_range(self.spec_vertices().0),
            in_range(self.spec_vertices().1),
            in_range(self.spec_vertices().2),
        ensures
            r.den == 2,
            r.num == if spec_ccw(self.spec_vertices().0, self.spec_vertices().1,
                self.spec_vertices().2) >= 0 {
                spec_ccw(self.spec_vertices().0, self.spec_vertices().1, self.spec_vertices().2)
            } else {
                -spec_ccw(self.spec_vertices().0, self.spec_vertices().1, self.spec_vertices().2)
            },
    {
        let v = Point2D::ccw(&self.a, &self.b, &self.c);
        if v >= 0 {
            Frac { num: v, den: 2 }
        } else {
            Frac { num: -v, den: 2 }
        }
    }

    /// Whether `point` lies in the triangle (boundary included): the three
    /// signed areas against the sides may not carry both signs.
    pub fn contains_point(&self, point: Point2D) -> (r: bool)
        requires
            in_range(self.spec_vertices().0),
            in_range(self.spec_vertices().1),
            in_range(self.spec_vertices().2),
            in_range(point),
        ensures
            r == {
                let d1 = spec_ccw(point, self.spec_vertices().0, self.spec_vertices().1);
                let d2 = spec_ccw(point, self.spec_vertices().1, self.spec_vertices().2);
                let d3 = spec_ccw(point, self.spec_vertices().2, self.spec_vertices().0);
                !((d1 < 0 || d2 < 0 || d3 < 0) && (d1 > 0 || d2 > 0 || d3 > 0))
            },
    {
        let d1 = Point2D::ccw(&point, &self.a, &self.b);
        let d2 = Point2D::ccw(&point, &self.b, &self.c);
        let d3 = Point2D::ccw(&point, &self.c, &self.a);
        let has_neg = d1 < 0 || d2 < 0 || d3 < 0;
        let has_pos = d1 > 0 || d2 > 0 || d3 > 0;
        !(has_neg && has_pos)
    }
}

} // verus!
