use vstd::prelude::*;
use crate::geom::{in_range, lemma_mul_bound, Point2D};
use crate::line::{seg_in_range, Line2D};
use crate::classify::{spec_intersects};

verus! {

/// The intersecting pairs among positions `(i, j)` and beyond, in pair
/// order, appended to `acc`.
pub open spec fn spec_pairs_rec(
    lines: Seq<Line2D>,
    i: int,
    j: int,
    acc: Seq<(Line2D, Line2D)>,
) -> Seq<(Line2D, Line2D)>
    decreases lines.len() - i, lines.len() - j,
{
    if i < 0 || j <= i || i >= lines.len() {
        acc
    } else if j >= lines.len() {
        spec_pairs_rec(lines, i + 1, i + 2, acc)
    } else if spec_intersects(lines[i], lines[j]) {
        spec_pairs_rec(lines, i, j + 1, acc.push((lines[i], lines[j])))
    } else {
        spec_pairs_rec(lines, i, j + 1, acc)
    }
}

/// All intersecting pairs of the input, by the straddle test, in pair
/// order.
pub open spec fn spec_get_intersections(lines: Seq<Line2D>) -> Seq<(Line2D, Line2D)> {
    spec_pairs_rec(lines, 0, 1, Seq::empty())
}

/// The naive all-pairs intersector: every pair `i < j` whose segments
/// intersect, in pair order.
pub fn get_intersections(lines: &Vec<Line2D>) -> (r: Vec<(Line2D, Line2D)>)
    requires
        forall|i: int| 0 <= i < lines@.len() ==> seg_in_range(#[trigger] lines@[i]),
    ensures
        r@ == spec_get_intersections(lines@),
{
    let n = lines.len();
    let mut out: Vec<(Line2D, Line2D)> = Vec::new();
    let mut i: usize = 0;
    while i < n
        invariant
            n == lines@.len(),
            i <= n,
            forall|k: int| 0 <= k < lines@.len() ==> seg_in_range(#[trigger] lines@[k]),
            spec_pairs_rec(lines@, i as int, i + 1 as int, out@) == spec_get_intersections(
                lines@,
            ),
        decreases n - i,
    {
        let mut j: usize = i + 1;
        while j < n
            invariant
                n == lines@.len(),
                i < n,
                i < j,
                j <= n,
                forall|k: int| 0 <= k < lines@.len() ==> seg_in_range(#[trigger] lines@[k]),
                spec_pairs_rec(lines@, i as int, j as int, out@) == spec_get_intersections(
                    lines@,
                ),
            decreases n - j,
        {
            if lines[i].intersects(lines[j]) {
                out.push((lines[i], lines[j]));
            }
            j = j + 1;
        }
        i = i + 1;
    }
    out
}

/// The doubled signed area of the triangle `(p1, p2, p3)`, in the expanded
/// form the naive counter uses.
pub open spec fn spec_css(p1: Point2D, p2: Point2D, p3: Point2D) -> int {
    p2.x * (p3.y - p1.y) + p2.y * (p1.x - p3.x) + p3.x * (p1.y - p2.y)
}

/// Cross product of the vectors `p1p2` and `p1p3`, exactly.
pub fn css(p1: &Point2D, p2: &Point2D, p3: &Point2D) -> (c: i128)
    requires
        in_range(*p1),
        in_range(*p2),
        in_range(*p3),
    ensures
        c == spec_css(*p1, *p2, *p3),
        -6_000_000_000_000 <= c <= 6_000_000_000_000,
{
    proof {
        lemma_mul_bound(p2.x as int, (p3.y - p1.y) as int, 1_000_000, 2_000_000);
        lemma_mul_bound(p2.y as int, (p1.x - p3.x) as int, 1_000_000, 2_000_000);
        lemma_mul_bound(p3.x as int, (p1.y - p2.y) as int, 1_000_000, 2_000_000);
    }
    p2.x as i128 * (p3.y as i128 - p1.y as i128) + p2.y as i128 * (p1.x as i128 - p3.x as i128)
        + p3.x as i128 * (p1.y as i128 - p2.y as i128)
}

/// The straddle product of `line2`'s endpoints against `line1`.
pub open spec fn spec_css_line(line1: Line2D, line2: Line2D) -> int {
    spec_css(line1.start, line1.end, line2.start) * spec_css(line1.start, line1.end, line2.end)
}

/// Negative exactly when `line2`'s endpoints lie strictly on opposite sides
/// of `line1`'s supporting line.
pub fn css_line(line1: &Line2D, line2: &Line2D) -> (c: i128)
    requires
        seg_in_range(*line1),
        seg_in_range(*line2),
    ensures
        c == spec_css_line(*line1, *line2),
{
    let a = css(&line1.start, &line1.end, &line2.start);
    let b = css(&line1.start, &line1.end, &line2.end);
    proof {
        lemma_mul_bound(a as int, b as int, 6_000_000_000_000, 6_000_000_000_000);
    }
    a * b
}

/// How many pairs from `(i, j)` on have a strictly negative straddle
/// product, plus `c`.
pub open spec fn spec_count_rec(lines: Seq<Line2D>, i: int, j: int, c: int) -> int
    decreases lines.len() - i, lines.len() - j,
{
    if i < 0 || j <= i || i >= lines.len() {
        c
    } else if j >= lines.len() {
        spec_count_rec(lines, i + 1, i + 2, c)
    } else if spec_css_line(lines[i], lines[j]) < 0 {
        spec_count_rec(lines, i, j + 1, c + 1)
    } else {
        spec_count_rec(lines, i, j + 1, c)
    }
}

/// Counts the pairs that strictly straddle: an underestimate of the
/// intersection count that ignores touchings and collinear contacts.
pub fn count_intersections(lines: &Vec<Line2D>) -> (c: usize)
    requires
        forall|i: int| 0 <= i < lines@.len() ==> seg_in_range(#[trigger] lines@[i]),
        lines@.len() < 0x1_0000,
    ensures
        c == spec_count_rec(lines@, 0, 1, 0),
{
    let n = lines.len();
    let mut count: usize = 0;
    let mut i: usize = 0;
    while i < n
        invariant
            n == lines@.len(),
            n < 0x1_0000,
            i <= n,
            count <= i * (n + 1),
            forall|k: int| 0 <= k < lines@.len() ==> seg_in_range(#[trigger] lines@[k]),
            spec_count_rec(lines@, i as int, i + 1 as int, count as int) == spec_count_rec(
                lines@,
                0,
                1,
                0,
            ),
        decreases n - i,
    {
        let mut j: usize = i + 1;
        proof {
            assert(i * (n + 1) == i * n + i) by (nonlinear_arith);
        }
        while j < n
            invariant
                n == lines@.len(),
                n < 0x1_0000,
                i < n,
                i < j,
                j <= n,
                count <= i * n + j,
                forall|k: int| 0 <= k < lines@.len() ==> seg_in_range(#[trigger] lines@[k]),
                spec_count_rec(lines@, i as int, j as int, count as int) == spec_count_rec(
                    lines@,
                    0,
                    1,
                    0,
                ),
            decreases n - j,
        {
            if css_line(&lines[i], &lines[j]) < 0 {
                proof {
                    assert(i * n + j + 1 < 0xFFFF_FFFF) by (nonlinear_arith)
                        requires
                            0 <= i < n,
                            0 <= j <= n,
                            n < 0x1_0000,
                    ;
                    assert(usize::MAX >= 0xFFFF_FFFF);
                }
                count = count + 1;
            }
            j = j + 1;
        }
        proof {
            assert(i * n + n <= (i + 1) * (n + 1)) by (nonlinear_arith)
                requires
                    0 <= i,
                    0 <= n,
            ;
        }
        i = i + 1;
    }
    count
}

} // verus!
