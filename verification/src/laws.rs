use vstd::prelude::*;
use crate::geom::{spec_ccw, Point2D};
use crate::frac::{rp_eq, RPoint};
use crate::line::{seg_in_range, Line2D};
use crate::intersection::{record_equiv, record_wf, Intersection};
use crate::classify::{spec_classify, spec_denom};
use crate::handler::{sound_record, spec_insert_record};
use crate::polygon::{spec_next_idx, spec_shoelace, spec_shoelace_sum, spec_sign};

verus! {

/// The orientation predicate flips sign when the last two points swap:
/// `sign(ccw(p, q, r)) == -sign(ccw(p, r, q))`.
pub proof fn lemma_ccw_sign_law(p: Point2D, q: Point2D, r: Point2D)
    ensures
        spec_ccw(p, q, r) == -spec_ccw(p, r, q),
        spec_sign(spec_ccw(p, q, r)) == -spec_sign(spec_ccw(p, r, q)),
{
}

/// Reporting a record into the deduplicated result set is idempotent:
/// inserting the same record a second time leaves the set unchanged.
pub proof fn lemma_insert_record_idempotent(results: Seq<Intersection>, r: Intersection)
    ensures
        spec_insert_record(spec_insert_record(results, r), r) == spec_insert_record(results, r),
{
    let once = spec_insert_record(results, r);
    if crate::handler::spec_results_have(results, r) {
    } else {
        assert(once == results.push(r));
        assert(once[once.len() - 1] == r);
        assert(record_equiv(r, r));
        assert(crate::handler::spec_results_have(once, r));
    }
}

/// Sweeping one input twice yields equal result sets: the outcome is a
/// function of the input and the policy, which the sweep's contract pins
/// exactly, so any two successful runs agree.
pub proof fn lemma_sweep_runs_agree(
    lines: Seq<Line2D>,
    opts: crate::handler::SweepLineOptions,
    r1: Seq<Intersection>,
    r2: Seq<Intersection>,
)
    requires
        crate::handler::spec_sweep_outcome(lines, opts) == Ok::<Seq<Intersection>,
            crate::handler::SweepError,
        >(r1),
        crate::handler::spec_sweep_outcome(lines, opts) == Ok::<Seq<Intersection>,
            crate::handler::SweepError,
        >(r2),
    ensures
        r1 == r2,
{
}

/// Scaling every vertex by `(ax, ay)` scales the shoelace sum by `ax * ay`,
/// and hence the area by `|ax * ay|`.
pub open spec fn spec_scaled(pts: Seq<Point2D>, ax: int, ay: int) -> Seq<Point2D> {
    Seq::new(
        pts.len(),
        |i: int|
            Point2D { x: (pts[i].x * ax) as i64, y: (pts[i].y * ay) as i64 },
    )
}

/// The vertices stay inside `i64` after scaling.
pub open spec fn spec_scale_fits(pts: Seq<Point2D>, ax: int, ay: int) -> bool {
    forall|i: int|
        0 <= i < pts.len() ==> {
            &&& i64::MIN <= (#[trigger] pts[i]).x * ax <= i64::MAX
            &&& i64::MIN <= pts[i].y * ay <= i64::MAX
        }
}

proof fn lemma_shoelace_scale_sum(pts: Seq<Point2D>, ax: int, ay: int, k: int)
    requires
        spec_scale_fits(pts, ax, ay),
        0 <= k <= pts.len(),
    ensures
        spec_shoelace_sum(spec_scaled(pts, ax, ay), k) == ax * ay * spec_shoelace_sum(pts, k),
    decreases k,
{
    let sc = spec_scaled(pts, ax, ay);
    if k <= 0 {
        assert(ax * ay * 0 == 0) by (nonlinear_arith);
    } else {
        lemma_shoelace_scale_sum(pts, ax, ay, k - 1);
        let i = k - 1;
        let j = spec_next_idx(pts.len() as int, i);
        let xi = pts[i].x as int;
        let yi = pts[i].y as int;
        let xj = pts[j].x as int;
        let yj = pts[j].y as int;
        assert(sc[i].x == xi * ax && sc[i].y == yi * ay);
        assert(sc[j].x == xj * ax && sc[j].y == yj * ay);
        assert((xi * ax) * (yj * ay) == (ax * ay) * (xi * yj)) by (nonlinear_arith);
        assert((xj * ax) * (yi * ay) == (ax * ay) * (xj * yi)) by (nonlinear_arith);
        assert((ax * ay) * (xi * yj) - (ax * ay) * (xj * yi) == ax * ay * (xi * yj - xj * yi))
            by (nonlinear_arith);
        let prev = spec_shoelace_sum(pts, i);
        assert(ax * ay * (prev + (xi * yj - xj * yi)) == ax * ay * prev + ax * ay * (xi * yj - xj
            * yi)) by (nonlinear_arith);
    }
}

/// Shoelace scaling law: scaling the ring by `(ax, ay)` multiplies the
/// signed shoelace sum by `ax * ay`, so the area scales by `|ax * ay|`.
pub proof fn lemma_shoelace_scale(pts: Seq<Point2D>, ax: int, ay: int)
    requires
        spec_scale_fits(pts, ax, ay),
    ensures
        spec_shoelace(spec_scaled(pts, ax, ay)) == ax * ay * spec_shoelace(pts),
{
    lemma_shoelace_scale_sum(pts, ax, ay, pts.len() as int);
}

/// The ring with its vertices in the opposite order.
pub open spec fn spec_reversed(pts: Seq<Point2D>) -> Seq<Point2D> {
    Seq::new(pts.len(), |i: int| pts[pts.len() - 1 - i])
}

/// The cross product of two position vectors: one shoelace term.
pub open spec fn spec_cross_term(a: Point2D, b: Point2D) -> int {
    a.x * b.y - b.x * a.y
}

/// The open chain sum over the first `k` edges (no closing edge).
pub open spec fn spec_chain_to(pts: Seq<Point2D>, k: int) -> int
    decreases k,
{
    if k <= 0 {
        0
    } else {
        spec_chain_to(pts, k - 1) + spec_cross_term(pts[k - 1], pts[k])
    }
}

/// The open chain sum from vertex `s` to the ring's last vertex.
pub open spec fn spec_chain_from(pts: Seq<Point2D>, s: int) -> int
    decreases pts.len() - s,
{
    if s < 0 || s >= pts.len() - 1 {
        0
    } else {
        spec_cross_term(pts[s], pts[s + 1]) + spec_chain_from(pts, s + 1)
    }
}

/// The cyclic shoelace sum splits into the open chain and the closing
/// edge.
proof fn lemma_shoelace_is_chain(pts: Seq<Point2D>, k: int)
    requires
        0 <= k <= pts.len() - 1,
    ensures
        spec_shoelace_sum(pts, k) == spec_chain_to(pts, k),
    decreases k,
{
    if k > 0 {
        lemma_shoelace_is_chain(pts, k - 1);
    }
}

/// The reversed chain is the negated suffix chain.
proof fn lemma_chain_reverse(pts: Seq<Point2D>, k: int)
    requires
        0 <= k <= pts.len() - 1,
    ensures
        spec_chain_to(spec_reversed(pts), k) == -spec_chain_from(pts, pts.len() - 1 - k),
    decreases k,
{
    let rev = spec_reversed(pts);
    let n = pts.len() as int;
    if k > 0 {
        lemma_chain_reverse(pts, k - 1);
        assert(rev[k - 1] == pts[n - k]);
        assert(rev[k] == pts[n - 1 - k]);
        assert(spec_cross_term(pts[n - k], pts[n - 1 - k]) == -spec_cross_term(
            pts[n - 1 - k],
            pts[n - k],
        ));
        assert(spec_chain_from(pts, n - 1 - k) == spec_cross_term(pts[n - 1 - k], pts[n - k])
            + spec_chain_from(pts, n - k));
    }
}

/// The prefix and suffix chains cover the same edges.
proof fn lemma_chain_split(pts: Seq<Point2D>, s: int)
    requires
        0 <= s <= pts.len() - 1,
    ensures
        spec_chain_from(pts, s) == spec_chain_to(pts, pts.len() - 1) - spec_chain_to(pts, s),
    decreases pts.len() - s,
{
    if s < pts.len() - 1 {
        lemma_chain_split(pts, s + 1);
    }
}

/// Shoelace reversal law: walking the ring backwards negates the signed
/// shoelace sum, so the area is unchanged.
pub proof fn lemma_shoelace_reverse(pts: Seq<Point2D>)
    ensures
        spec_shoelace(spec_reversed(pts)) == -spec_shoelace(pts),
{
    let rev = spec_reversed(pts);
    let n = pts.len() as int;
    if n == 0 {
    } else {
        lemma_shoelace_is_chain(pts, n - 1);
        lemma_shoelace_is_chain(rev, n - 1);
        lemma_chain_reverse(pts, n - 1);
        lemma_chain_split(pts, 0);
        assert(spec_shoelace(pts) == spec_shoelace_sum(pts, n - 1) + spec_cross_term(
            pts[n - 1],
            pts[0],
        ));
        assert(spec_shoelace(rev) == spec_shoelace_sum(rev, n - 1) + spec_cross_term(
            rev[n - 1],
            rev[0],
        ));
        assert(rev[n - 1] == pts[0]);
        assert(rev[0] == pts[n - 1]);
        assert(spec_cross_term(pts[0], pts[n - 1]) == -spec_cross_term(pts[n - 1], pts[0]));
    }
}

/// A zero-length segment meets another segment exactly when its point lies
/// on it, and the contact is a touching at that point.
pub proof fn lemma_degenerate_classify(s1: Line2D, s2: Line2D)
    requires
        s1.start == s1.end,
        s1 != s2,
    ensures
        spec_classify(s1, s2) == if crate::line::spec_contains(s2, s1.start) {
            Some(
                Intersection::Touching {
                    line1: s1,
                    line2: s2,
                    point: RPoint {
                        x: crate::frac::Frac { num: s1.start.x as i128, den: 1 },
                        y: crate::frac::Frac { num: s1.start.y as i128, den: 1 },
                    },
                },
            )
        } else {
            None
        },
{
}

/// Swap-invariant record equality is transitive (on well-formed records).
pub proof fn lemma_record_equiv_trans(a: Intersection, b: Intersection, c: Intersection)
    requires
        record_wf(a),
        record_wf(b),
        record_wf(c),
        record_equiv(a, b),
        record_equiv(b, c),
    ensures
        record_equiv(a, c),
{
    match (a, b, c) {
        (
            Intersection::Crossing { point: pa, .. },
            Intersection::Crossing { point: pb, .. },
            Intersection::Crossing { point: pc, .. },
        ) => {
            crate::frac::lemma_rp_eq_trans(pa, pb, pc);
        },
        (
            Intersection::Touching { point: pa, .. },
            Intersection::Touching { point: pb, .. },
            Intersection::Touching { point: pc, .. },
        ) => {
            crate::frac::lemma_rp_eq_trans(pa, pb, pc);
        },
        _ => {},
    }
}

/// Some record of `res` equals `r` up to swapping the pair.
pub open spec fn appears_in(r: Intersection, res: Seq<Intersection>) -> bool {
    exists|j: int| 0 <= j < res.len() && record_equiv(r, #[trigger] res[j])
}

/// Every record the plane sweep reports appears (up to swapping the pair)
/// in the brute-force reference's result for the same input: the sweep's
/// output refines the reference.
pub proof fn lemma_sweep_refines_brute(
    lines: Seq<Line2D>,
    sweep_res: Seq<Intersection>,
    brute_res: Seq<Intersection>,
)
    requires
        forall|i: int| 0 <= i < lines.len() ==> crate::line::seg_ok(#[trigger] lines[i]),
        forall|i: int|
            0 <= i < sweep_res.len() ==> sound_record(#[trigger] sweep_res[i], lines)
                && record_wf(sweep_res[i]),
        crate::brute_force::brute_force_complete(lines, brute_res),
    ensures
        forall|i: int|
            0 <= i < sweep_res.len() ==> appears_in(#[trigger] sweep_res[i], brute_res),
{
    assert forall|i: int| 0 <= i < sweep_res.len() implies appears_in(
        #[trigger] sweep_res[i],
        brute_res,
    ) by {
        let r = sweep_res[i];
        let (a, b) = choose|a: Line2D, b: Line2D|
            lines.contains(a) && lines.contains(b) && a != b && match #[trigger] spec_classify(
                a,
                b,
            ) {
                Some(m) => record_equiv(r, m),
                None => false,
            };
        let m = spec_classify(a, b)->0;
        let ia = choose|ia: int| 0 <= ia < lines.len() && lines[ia] == a;
        let ib = choose|ib: int| 0 <= ib < lines.len() && lines[ib] == b;
        if ia < ib {
            assert(spec_classify(lines[ia], lines[ib]) is Some);
            let j = choose|j: int|
                0 <= j < brute_res.len() && crate::brute_force::pair_classifies_to(
                    lines,
                    ia,
                    ib,
                    brute_res[j],
                );
            reveal(crate::brute_force::pair_classifies_to);
            assert(record_equiv(brute_res[j], m));
            lemma_classify_wf(a, b);
            crate::intersection::lemma_record_equiv_symmetric(brute_res[j], m);
            lemma_record_equiv_trans(r, m, brute_res[j]);
        } else {
            lemma_classify_commutes(a, b);
            let m2 = spec_classify(b, a)->0;
            assert(spec_classify(lines[ib], lines[ia]) is Some);
            let j = choose|j: int|
                0 <= j < brute_res.len() && crate::brute_force::pair_classifies_to(
                    lines,
                    ib,
                    ia,
                    brute_res[j],
                );
            reveal(crate::brute_force::pair_classifies_to);
            assert(record_equiv(brute_res[j], m2));
            lemma_classify_wf(a, b);
            lemma_classify_wf(b, a);
            assert(record_equiv(m, m2));
            lemma_record_equiv_trans(r, m, m2);
            crate::intersection::lemma_record_equiv_symmetric(brute_res[j], m2);
            lemma_record_equiv_trans(r, m2, brute_res[j]);
        }
    }
}

/// The classification of in-range segments is a well-formed record.
pub proof fn lemma_classify_wf(s1: Line2D, s2: Line2D)
    requires
        seg_in_range(s1),
        seg_in_range(s2),
        spec_classify(s1, s2) is Some,
    ensures
        record_wf(spec_classify(s1, s2)->0),
{
    crate::classify::lemma_classify_bounds_public(s1, s2);
}

/// Classification is commutative: swapping the two segments yields the same
/// record up to the swap-invariant record equality.  For collinear pairs
/// the law is stated for pairs that are identical, degenerate, or stored in
/// the sweep's normal form (endpoints ordered by `x`); a collinear pair in
/// opposite orientations, such as `(0,0)-(2,2)` against `(3,3)-(1,1)`, is
/// reported with differently oriented overlap segments by the two calls.
pub proof fn lemma_classify_commutes(s1: Line2D, s2: Line2D)
    requires
        seg_in_range(s1),
        seg_in_range(s2),
        (spec_ccw(s1.start, s1.end, s2.start) == 0 && spec_ccw(s1.start, s1.end, s2.end) == 0)
            ==> (s1 == s2 || s1.start == s1.end || s2.start == s2.end || (s1.start.x < s1.end.x
            && s2.start.x < s2.end.x)),
    ensures
        match (spec_classify(s1, s2), spec_classify(s2, s1)) {
            (Some(m1), Some(m2)) => record_equiv(m1, m2),
            (None, None) => true,
            _ => false,
        },
{
    lemma_classify_commutes_body(s1, s2);
}

/// The shared endpoint of two non-parallel segments, where one exists.
pub open spec fn spec_shared_endpoint(s1: Line2D, s2: Line2D) -> Point2D {
    if s1.start == s2.start || s1.start == s2.end {
        s1.start
    } else {
        s1.end
    }
}

/// Two non-parallel segments sharing an endpoint classify as a touching at
/// exactly that endpoint.
pub proof fn lemma_shared_endpoint_touching(s1: Line2D, s2: Line2D)
    requires
        seg_in_range(s1),
        seg_in_range(s2),
        spec_denom(s1, s2) != 0,
        s1.start == s2.start || s1.start == s2.end || s1.end == s2.start || s1.end == s2.end,
    ensures
        match spec_classify(s1, s2) {
            Some(Intersection::Touching { point, .. }) => rp_eq(
                point,
                RPoint {
                    x: crate::frac::Frac { num: spec_shared_endpoint(s1, s2).x as i128, den: 1 },
                    y: crate::frac::Frac { num: spec_shared_endpoint(s1, s2).y as i128, den: 1 },
                },
            ),
            _ => false,
        },
{
    let x1 = s1.start.x as int;
    let y1 = s1.start.y as int;
    let x2 = s1.end.x as int;
    let y2 = s1.end.y as int;
    let x3 = s2.start.x as int;
    let y3 = s2.start.y as int;
    let x4 = s2.end.x as int;
    let y4 = s2.end.y as int;
    let d = spec_denom(s1, s2);
    let ua = crate::classify::spec_ua_num(s1, s2);
    let ub = crate::classify::spec_ub_num(s1, s2);
    // A degenerate segment would make the pair parallel.
    assert(s1.start != s1.end && s2.start != s2.end) by {
        if s1.start == s1.end {
            assert((y4 - y3) * (x2 - x1) - (x4 - x3) * (y2 - y1) == 0) by (nonlinear_arith)
                requires
                    x2 == x1,
                    y2 == y1,
            ;
        }
        if s2.start == s2.end {
            assert((y4 - y3) * (x2 - x1) - (x4 - x3) * (y2 - y1) == 0) by (nonlinear_arith)
                requires
                    x4 == x3,
                    y4 == y3,
            ;
        }
    }
    assert(s1 != s2) by {
        if s1 == s2 {
            assert((y4 - y3) * (x2 - x1) - (x4 - x3) * (y2 - y1) == 0) by (nonlinear_arith)
                requires
                    x3 == x1,
                    y3 == y1,
                    x4 == x2,
                    y4 == y2,
            ;
        }
    }
    if s1.start == s2.start {
        assert(ua == 0 && ub == 0) by (nonlinear_arith)
            requires
                ua == (x4 - x3) * (y1 - y3) - (y4 - y3) * (x1 - x3),
                ub == (x2 - x1) * (y1 - y3) - (y2 - y1) * (x1 - x3),
                x3 == x1,
                y3 == y1,
        ;
        lemma_touch_point_at_param_zero(s1, s2);
    } else if s1.start == s2.end {
        assert(ua == 0) by (nonlinear_arith)
            requires
                ua == (x4 - x3) * (y1 - y3) - (y4 - y3) * (x1 - x3),
                x4 == x1,
                y4 == y1,
        ;
        assert(ub == d) by (nonlinear_arith)
            requires
                ub == (x2 - x1) * (y1 - y3) - (y2 - y1) * (x1 - x3),
                d == (y4 - y3) * (x2 - x1) - (x4 - x3) * (y2 - y1),
                x4 == x1,
                y4 == y1,
        ;
        assert(crate::classify::param_in_unit(d, d)) by (nonlinear_arith);
        lemma_touch_point_at_param_zero(s1, s2);
    } else if s1.end == s2.start {
        assert(ua == d) by (nonlinear_arith)
            requires
                ua == (x4 - x3) * (y1 - y3) - (y4 - y3) * (x1 - x3),
                d == (y4 - y3) * (x2 - x1) - (x4 - x3) * (y2 - y1),
                x3 == x2,
                y3 == y2,
        ;
        assert(ub == 0) by (nonlinear_arith)
            requires
                ub == (x2 - x1) * (y1 - y3) - (y2 - y1) * (x1 - x3),
                x3 == x2,
                y3 == y2,
        ;
        assert(crate::classify::param_in_unit(d, d)) by (nonlinear_arith);
        lemma_touch_point_at_param_one(s1, s2);
    } else {
        assert(ua == d) by (nonlinear_arith)
            requires
                ua == (x4 - x3) * (y1 - y3) - (y4 - y3) * (x1 - x3),
                d == (y4 - y3) * (x2 - x1) - (x4 - x3) * (y2 - y1),
                x4 == x2,
                y4 == y2,
        ;
        assert(ub == d) by (nonlinear_arith)
            requires
                ub == (x2 - x1) * (y1 - y3) - (y2 - y1) * (x1 - x3),
                d == (y4 - y3) * (x2 - x1) - (x4 - x3) * (y2 - y1),
                x4 == x2,
                y4 == y2,
        ;
        assert(crate::classify::param_in_unit(d, d)) by (nonlinear_arith);
        lemma_touch_point_at_param_one(s1, s2);
    }
}

/// With parameter zero, the crossing point is the first segment's start.
proof fn lemma_touch_point_at_param_zero(s1: Line2D, s2: Line2D)
    requires
        seg_in_range(s1),
        seg_in_range(s2),
        spec_denom(s1, s2) != 0,
        crate::classify::spec_ua_num(s1, s2) == 0,
    ensures
        crate::classify::param_in_unit(crate::classify::spec_ua_num(s1, s2), spec_denom(s1, s2)),
        rp_eq(
            crate::classify::spec_cross_point(s1, s2),
            RPoint {
                x: crate::frac::Frac { num: s1.start.x as i128, den: 1 },
                y: crate::frac::Frac { num: s1.start.y as i128, den: 1 },
            },
        ),
{
    let d = spec_denom(s1, s2);
    assert(crate::classify::param_in_unit(0, d)) by (nonlinear_arith);
    let x1 = s1.start.x as int;
    let y1 = s1.start.y as int;
    crate::classify::lemma_classifier_bounds(s1, s2);
    crate::geom::lemma_mul_bound(x1, d, 1_000_000, 8_000_000_000_000);
    crate::geom::lemma_mul_bound(y1, d, 1_000_000, 8_000_000_000_000);
    assert(x1 * d + 0 * (s1.end.x - s1.start.x) == x1 * d) by (nonlinear_arith);
    assert(y1 * d + 0 * (s1.end.y - s1.start.y) == y1 * d) by (nonlinear_arith);
    let p = crate::classify::spec_cross_point(s1, s2);
    if d > 0 {
        assert(p.x.num == x1 * d && p.x.den == d);
        assert(p.y.num == y1 * d && p.y.den == d);
        assert((x1 * d) * 1 == x1 * d) by (nonlinear_arith);
        assert((y1 * d) * 1 == y1 * d) by (nonlinear_arith);
    } else {
        assert(p.x.num == -(x1 * d) && p.x.den == -d);
        assert(p.y.num == -(y1 * d) && p.y.den == -d);
        assert((-(x1 * d)) * 1 == x1 * (-d)) by (nonlinear_arith);
        assert((-(y1 * d)) * 1 == y1 * (-d)) by (nonlinear_arith);
    }
}

/// With parameter equal to the denominator, the crossing point is the first
/// segment's end.
proof fn lemma_touch_point_at_param_one(s1: Line2D, s2: Line2D)
    requires
        seg_in_range(s1),
        seg_in_range(s2),
        spec_denom(s1, s2) != 0,
        crate::classify::spec_ua_num(s1, s2) == spec_denom(s1, s2),
    ensures
        rp_eq(
            crate::classify::spec_cross_point(s1, s2),
            RPoint {
                x: crate::frac::Frac { num: s1.end.x as i128, den: 1 },
                y: crate::frac::Frac { num: s1.end.y as i128, den: 1 },
            },
        ),
{
    let d = spec_denom(s1, s2);
    let x1 = s1.start.x as int;
    let y1 = s1.start.y as int;
    let x2 = s1.end.x as int;
    let y2 = s1.end.y as int;
    crate::classify::lemma_classifier_bounds(s1, s2);
    crate::geom::lemma_mul_bound(x2, d, 1_000_000, 8_000_000_000_000);
    crate::geom::lemma_mul_bound(y2, d, 1_000_000, 8_000_000_000_000);
    crate::geom::lemma_mul_bound(x1, d, 1_000_000, 8_000_000_000_000);
    crate::geom::lemma_mul_bound(y1, d, 1_000_000, 8_000_000_000_000);
    assert(x1 * d + d * (x2 - x1) == x2 * d) by (nonlinear_arith);
    assert(y1 * d + d * (y2 - y1) == y2 * d) by (nonlinear_arith);
    let p = crate::classify::spec_cross_point(s1, s2);
    if d > 0 {
        assert(p.x.num == x2 * d && p.x.den == d);
        assert(p.y.num == y2 * d && p.y.den == d);
        assert((x2 * d) * 1 == x2 * d) by (nonlinear_arith);
        assert((y2 * d) * 1 == y2 * d) by (nonlinear_arith);
    } else {
        assert(p.x.num == -(x2 * d) && p.x.den == -d);
        assert(p.y.num == -(y2 * d) && p.y.den == -d);
        assert((-(x2 * d)) * 1 == x2 * (-d)) by (nonlinear_arith);
        assert((-(y2 * d)) * 1 == y2 * (-d)) by (nonlinear_arith);
    }
}

/// Collinear segments in normal form that meet only at their shared joint
/// classify as a partial overlap of zero length, located at the joint.
pub proof fn lemma_collinear_adjacent_partial(s1: Line2D, s2: Line2D)
    requires
        seg_in_range(s1),
        seg_in_range(s2),
        spec_ccw(s1.start, s1.end, s2.start) == 0,
        spec_ccw(s1.start, s1.end, s2.end) == 0,
        s1.end == s2.start,
        s1.start.x < s1.end.x,
        s2.start.x < s2.end.x,
    ensures
        spec_classify(s1, s2) == Some(
            Intersection::PartialOverlap {
                line1: s1,
                line2: s2,
                overlap: Line2D { start: s2.start, end: s2.start },
            },
        ),
{
    lemma_collinear_facts(s1, s2);
    lemma_contains_x(s1, s2.start);
    lemma_contains_x(s1, s2.end);
    lemma_contains_x(s2, s1.start);
    lemma_contains_x(s2, s1.end);
    assert(crate::line::spec_contains(s1, s2.start));
    assert(!crate::line::spec_contains(s1, s2.end));
    assert(!crate::line::spec_contains(s2, s1.start));
}

/// The orientation value is the cross product of the edge vector with the
/// vector to the queried point.
proof fn lemma_ccw_cross(a: Point2D, b: Point2D, c: Point2D)
    ensures
        spec_ccw(a, b, c) == (b.x - a.x) * (c.y - a.y) - (b.y - a.y) * (c.x - a.x),
{
    let ax = a.x as int;
    let ay = a.y as int;
    let bx = b.x as int;
    let by = b.y as int;
    let cx = c.x as int;
    let cy = c.y as int;
    assert((ax * by - ay * bx) + (bx * cy - by * cx) + (ay * cx - ax * cy) == (bx - ax) * (cy - ay)
        - (by - ay) * (cx - ax)) by (nonlinear_arith);
}

/// The planar triple identity: `cross(u,v)*w - cross(u,w)*v + cross(v,w)*u`
/// vanishes componentwise.
proof fn lemma_planar_identity(ux: int, uy: int, vx: int, vy: int, wx: int, wy: int)
    ensures
        (ux * vy - uy * vx) * wx - (ux * wy - uy * wx) * vx + (vx * wy - vy * wx) * ux == 0,
        (ux * vy - uy * vx) * wy - (ux * wy - uy * wx) * vy + (vx * wy - vy * wx) * uy == 0,
{
    assert((ux * vy - uy * vx) * wx - (ux * wy - uy * wx) * vx + (vx * wy - vy * wx) * ux == 0)
        by (nonlinear_arith);
    assert((ux * vy - uy * vx) * wy - (ux * wy - uy * wx) * vy + (vx * wy - vy * wx) * uy == 0)
        by (nonlinear_arith);
}

/// Two vectors whose crosses with a nonzero vector vanish have vanishing
/// cross with each other.
proof fn lemma_parallel_transfer(ux: int, uy: int, vx: int, vy: int, wx: int, wy: int)
    requires
        ux * vy - uy * vx == 0,
        ux * wy - uy * wx == 0,
        !(ux == 0 && uy == 0),
    ensures
        vx * wy - vy * wx == 0,
{
    lemma_planar_identity(ux, uy, vx, vy, wx, wy);
    let c = vx * wy - vy * wx;
    assert(c * ux == 0 && c * uy == 0);
    if c != 0 {
        assert(ux == 0) by (nonlinear_arith)
            requires
                c * ux == 0,
                c != 0,
        ;
        assert(uy == 0) by (nonlinear_arith)
            requires
                c * uy == 0,
                c != 0,
        ;
    }
}

/// Swapping the two segments negates the denominator and exchanges (and
/// negates) the two parameter numerators; the two orientation values of one
/// segment's endpoints against the other differ by the denominator.
#[verifier::rlimit(100)]
proof fn lemma_swap_identities(s1: Line2D, s2: Line2D)
    ensures
        spec_denom(s2, s1) == -spec_denom(s1, s2),
        crate::classify::spec_ua_num(s2, s1) == -crate::classify::spec_ub_num(s1, s2),
        crate::classify::spec_ub_num(s2, s1) == -crate::classify::spec_ua_num(s1, s2),
        spec_ccw(s1.start, s1.end, s2.end) - spec_ccw(s1.start, s1.end, s2.start) == spec_denom(
            s1,
            s2,
        ),
        spec_ccw(s2.start, s2.end, s1.end) - spec_ccw(s2.start, s2.end, s1.start) == spec_denom(
            s2,
            s1,
        ),
{
    let x1 = s1.start.x as int;
    let y1 = s1.start.y as int;
    let x2 = s1.end.x as int;
    let y2 = s1.end.y as int;
    let x3 = s2.start.x as int;
    let y3 = s2.start.y as int;
    let x4 = s2.end.x as int;
    let y4 = s2.end.y as int;
    assert((y2 - y1) * (x4 - x3) - (x2 - x1) * (y4 - y3) == -((y4 - y3) * (x2 - x1) - (x4 - x3) * (
    y2 - y1))) by (nonlinear_arith);
    assert((x2 - x1) * (y3 - y1) - (y2 - y1) * (x3 - x1) == -((x2 - x1) * (y1 - y3) - (y2 - y1) * (
    x1 - x3))) by (nonlinear_arith);
    assert((x4 - x3) * (y3 - y1) - (y4 - y3) * (x3 - x1) == -((x4 - x3) * (y1 - y3) - (y4 - y3) * (
    x1 - x3))) by (nonlinear_arith);
    assert(((x1 * y2 - y1 * x2) + (x2 * y4 - y2 * x4) + (y1 * x4 - x1 * y4)) - ((x1 * y2 - y1 * x2)
        + (x2 * y3 - y2 * x3) + (y1 * x3 - x1 * y3)) == (y4 - y3) * (x2 - x1) - (x4 - x3) * (y2
        - y1)) by (nonlinear_arith);
    assert(((x3 * y4 - y3 * x4) + (x4 * y2 - y4 * x2) + (y3 * x2 - x3 * y2)) - ((x3 * y4 - y3 * x4)
        + (x4 * y1 - y4 * x1) + (y3 * x1 - x3 * y1)) == (y2 - y1) * (x4 - x3) - (x2 - x1) * (y4
        - y3)) by (nonlinear_arith);
}

/// The two parameter tests are invariant under negating both numerator and
/// denominator.
proof fn lemma_param_neg(u: int, d: int)
    ensures
        crate::classify::param_in_unit(-u, -d) == crate::classify::param_in_unit(u, d),
{
    assert((-u) * (-d) == u * d) by (nonlinear_arith);
    assert((-d) * (-d) == d * d) by (nonlinear_arith);
}

/// The crossing points computed from the two orders coincide as rationals.
proof fn lemma_cross_point_swap(s1: Line2D, s2: Line2D)
    requires
        spec_denom(s1, s2) != 0,
    ensures
        rp_eq(
            crate::classify::spec_cross_point(s1, s2),
            crate::classify::spec_cross_point(s2, s1),
        ),
{
    let d = spec_denom(s1, s2);
    let ua = crate::classify::spec_ua_num(s1, s2);
    let ub = crate::classify::spec_ub_num(s1, s2);
    lemma_swap_identities(s1, s2);
    let x1 = s1.start.x as int;
    let y1 = s1.start.y as int;
    let x2 = s1.end.x as int;
    let y2 = s1.end.y as int;
    let x3 = s2.start.x as int;
    let y3 = s2.start.y as int;
    let x4 = s2.end.x as int;
    let y4 = s2.end.y as int;
    let u1 = x2 - x1;
    let v1 = y2 - y1;
    let u2 = x4 - x3;
    let v2 = y4 - y3;
    let w = x1 - x3;
    let z = y1 - y3;
    assert(w * (v2 * u1 - u2 * v1) + (u2 * z - v2 * w) * u1 - (u1 * z - v1 * w) * u2 == 0)
        by (nonlinear_arith);
    assert(z * (v2 * u1 - u2 * v1) + (u2 * z - v2 * w) * v1 - (u1 * z - v1 * w) * v2 == 0)
        by (nonlinear_arith);
    assert(d == v2 * u1 - u2 * v1);
    assert(ua == u2 * z - v2 * w);
    assert(ub == u1 * z - v1 * w);
    assert(x1 * d + ua * u1 - (x3 * d + ub * u2) == w * d + ua * u1 - ub * u2) by (nonlinear_arith)
        requires
            w == x1 - x3,
    ;
    assert(y1 * d + ua * v1 - (y3 * d + ub * v2) == z * d + ua * v1 - ub * v2) by (nonlinear_arith)
        requires
            z == y1 - y3,
    ;
    assert(x1 * d + ua * (x2 - x1) == x3 * d + ub * (x4 - x3));
    assert(y1 * d + ua * (y2 - y1) == y3 * d + ub * (y4 - y3));
    let d2 = spec_denom(s2, s1);
    let ua2 = crate::classify::spec_ua_num(s2, s1);
    let p1 = crate::classify::spec_cross_point(s1, s2);
    let p2 = crate::classify::spec_cross_point(s2, s1);
    if d > 0 {
        assert(-(x3 * d2 + ua2 * u2) == x3 * d + ub * u2) by (nonlinear_arith)
            requires
                d2 == -d,
                ua2 == -ub,
        ;
        assert(-(y3 * d2 + ua2 * v2) == y3 * d + ub * v2) by (nonlinear_arith)
            requires
                d2 == -d,
                ua2 == -ub,
        ;
        assert(p1.x.num == p2.x.num && p1.x.den == p2.x.den);
        assert(p1.y.num == p2.y.num && p1.y.den == p2.y.den);
    } else {
        assert(x3 * d2 + ua2 * u2 == -(x3 * d + ub * u2)) by (nonlinear_arith)
            requires
                d2 == -d,
                ua2 == -ub,
        ;
        assert(y3 * d2 + ua2 * v2 == -(y3 * d + ub * v2)) by (nonlinear_arith)
            requires
                d2 == -d,
                ua2 == -ub,
        ;
        assert(p1.x.num == p2.x.num && p1.x.den == p2.x.den);
        assert(p1.y.num == p2.y.num && p1.y.den == p2.y.den);
    }
}

/// For a segment with `start.x < end.x`, a point of its supporting line
/// lies on the segment exactly when its abscissa is within the segment's
/// horizontal extent.
proof fn lemma_contains_x(s: Line2D, p: Point2D)
    requires
        s.start.x < s.end.x,
        spec_ccw(s.start, s.end, p) == 0,
    ensures
        crate::line::spec_contains(s, p) == (s.start.x <= p.x <= s.end.x),
{
    lemma_ccw_cross(s.start, s.end, p);
    let dx = (s.end.x - s.start.x) as int;
    let dy = (s.end.y - s.start.y) as int;
    let px = (p.x - s.start.x) as int;
    let py = (p.y - s.start.y) as int;
    let qx = (s.end.x - p.x) as int;
    let qy = (s.end.y - p.y) as int;
    if s.start.x <= p.x <= s.end.x {
        assert(dx * py == dy * px);
        assert(dx * qy == dy * qx) by (nonlinear_arith)
            requires
                dx * py == dy * px,
                qy == dy - py,
                qx == dx - px,
        ;
        if dy >= 0 {
            assert(py >= 0) by (nonlinear_arith)
                requires
                    dx * py == dy * px,
                    dx > 0,
                    dy >= 0,
                    px >= 0,
            ;
            assert(qy >= 0) by (nonlinear_arith)
                requires
                    dx * qy == dy * qx,
                    dx > 0,
                    dy >= 0,
                    qx >= 0,
            ;
        } else {
            assert(py <= 0) by (nonlinear_arith)
                requires
                    dx * py == dy * px,
                    dx > 0,
                    dy < 0,
                    px >= 0,
            ;
            assert(qy <= 0) by (nonlinear_arith)
                requires
                    dx * qy == dy * qx,
                    dx > 0,
                    dy < 0,
                    qx >= 0,
            ;
        }
    }
}

/// Two points of one supporting line with equal abscissas coincide (for a
/// non-vertical segment).
proof fn lemma_same_line_point_eq(s: Line2D, p: Point2D, q: Point2D)
    requires
        s.start.x < s.end.x,
        spec_ccw(s.start, s.end, p) == 0,
        spec_ccw(s.start, s.end, q) == 0,
        p.x == q.x,
    ensures
        p == q,
{
    lemma_ccw_cross(s.start, s.end, p);
    lemma_ccw_cross(s.start, s.end, q);
    let dx = (s.end.x - s.start.x) as int;
    let dy = (s.end.y - s.start.y) as int;
    assert(p.y == q.y) by (nonlinear_arith)
        requires
            dx * (p.y - s.start.y) == dy * (p.x - s.start.x),
            dx * (q.y - s.start.y) == dy * (q.x - s.start.x),
            p.x == q.x,
            dx > 0,
    ;
}

/// Collinearity of the pair transfers to the swapped order, and forces the
/// parametric denominator to vanish.
proof fn lemma_collinear_facts(s1: Line2D, s2: Line2D)
    requires
        s1.start != s1.end,
        s2.start != s2.end,
        spec_ccw(s1.start, s1.end, s2.start) == 0,
        spec_ccw(s1.start, s1.end, s2.end) == 0,
    ensures
        spec_denom(s1, s2) == 0,
        spec_ccw(s2.start, s2.end, s1.start) == 0,
        spec_ccw(s2.start, s2.end, s1.end) == 0,
{
    let dx1 = (s1.end.x - s1.start.x) as int;
    let dy1 = (s1.end.y - s1.start.y) as int;
    let dx2 = (s2.end.x - s2.start.x) as int;
    let dy2 = (s2.end.y - s2.start.y) as int;
    let wx = (s2.start.x - s1.start.x) as int;
    let wy = (s2.start.y - s1.start.y) as int;
    lemma_ccw_cross(s1.start, s1.end, s2.start);
    lemma_ccw_cross(s1.start, s1.end, s2.end);
    lemma_ccw_cross(s2.start, s2.end, s1.start);
    lemma_ccw_cross(s2.start, s2.end, s1.end);
    assert(dx1 * wy - dy1 * wx == 0);
    assert(dx1 * (wy + dy2) - dy1 * (wx + dx2) == 0) by (nonlinear_arith)
        requires
            dx1 * ((s2.end.y - s1.start.y) as int) - dy1 * ((s2.end.x - s1.start.x) as int) == 0,
            (s2.end.y - s1.start.y) as int == wy + dy2,
            (s2.end.x - s1.start.x) as int == wx + dx2,
    ;
    assert(dx1 * dy2 - dy1 * dx2 == 0) by (nonlinear_arith)
        requires
            dx1 * wy - dy1 * wx == 0,
            dx1 * (wy + dy2) - dy1 * (wx + dx2) == 0,
    ;
    assert(spec_denom(s1, s2) == dy2 * dx1 - dx2 * dy1);
    assert(dy2 * dx1 - dx2 * dy1 == 0) by (nonlinear_arith)
        requires
            dx1 * dy2 - dy1 * dx2 == 0,
    ;
    // s1's endpoints lie on s2's supporting line.
    assert(dx1 * (-wy) - dy1 * (-wx) == 0) by (nonlinear_arith)
        requires
            dx1 * wy - dy1 * wx == 0,
    ;
    lemma_parallel_transfer(dx1, dy1, dx2, dy2, -wx, -wy);
    assert(dx2 * ((s1.start.y - s2.start.y) as int) - dy2 * ((s1.start.x - s2.start.x) as int)
        == dx2 * (-wy) - dy2 * (-wx)) by (nonlinear_arith)
        requires
            -wy == (s1.start.y - s2.start.y) as int,
            -wx == (s1.start.x - s2.start.x) as int,
    ;
    let ex = (s1.end.x - s2.start.x) as int;
    let ey = (s1.end.y - s2.start.y) as int;
    assert(dx1 * ey - dy1 * ex == 0) by (nonlinear_arith)
        requires
            dx1 * wy - dy1 * wx == 0,
            ey == dy1 - wy,
            ex == dx1 - wx,
    ;
    lemma_parallel_transfer(dx1, dy1, dx2, dy2, ex, ey);
}

/// The body of the commutativity proof, split along the classifier's
/// cases.
proof fn lemma_classify_commutes_body(s1: Line2D, s2: Line2D)
    requires
        seg_in_range(s1),
        seg_in_range(s2),
        (spec_ccw(s1.start, s1.end, s2.start) == 0 && spec_ccw(s1.start, s1.end, s2.end) == 0)
            ==> (s1 == s2 || s1.start == s1.end || s2.start == s2.end || (s1.start.x < s1.end.x
            && s2.start.x < s2.end.x)),
    ensures
        match (spec_classify(s1, s2), spec_classify(s2, s1)) {
            (Some(m1), Some(m2)) => record_equiv(m1, m2),
            (None, None) => true,
            _ => false,
        },
{
    let c1 = spec_ccw(s1.start, s1.end, s2.start);
    let c2 = spec_ccw(s1.start, s1.end, s2.end);
    let c3 = spec_ccw(s2.start, s2.end, s1.start);
    let c4 = spec_ccw(s2.start, s2.end, s1.end);
    let d = spec_denom(s1, s2);
    lemma_swap_identities(s1, s2);
    if s1 == s2 {
    } else if s1.start == s1.end {
    } else if s2.start == s2.end {
    } else if c1 == 0 && c2 == 0 {
        // A collinear pair in the sweep's normal form.
        lemma_collinear_facts(s1, s2);
        let a1 = s1.start.x;
        let b1 = s1.end.x;
        let a2 = s2.start.x;
        let b2 = s2.end.x;
        lemma_contains_x(s1, s2.start);
        lemma_contains_x(s1, s2.end);
        lemma_contains_x(s2, s1.start);
        lemma_contains_x(s2, s1.end);
        let cont_1s = crate::line::spec_contains(s1, s2.start);
        let cont_1e = crate::line::spec_contains(s1, s2.end);
        let cont_2s = crate::line::spec_contains(s2, s1.start);
        let cont_2e = crate::line::spec_contains(s2, s1.end);
        if cont_1s && cont_1e {
            if cont_2s && cont_2e {
                lemma_same_line_point_eq(s1, s1.start, s2.start);
                lemma_same_line_point_eq(s1, s1.end, s2.end);
                assert(false);
            }
        } else if cont_2s && cont_2e {
        } else if cont_1s || cont_1e || cont_2s || cont_2e {
            // Partial overlap: both orders pick the same two endpoints.
            if cont_1s && cont_2s {
                lemma_same_line_point_eq(s1, s1.start, s2.start);
            }
            if !cont_1s && !cont_2s {
                assert(false);
            }
            if cont_1e && cont_2e {
                lemma_same_line_point_eq(s1, s1.end, s2.end);
            }
            if !cont_1e && !cont_2e {
                assert(false);
            }
        } else {
        }
    } else if d == 0 {
        // Parallel but not collinear: every containment test fails on both
        // sides, so both orders report nothing.
        assert(c2 - c1 == d && c2 == c1);
        assert(c4 - c3 == spec_denom(s2, s1) && c4 == c3);
        lemma_ccw_cross(s1.start, s1.end, s2.start);
        lemma_ccw_cross(s1.start, s1.end, s2.end);
        lemma_ccw_cross(s2.start, s2.end, s1.start);
        lemma_ccw_cross(s2.start, s2.end, s1.end);
        if c3 == 0 {
            // Then both of s1's endpoints would be on s2's line, making the
            // pair collinear after all.
            if s2.start == s2.end {
                assert(false);
            } else {
                lemma_collinear_facts(s2, s1);
                assert(false);
            }
        }
    } else {
        // A genuine parametric test: the swapped quantities are negations.
        let ua = crate::classify::spec_ua_num(s1, s2);
        let ub = crate::classify::spec_ub_num(s1, s2);
        lemma_param_neg(ub, d);
        lemma_param_neg(ua, d);
        if crate::classify::param_in_unit(ua, d) && crate::classify::param_in_unit(ub, d) {
            lemma_cross_point_swap(s1, s2);
        }
    }
}

} // verus!
