use vstd::prelude::*;
use crate::frac::{frac_eq, frac_wf, Frac};
use crate::line::{seg_in_range, Line2D};
use crate::intersection::{record_equiv, record_wf, Intersection};
use crate::classify::spec_classify;
use crate::handler::spec_insert_record;

verus! {

/// The reference intersector: classifies every pair `i < j` and collects
/// the outcomes into a deduplicated result list.
pub struct BruteForceHandler {
    pub lines: Vec<Line2D>,
    pub intersections: Vec<Intersection>,
}

/// `r` represents the classification of the pair `(lines[i], lines[j])`.
#[verifier::opaque]
pub open spec fn pair_classifies_to(lines: Seq<Line2D>, i: int, j: int, r: Intersection) -> bool {
    match spec_classify(lines[i], lines[j]) {
        Some(m) => record_equiv(r, m),
        None => false,
    }
}

/// Some pair `i < j` of the input classifies to `r`.
pub open spec fn some_pair_classifies_to(lines: Seq<Line2D>, r: Intersection) -> bool {
    exists|i: int, j: int| 0 <= i < j < lines.len() && pair_classifies_to(lines, i, j, r)
}

/// The result list holds exactly one representative for every intersecting
/// pair `i < j`, and nothing else.
pub open spec fn brute_force_complete(lines: Seq<Line2D>, res: Seq<Intersection>) -> bool {
    &&& forall|r: int|
        0 <= r < res.len() ==> some_pair_classifies_to(lines, #[trigger] res[r])
    &&& forall|i: int, j: int|
        0 <= i < j < lines.len() && spec_classify(#[trigger] lines[i], #[trigger] lines[j]) is Some
            ==> exists|r: int|
            0 <= r < res.len() && pair_classifies_to(lines, i, j, res[r])
    &&& forall|r: int, s: int|
        0 <= r < s < res.len() ==> !record_equiv(#[trigger] res[r], #[trigger] res[s])
    &&& forall|r: int| 0 <= r < res.len() ==> record_wf(#[trigger] res[r])
}

/// Adds `r` to `v` unless an equal record (up to swapping the pair) is
/// already present.
fn insert_dedup(v: &mut Vec<Intersection>, r: Intersection)
    requires
        record_wf(r),
        forall|k: int| 0 <= k < old(v)@.len() ==> record_wf(#[trigger] old(v)@[k]),
    ensures
        final(v)@ == spec_insert_record(old(v)@, r),
        forall|k: int| 0 <= k < final(v)@.len() ==> record_wf(#[trigger] final(v)@[k]),
{
    let n = v.len();
    let mut k: usize = 0;
    while k < n
        invariant
            v@ == old(v)@,
            n == v@.len(),
            k <= n,
            record_wf(r),
            forall|t: int| 0 <= t < v@.len() ==> record_wf(#[trigger] v@[t]),
            forall|t: int| 0 <= t < k ==> !record_equiv(#[trigger] v@[t], r),
        decreases n - k,
    {
        if v[k].same_intersection(&r) {
            return;
        }
        k = k + 1;
    }
    proof {
        if exists|t: int| 0 <= t < v@.len() && record_equiv(#[trigger] v@[t], r) {
            let t = choose|t: int| 0 <= t < v@.len() && record_equiv(#[trigger] v@[t], r);
            assert(false);
        }
    }
    v.push(r);
}

impl BruteForceHandler {
    pub fn new(lines: Vec<Line2D>) -> (h: BruteForceHandler)
        ensures
            h.lines@ == lines@,
            h.intersections@.len() == 0,
    {
        BruteForceHandler { lines, intersections: Vec::new() }
    }

    /// Classifies all pairs.  The returned list is the complete,
    /// deduplicated set of intersections of the input.
    #[verifier::rlimit(100)]
    pub fn run(&mut self) -> (res: Vec<Intersection>)
        requires
            forall|i: int|
                0 <= i < old(self).lines@.len() ==> seg_in_range(#[trigger] old(self).lines@[i]),
            old(self).intersections@.len() == 0,
        ensures
            final(self).lines@ == old(self).lines@,
            res@ == final(self).intersections@,
            res@.len() <= old(self).lines@.len() * old(self).lines@.len(),
            brute_force_complete(old(self).lines@, res@),
    {
        let ghost lines = self.lines@;
        let n = self.lines.len();
        let mut acc: Vec<Intersection> = Vec::new();
        let ghost mut wit: Seq<(int, int)> = Seq::empty();
        let mut a: usize = 0;
        while a < n
            invariant
                self.lines@ == lines,
                self.intersections@.len() == 0,
                n == lines.len(),
                a <= n,
                acc@.len() <= a * n,
                wit.len() == acc@.len(),
                forall|k: int| 0 <= k < lines.len() ==> seg_in_range(#[trigger] lines[k]),
                forall|r: int|
                    0 <= r < acc@.len() ==> 0 <= (#[trigger] wit[r]).0 < wit[r].1 < lines.len()
                        && pair_classifies_to(lines, wit[r].0, wit[r].1, acc@[r]),
                forall|i: int, j: int|
                    0 <= i < j < lines.len() && i < a && spec_classify(
                        #[trigger] lines[i],
                        #[trigger] lines[j],
                    ) is Some ==> exists|r: int|
                        0 <= r < acc@.len() && pair_classifies_to(lines, i, j, acc@[r]),
                forall|r: int, s: int|
                    0 <= r < s < acc@.len() ==> !record_equiv(
                        #[trigger] acc@[r],
                        #[trigger] acc@[s],
                    ),
                forall|r: int| 0 <= r < acc@.len() ==> record_wf(#[trigger] acc@[r]),
            decreases n - a,
        {
            let mut b: usize = a + 1;
            while b < n
                invariant
                    self.lines@ == lines,
                    n == lines.len(),
                    a < n,
                    a < b,
                    b <= n,
                    acc@.len() <= a * n + b,
                    wit.len() == acc@.len(),
                    forall|k: int| 0 <= k < lines.len() ==> seg_in_range(#[trigger] lines[k]),
                    forall|r: int|
                        0 <= r < acc@.len() ==> 0 <= (#[trigger] wit[r]).0 < wit[r].1
                            < lines.len() && pair_classifies_to(
                            lines,
                            wit[r].0,
                            wit[r].1,
                            acc@[r],
                        ),
                    forall|i: int, j: int|
                        0 <= i < j < lines.len() && (i < a || (i == a && j < b)) && spec_classify(
                            #[trigger] lines[i],
                            #[trigger] lines[j],
                        ) is Some ==> exists|r: int|
                            0 <= r < acc@.len() && pair_classifies_to(lines, i, j, acc@[r]),
                    forall|r: int, s: int|
                        0 <= r < s < acc@.len() ==> !record_equiv(
                            #[trigger] acc@[r],
                            #[trigger] acc@[s],
                        ),
                    forall|r: int| 0 <= r < acc@.len() ==> record_wf(#[trigger] acc@[r]),
                decreases n - b,
            {
                let line1 = self.lines[a];
                let line2 = self.lines[b];
                if let Some(found) = line1.find_intersection(line2) {
                    let ghost accb = acc@;
                    insert_dedup(&mut acc, found);
                    proof {
                        reveal(pair_classifies_to);
                        if acc@ == accb.push(found) {
                            wit = wit.push((a as int, b as int));
                            assert(pair_classifies_to(lines, a as int, b as int, found));
                            assert forall|r: int| 0 <= r < acc@.len() implies 0 <= (
                            #[trigger] wit[r]).0 < wit[r].1 < lines.len() && pair_classifies_to(
                                lines,
                                wit[r].0,
                                wit[r].1,
                                acc@[r],
                            ) by {
                                if r < accb.len() {
                                    assert(acc@[r] == accb[r]);
                                } else {
                                    assert(acc@[r] == found);
                                }
                            }
                        }
                        assert forall|i: int, j: int|
                            0 <= i < j < lines.len() && (i < a || (i == a && j < b + 1))
                                && spec_classify(
                                #[trigger] lines[i],
                                #[trigger] lines[j],
                            ) is Some implies exists|r: int|
                            0 <= r < acc@.len() && pair_classifies_to(lines, i, j, acc@[r]) by {
                            if i < a || (i == a && j < b) {
                                let r0 = choose|r0: int|
                                    0 <= r0 < accb.len() && pair_classifies_to(
                                        lines,
                                        i,
                                        j,
                                        accb[r0],
                                    );
                                assert(acc@[r0] == accb[r0]);
                                assert(pair_classifies_to(lines, i, j, acc@[r0]));
                            } else {
                                if acc@ == accb.push(found) {
                                    assert(acc@[acc@.len() - 1] == found);
                                    assert(pair_classifies_to(lines, i, j, found));
                                } else {
                                    let t = choose|t: int|
                                        0 <= t < accb.len() && record_equiv(
                                            #[trigger] accb[t],
                                            found,
                                        );
                                    assert(acc@[t] == accb[t]);
                                    assert(pair_classifies_to(lines, i, j, acc@[t]));
                                }
                            }
                        }
                    }
                }
                b = b + 1;
            }
            proof {
                assert(acc@.len() <= (a + 1) * n) by (nonlinear_arith)
                    requires
                        acc@.len() <= a * n + n,
                ;
            }
            a = a + 1;
        }
        proof {
            lemma_wit_to_sound(lines, acc@, wit);
        }
        self.intersections = copy_records_local(&acc);
        acc
    }
}


/// Packaging the per-element witnesses into the existential form of
/// `brute_force_complete`.
proof fn lemma_wit_to_sound(lines: Seq<Line2D>, res: Seq<Intersection>, wit: Seq<(int, int)>)
    requires
        wit.len() == res.len(),
        forall|r: int|
            0 <= r < res.len() ==> 0 <= (#[trigger] wit[r]).0 < wit[r].1 < lines.len()
                && pair_classifies_to(lines, wit[r].0, wit[r].1, res[r]),
    ensures
        forall|r: int| 0 <= r < res.len() ==> some_pair_classifies_to(lines, #[trigger] res[r]),
{
    assert forall|r: int| 0 <= r < res.len() implies some_pair_classifies_to(
        lines,
        #[trigger] res[r],
    ) by {
        let i = wit[r].0;
        let j = wit[r].1;
        assert(0 <= i < j < lines.len() && pair_classifies_to(lines, i, j, res[r]));
    }
}

/// What the dataset analyzer reports: segment pathologies that violate the
/// plane sweep's preconditions, and the contact taxonomy of the result set.
#[derive(Debug, Clone, Copy, PartialEq, Eq, Structural)]
pub struct AnalysisReport {
    pub line_count: usize,
    pub intersection_count: usize,
    pub zero_length_count: usize,
    pub vertical_count: usize,
    pub touching_count: usize,
    pub overlapping_count: usize,
    pub duplicate_x_count: usize,
}

pub open spec fn spec_count_zero_length(lines: Seq<Line2D>) -> int
    decreases lines.len(),
{
    if lines.len() == 0 {
        0
    } else {
        spec_count_zero_length(lines.drop_last()) + if lines.last().start == lines.last().end {
            1int
        } else {
            0int
        }
    }
}

pub open spec fn spec_count_vertical(lines: Seq<Line2D>) -> int
    decreases lines.len(),
{
    if lines.len() == 0 {
        0
    } else {
        spec_count_vertical(lines.drop_last()) + if lines.last().start.x == lines.last().end.x {
            1int
        } else {
            0int
        }
    }
}

pub open spec fn spec_count_touching(res: Seq<Intersection>) -> int
    decreases res.len(),
{
    if res.len() == 0 {
        0
    } else {
        spec_count_touching(res.drop_last()) + if res.last() is Touching {
            1int
        } else {
            0int
        }
    }
}

pub open spec fn spec_count_overlapping(res: Seq<Intersection>) -> int
    decreases res.len(),
{
    if res.len() == 0 {
        0
    } else {
        spec_count_overlapping(res.drop_last()) + if res.last() is PartialOverlap || res.last()
            is ContainedOverlap || res.last() is IdenticalOverlap {
            1int
        } else {
            0int
        }
    }
}

/// The greater endpoint abscissa of a segment.
pub open spec fn spec_max_x(l: Line2D) -> i64 {
    if l.start.x >= l.end.x {
        l.start.x
    } else {
        l.end.x
    }
}

/// Membership in a list of abscissas, decided as rationals.
pub open spec fn frac_list_contains(seen: Seq<Frac>, f: Frac) -> bool {
    exists|i: int| 0 <= i < seen.len() && frac_eq(#[trigger] seen[i], f)
}

/// First pass of the duplicate-abscissa count: walk the segments' greater
/// endpoint abscissas, counting repeats.
pub open spec fn spec_dup_pass1(lines: Seq<Line2D>, i: int, seen: Seq<Frac>, count: int) -> (
    Seq<Frac>,
    int,
)
    decreases lines.len() - i,
{
    if i < 0 || i >= lines.len() {
        (seen, count)
    } else {
        let f = Frac { num: spec_max_x(lines[i]) as i128, den: 1 };
        if frac_list_contains(seen, f) {
            spec_dup_pass1(lines, i + 1, seen, count + 1)
        } else {
            spec_dup_pass1(lines, i + 1, seen.push(f), count)
        }
    }
}

/// Second pass: the abscissas of the crossing points, against the same set.
pub open spec fn spec_dup_pass2(res: Seq<Intersection>, i: int, seen: Seq<Frac>, count: int) -> (
    Seq<Frac>,
    int,
)
    decreases res.len() - i,
{
    if i < 0 || i >= res.len() {
        (seen, count)
    } else {
        match res[i] {
            Intersection::Crossing { point, .. } => {
                if frac_list_contains(seen, point.x) {
                    spec_dup_pass2(res, i + 1, seen, count + 1)
                } else {
                    spec_dup_pass2(res, i + 1, seen.push(point.x), count)
                }
            },
            _ => spec_dup_pass2(res, i + 1, seen, count),
        }
    }
}

/// The number of duplicated abscissas among segment endpoints and crossing
/// points.
pub open spec fn spec_duplicate_x(lines: Seq<Line2D>, res: Seq<Intersection>) -> int {
    spec_dup_pass2(res, 0, spec_dup_pass1(lines, 0, Seq::empty(), 0).0, spec_dup_pass1(
        lines,
        0,
        Seq::empty(),
        0,
    ).1).1
}

/// Decides membership of `f` in `v` as rationals.
fn frac_vec_contains(v: &Vec<Frac>, f: &Frac) -> (r: bool)
    requires
        frac_wf(*f),
        forall|i: int| 0 <= i < v@.len() ==> frac_wf(#[trigger] v@[i]),
    ensures
        r == frac_list_contains(v@, *f),
{
    let n = v.len();
    let mut i: usize = 0;
    while i < n
        invariant
            n == v@.len(),
            i <= n,
            frac_wf(*f),
            forall|j: int| 0 <= j < v@.len() ==> frac_wf(#[trigger] v@[j]),
            forall|j: int| 0 <= j < i ==> !frac_eq(#[trigger] v@[j], *f),
        decreases n - i,
    {
        if v[i].eq_frac(f) {
            return true;
        }
        i = i + 1;
    }
    proof {
        if frac_list_contains(v@, *f) {
            let k = choose|k: int| 0 <= k < v@.len() && frac_eq(#[trigger] v@[k], *f);
            assert(false);
        }
    }
    false
}

impl BruteForceHandler {
    /// Reports the dataset pathologies relevant to the plane sweep's
    /// preconditions, and the taxonomy of the found intersections.
    pub fn analyze(&self) -> (rep: AnalysisReport)
        requires
            forall|i: int| 0 <= i < self.lines@.len() ==> seg_in_range(#[trigger] self.lines@[i]),
            forall|i: int|
                0 <= i < self.intersections@.len() ==> record_wf(#[trigger] self.intersections@[i]),
            self.lines@.len() + self.intersections@.len() < usize::MAX,
        ensures
            rep.line_count == self.lines@.len(),
            rep.intersection_count == self.intersections@.len(),
            rep.zero_length_count == spec_count_zero_length(self.lines@),
            rep.vertical_count == spec_count_vertical(self.lines@),
            rep.touching_count == spec_count_touching(self.intersections@),
            rep.overlapping_count == spec_count_overlapping(self.intersections@),
            rep.duplicate_x_count == spec_duplicate_x(self.lines@, self.intersections@),
    {
        let n = self.lines.len();
        let m = self.intersections.len();
        let mut zero_length: usize = 0;
        let mut vertical: usize = 0;
        let mut seen: Vec<Frac> = Vec::new();
        let mut dup: usize = 0;
        let mut i: usize = 0;
        while i < n
            invariant
                n == self.lines@.len(),
                i <= n,
                forall|k: int| 0 <= k < self.lines@.len() ==> seg_in_range(#[trigger] self.lines@[k]),
                forall|k: int| 0 <= k < seen@.len() ==> frac_wf(#[trigger] seen@[k]),
                zero_length == spec_count_zero_length(self.lines@.take(i as int)),
                vertical == spec_count_vertical(self.lines@.take(i as int)),
                zero_length <= i,
                vertical <= i,
                dup <= i,
                spec_dup_pass1(self.lines@, 0, Seq::empty(), 0) == spec_dup_pass1(
                    self.lines@,
                    i as int,
                    seen@,
                    dup as int,
                ),
            decreases n - i,
        {
            let l = self.lines[i];
            proof {
                assert(self.lines@.take(i + 1 as int).drop_last() =~= self.lines@.take(i as int));
                assert(self.lines@.take(i + 1 as int).last() == self.lines@[i as int]);
            }
            if l.start.x == l.end.x && l.start.y == l.end.y {
                zero_length = zero_length + 1;
            }
            if l.start.x == l.end.x {
                vertical = vertical + 1;
            }
            let max_x = if l.start.x >= l.end.x {
                l.start.x
            } else {
                l.end.x
            };
            let fx = Frac::from_int(max_x);
            if frac_vec_contains(&seen, &fx) {
                dup = dup + 1;
            } else {
                seen.push(fx);
            }
            i = i + 1;
        }
        proof {
            assert(self.lines@.take(n as int) =~= self.lines@);
        }
        let mut touching: usize = 0;
        let mut overlapping: usize = 0;
        let mut j: usize = 0;
        while j < m
            invariant
                n == self.lines@.len(),
                m == self.intersections@.len(),
                j <= m,
                forall|k: int|
                    0 <= k < self.intersections@.len() ==> record_wf(
                        #[trigger] self.intersections@[k],
                    ),
                forall|k: int| 0 <= k < seen@.len() ==> frac_wf(#[trigger] seen@[k]),
                touching == spec_count_touching(self.intersections@.take(j as int)),
                overlapping == spec_count_overlapping(self.intersections@.take(j as int)),
                touching <= j,
                overlapping <= j,
                dup <= n + j,
                self.lines@.len() + self.intersections@.len() < usize::MAX,
                spec_dup_pass2(
                    self.intersections@,
                    0,
                    spec_dup_pass1(self.lines@, 0, Seq::empty(), 0).0,
                    spec_dup_pass1(self.lines@, 0, Seq::empty(), 0).1,
                ) == spec_dup_pass2(self.intersections@, j as int, seen@, dup as int),
            decreases m - j,
        {
            proof {
                assert(self.intersections@.take(j + 1 as int).drop_last()
                    =~= self.intersections@.take(j as int));
                assert(self.intersections@.take(j + 1 as int).last()
                    == self.intersections@[j as int]);
            }
            match &self.intersections[j] {
                Intersection::Crossing { point, .. } => {
                    let px = point.x;
                    if frac_vec_contains(&seen, &px) {
                        dup = dup + 1;
                    } else {
                        seen.push(px);
                    }
                },
                Intersection::Touching { .. } => {
                    touching = touching + 1;
                },
                Intersection::PartialOverlap { .. } => {
                    overlapping = overlapping + 1;
                },
                Intersection::ContainedOverlap { .. } => {
                    overlapping = overlapping + 1;
                },
                Intersection::IdenticalOverlap { .. } => {
                    overlapping = overlapping + 1;
                },
            }
            j = j + 1;
        }
        proof {
            assert(self.intersections@.take(m as int) =~= self.intersections@);
        }
        AnalysisReport {
            line_count: n,
            intersection_count: m,
            zero_length_count: zero_length,
            vertical_count: vertical,
            touching_count: touching,
            overlapping_count: overlapping,
            duplicate_x_count: dup,
        }
    }
}

/// Runs the brute-force reference on `lines` and reports the dataset
/// statistics.
pub fn analyze(lines: Vec<Line2D>) -> (rep: AnalysisReport)
    requires
        forall|i: int| 0 <= i < lines@.len() ==> seg_in_range(#[trigger] lines@[i]),
        lines@.len() < 0x1_0000,
    ensures
        rep.line_count == lines@.len(),
        rep.zero_length_count == spec_count_zero_length(lines@),
        rep.vertical_count == spec_count_vertical(lines@),
        exists|res: Seq<Intersection>|
            #![all_triggers]
            brute_force_complete(lines@, res) && rep.intersection_count == res.len()
                && rep.touching_count == spec_count_touching(res) && rep.overlapping_count
                == spec_count_overlapping(res) && rep.duplicate_x_count == spec_duplicate_x(
                lines@,
                res,
            ),
{
    let mut handler = BruteForceHandler::new(lines);
    let res = handler.run();
    proof {
        assert(handler.lines@.len() * handler.lines@.len() + handler.lines@.len() < usize::MAX)
            by (nonlinear_arith)
            requires
                handler.lines@.len() < 0x1_0000,
                usize::MAX >= 0xFFFF_FFFF,
        ;
    }
    handler.analyze()
}

/// An element-wise copy of a record list.
fn copy_records_local(v: &Vec<Intersection>) -> (out: Vec<Intersection>)
    ensures
        out@ == v@,
{
    let n = v.len();
    let mut out: Vec<Intersection> = Vec::new();
    let mut i: usize = 0;
    while i < n
        invariant
            n == v@.len(),
            i <= n,
            out@ == v@.take(i as int),
        decreases n - i,
    {
        out.push(v[i]);
        proof {
            assert(v@.take(i + 1 as int) =~= v@.take(i as int).push(v@[i as int]));
        }
        i = i + 1;
    }
    proof {
        assert(v@.take(n as int) =~= v@);
    }
    out
}

} // verus!
