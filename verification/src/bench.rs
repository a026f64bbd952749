use vstd::prelude::*;
use crate::line::{seg_in_range, Line2D};
use crate::intersection::{record_equiv, record_wf, Intersection};
use crate::brute_force::{brute_force_complete, BruteForceHandler};
use crate::handler::{spec_sweep_outcome, sweep_intersections, SweepLineOptions};

verus! {

/// Which engine a benchmark run exercises.
#[derive(Debug, Clone, Copy, PartialEq, Eq, Structural)]
pub enum Algorithm {
    BruteForce,
    SweepLine,
}

/// The computed part of one benchmark row: the input size and the number
/// of reported intersections (`None` when a strict-mode run failed).
/// Timing and memory are measured by the caller around this computation.
#[derive(Debug, Clone, Copy, PartialEq, Eq, Structural)]
pub struct BenchmarkResult {
    pub lines: usize,
    pub intersections: Option<usize>,
}

/// What a benchmark row's count means: for the brute force, the size of
/// its complete deduplicated result; for the sweep, exactly the size of
/// the outcome that `spec_sweep_outcome` fixes (`None` when that outcome
/// is an error).
pub open spec fn bench_ok(
    lines: Seq<Line2D>,
    algorithm: Algorithm,
    options: SweepLineOptions,
    r: BenchmarkResult,
) -> bool {
    &&& r.lines == lines.len()
    &&& match algorithm {
        Algorithm::BruteForce => exists|res: Seq<Intersection>|
            #[trigger] brute_force_complete(lines, res) && r.intersections == Some(res.len()
                as usize),
        Algorithm::SweepLine => r.intersections == (match spec_sweep_outcome(lines, options) {
            Ok(res) => Some(res.len() as usize),
            Err(_) => None::<usize>,
        }),
    }
}

/// Runs the chosen engine over one dataset and reports the row data.
pub fn benchmark_single(
    lines: Vec<Line2D>,
    algorithm: Algorithm,
    options: SweepLineOptions,
) -> (r: BenchmarkResult)
    requires
        forall|i: int| 0 <= i < lines@.len() ==> seg_in_range(#[trigger] lines@[i]),
    ensures
        bench_ok(lines@, algorithm, options, r),
{
    let n = lines.len();
    match algorithm {
        Algorithm::BruteForce => {
            let mut handler = BruteForceHandler::new(lines);
            let res = handler.run();
            BenchmarkResult { lines: n, intersections: Some(res.len()) }
        },
        Algorithm::SweepLine => {
            match sweep_intersections(&lines, options) {
                Ok(res) => BenchmarkResult { lines: n, intersections: Some(res.len()) },
                Err(_) => BenchmarkResult { lines: n, intersections: None },
            }
        },
    }
}

/// Runs the chosen engine over every dataset of a list.
pub fn benchmark_all(
    datasets: Vec<Vec<Line2D>>,
    algorithm: Algorithm,
    options: SweepLineOptions,
) -> (rs: Vec<BenchmarkResult>)
    requires
        forall|k: int, i: int|
            0 <= k < datasets@.len() && 0 <= i < (#[trigger] datasets@[k])@.len() ==> seg_in_range(
                #[trigger] datasets@[k]@[i],
            ),
    ensures
        rs@.len() == datasets@.len(),
        forall|k: int|
            0 <= k < datasets@.len() ==> bench_ok(
                datasets@[k]@,
                algorithm,
                options,
                #[trigger] rs@[k],
            ),
{
    let mut out: Vec<BenchmarkResult> = Vec::new();
    let mut datasets = datasets;
    let total = datasets.len();
    let ghost orig = datasets@;
    let mut k: usize = 0;
    while datasets.len() > 0
        invariant
            out@.len() == k,
            k <= orig.len(),
            orig.len() == total,
            k + datasets@.len() == orig.len(),
            datasets@ == orig.subrange(k as int, orig.len() as int),
            forall|a: int, i: int|
                0 <= a < orig.len() && 0 <= i < (#[trigger] orig[a])@.len() ==> seg_in_range(
                    #[trigger] orig[a]@[i],
                ),
            forall|a: int|
                0 <= a < k ==> bench_ok(orig[a]@, algorithm, options, #[trigger] out@[a]),
        decreases datasets@.len(),
    {
        let ds = datasets.remove(0);
        proof {
            assert(orig.subrange(k as int, orig.len() as int)[0] == orig[k as int]);
            assert(datasets@ =~= orig.subrange(k + 1 as int, orig.len() as int));
        }
        let r = benchmark_single(ds, algorithm, options);
        out.push(r);
        k = k + 1;
    }
    proof {
        assert(k == orig.len());
    }
    out
}

} // verus!
