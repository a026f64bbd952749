use vstd::prelude::*;
use crate::geom::in_range;
use crate::frac::Frac;
use crate::line::{seg_in_range, seg_ok, Line2D};
use crate::intersection::{record_equiv, record_wf, Intersection};
use crate::classify::spec_classify;
use crate::events::{event_wf, queue_wf, spec_initial_events, Event, EventQueue};
use crate::sweep_line::{lemma_below_total, lemma_below_trans, SweepLine};

verus! {

/// Policy for the sweep's input sanity checks and contact taxonomy.  A set
/// flag makes the run fail with the matching error; a cleared flag makes the
/// sweep discard the offending segment (for input checks) or report the
/// contact in the result set (for touchings and overlaps).
#[derive(Debug, Clone, Copy, PartialEq, Eq, Structural)]
pub struct SweepLineOptions {
    pub panic_on_identical_x: bool,
    pub panic_on_vertical: bool,
    pub panic_on_zero_length: bool,
    pub panic_on_overlap: bool,
    pub panic_on_touch: bool,
}

impl SweepLineOptions {
    /// Strict mode: every violation is an error.
    pub fn panic_enabled() -> (o: SweepLineOptions)
        ensures
            o == (SweepLineOptions {
                panic_on_identical_x: true,
                panic_on_vertical: true,
                panic_on_zero_length: true,
                panic_on_overlap: true,
                panic_on_touch: true,
            }),
    {
        SweepLineOptions {
            panic_on_identical_x: true,
            panic_on_vertical: true,
            panic_on_zero_length: true,
            panic_on_overlap: true,
            panic_on_touch: true,
        }
    }

    /// Lenient input handling: offending segments are discarded, but
    /// overlaps and touchings still end the run.
    pub fn panic_disabled() -> (o: SweepLineOptions)
        ensures
            o == (SweepLineOptions {
                panic_on_identical_x: false,
                panic_on_vertical: false,
                panic_on_zero_length: false,
                panic_on_overlap: true,
                panic_on_touch: true,
            }),
    {
        SweepLineOptions {
            panic_on_identical_x: false,
            panic_on_vertical: false,
            panic_on_zero_length: false,
            panic_on_overlap: true,
            panic_on_touch: true,
        }
    }
}

/// A precondition violation that ends a strict-mode run.  Each variant
/// names the offending segment or pair.
#[derive(Debug, Clone, Copy, PartialEq, Eq, Structural)]
pub enum SweepError {
    ZeroLengthLine { line: Line2D },
    VerticalLine { line: Line2D },
    DuplicateX { line: Line2D },
    OverlapFound { line1: Line2D, line2: Line2D },
    TouchFound { line1: Line2D, line2: Line2D },
}

/// A segment with its endpoints ordered by `x`.
pub open spec fn spec_normalize(l: Line2D) -> Line2D {
    if l.start.x > l.end.x {
        Line2D { start: l.end, end: l.start }
    } else {
        l
    }
}

/// One step of the input filter over a single segment.  `seen` holds every
/// endpoint abscissa accepted so far; `out` the surviving segments.
pub open spec fn spec_sanitize_step(
    seen: Seq<i64>,
    out: Seq<Line2D>,
    l: Line2D,
    opts: SweepLineOptions,
) -> Result<(Seq<i64>, Seq<Line2D>), SweepError> {
    if l.start == l.end {
        if opts.panic_on_zero_length {
            Err(SweepError::ZeroLengthLine { line: l })
        } else {
            Ok((seen, out))
        }
    } else if l.start.x == l.end.x {
        if opts.panic_on_vertical {
            Err(SweepError::VerticalLine { line: l })
        } else {
            Ok((seen, out))
        }
    } else if seen.contains(l.start.x) {
        if opts.panic_on_identical_x {
            Err(SweepError::DuplicateX { line: l })
        } else {
            Ok((seen, out))
        }
    } else if seen.push(l.start.x).contains(l.end.x) {
        if opts.panic_on_identical_x {
            Err(SweepError::DuplicateX { line: l })
        } else {
            Ok((seen.push(l.start.x), out))
        }
    } else {
        Ok((seen.push(l.start.x).push(l.end.x), out.push(spec_normalize(l))))
    }
}

/// The input filter from position `i` on, with accumulated state.
pub open spec fn spec_sanitize_from(
    lines: Seq<Line2D>,
    i: int,
    seen: Seq<i64>,
    out: Seq<Line2D>,
    opts: SweepLineOptions,
) -> Result<Seq<Line2D>, SweepError>
    decreases lines.len() - i,
{
    if i < 0 || i >= lines.len() {
        Ok(out)
    } else {
        match spec_sanitize_step(seen, out, lines[i], opts) {
            Ok((seen2, out2)) => spec_sanitize_from(lines, i + 1, seen2, out2, opts),
            Err(e) => Err(e),
        }
    }
}

/// The sweep's input filter: removes or rejects zero-length segments,
/// vertical segments and duplicated endpoint abscissas, and orders each
/// surviving segment's endpoints by `x`.
pub open spec fn spec_sanitize(lines: Seq<Line2D>, opts: SweepLineOptions) -> Result<
    Seq<Line2D>,
    SweepError,
> {
    spec_sanitize_from(lines, 0, Seq::empty(), Seq::empty(), opts)
}

/// Every segment surviving the filter is sweepable: on the grid, not
/// vertical, endpoints ordered by `x`.
pub proof fn lemma_sanitize_ok(
    lines: Seq<Line2D>,
    i: int,
    seen: Seq<i64>,
    out: Seq<Line2D>,
    opts: SweepLineOptions,
    res: Seq<Line2D>,
)
    requires
        forall|k: int| 0 <= k < lines.len() ==> seg_in_range(#[trigger] lines[k]),
        forall|k: int| 0 <= k < out.len() ==> seg_ok(#[trigger] out[k]),
        spec_sanitize_from(lines, i, seen, out, opts) == Ok::<Seq<Line2D>, SweepError>(res),
    ensures
        forall|k: int| 0 <= k < res.len() ==> seg_ok(#[trigger] res[k]),
    decreases lines.len() - i,
{
    if i < 0 || i >= lines.len() {
    } else {
        match spec_sanitize_step(seen, out, lines[i], opts) {
            Ok((seen2, out2)) => {
                assert forall|k: int| 0 <= k < out2.len() implies seg_ok(#[trigger] out2[k]) by {
                    if k < out.len() {
                        assert(out2[k] == out[k]);
                    }
                }
                lemma_sanitize_ok(lines, i + 1, seen2, out2, opts, res);
            },
            Err(_) => {},
        }
    }
}

/// Decides `v@.contains(x)`.
fn vec_contains_i64(v: &Vec<i64>, x: i64) -> (r: bool)
    ensures
        r == v@.contains(x),
{
    let n = v.len();
    let mut i: usize = 0;
    while i < n
        invariant
            n == v@.len(),
            i <= n,
            forall|j: int| 0 <= j < i ==> v@[j] != x,
        decreases n - i,
    {
        if v[i] == x {
            proof {
                assert(v@[i as int] == x);
            }
            return true;
        }
        i = i + 1;
    }
    proof {
        if v@.contains(x) {
            let k = choose|k: int| 0 <= k < v@.len() && v@[k] == x;
            assert(false);
        }
    }
    false
}

/// Applies the input filter, exactly as `spec_sanitize` describes it.
pub fn sanity_checks(lines: &Vec<Line2D>, options: &SweepLineOptions) -> (r: Result<
    Vec<Line2D>,
    SweepError,
>)
    ensures
        match r {
            Ok(v) => spec_sanitize(lines@, *options) == Ok::<Seq<Line2D>, SweepError>(v@),
            Err(e) => spec_sanitize(lines@, *options) == Err::<Seq<Line2D>, SweepError>(e),
        },
{
    let n = lines.len();
    let mut seen: Vec<i64> = Vec::new();
    let mut out: Vec<Line2D> = Vec::new();
    let mut i: usize = 0;
    while i < n
        invariant
            n == lines@.len(),
            i <= n,
            spec_sanitize_from(lines@, i as int, seen@, out@, *options) == spec_sanitize(
                lines@,
                *options,
            ),
        decreases n - i,
    {
        let l = lines[i];
        if l.start.x == l.end.x && l.start.y == l.end.y {
            if options.panic_on_zero_length {
                return Err(SweepError::ZeroLengthLine { line: l });
            }
        } else if l.start.x == l.end.x {
            if options.panic_on_vertical {
                return Err(SweepError::VerticalLine { line: l });
            }
        } else if vec_contains_i64(&seen, l.start.x) {
            if options.panic_on_identical_x {
                return Err(SweepError::DuplicateX { line: l });
            }
        } else {
            seen.push(l.start.x);
            if vec_contains_i64(&seen, l.end.x) {
                if options.panic_on_identical_x {
                    return Err(SweepError::DuplicateX { line: l });
                }
            } else {
                seen.push(l.end.x);
                if l.start.x > l.end.x {
                    out.push(Line2D { start: l.end, end: l.start });
                } else {
                    out.push(l);
                }
            }
        }
        i = i + 1;
    }
    Ok(out)
}

/// Every segment of the sequence is sweepable.
pub open spec fn lines_ok(lines: Seq<Line2D>) -> bool {
    forall|i: int| 0 <= i < lines.len() ==> seg_ok(#[trigger] lines[i])
}

/// The record describes a true intersection of two distinct input segments:
/// it equals (up to swapping the pair) the classification of some pair.
pub open spec fn sound_record(r: Intersection, lines: Seq<Line2D>) -> bool {
    exists|a: Line2D, b: Line2D|
        lines.contains(a) && lines.contains(b) && a != b && match #[trigger] spec_classify(a, b) {
            Some(m) => record_equiv(r, m),
            None => false,
        }
}

/// What a pending event may refer to: only input segments, and only sound
/// records.
pub open spec fn event_ok(e: Event, lines: Seq<Line2D>) -> bool {
    match e {
        Event::StartEvent { line } => lines.contains(line),
        Event::EndEvent { line } => lines.contains(line),
        Event::IntersectionEvent { intersection, smaller, bigger } => lines.contains(smaller)
            && lines.contains(bigger) && sound_record(intersection, lines) && record_wf(
            intersection,
        ),
    }
}

pub open spec fn events_ok(q: Seq<Event>, lines: Seq<Line2D>) -> bool {
    forall|i: int| 0 <= i < q.len() ==> event_ok(#[trigger] q[i], lines)
}

/// A member of a sweepable sequence is sweepable.
pub proof fn lemma_member_ok(lines: Seq<Line2D>, s: Line2D)
    requires
        lines_ok(lines),
        lines.contains(s),
    ensures
        seg_ok(s),
{
    let k = choose|k: int| 0 <= k < lines.len() && lines[k] == s;
}

/// A sound event is well-formed.
proof fn lemma_event_ok_wf(e: Event, lines: Seq<Line2D>)
    requires
        event_ok(e, lines),
        lines_ok(lines),
    ensures
        event_wf(e),
{
    match e {
        Event::StartEvent { line } => lemma_member_ok(lines, line),
        Event::EndEvent { line } => lemma_member_ok(lines, line),
        Event::IntersectionEvent { intersection, smaller, bigger } => {
            lemma_member_ok(lines, smaller);
            lemma_member_ok(lines, bigger);
        },
    }
}

/// Soundness of a record survives extending the segment sequence.
pub proof fn lemma_sound_record_grow(r: Intersection, l1: Seq<Line2D>, l2: Seq<Line2D>)
    requires
        sound_record(r, l1),
        forall|x: Line2D| l1.contains(x) ==> l2.contains(x),
    ensures
        sound_record(r, l2),
{
    let (a, b) = choose|a: Line2D, b: Line2D|
        l1.contains(a) && l1.contains(b) && a != b && match #[trigger] spec_classify(a, b) {
            Some(m) => record_equiv(r, m),
            None => false,
        };
    assert(l2.contains(a));
    assert(l2.contains(b));
}

/// Soundness of an event survives extending the segment sequence.
proof fn lemma_event_ok_grow(e: Event, l1: Seq<Line2D>, l2: Seq<Line2D>)
    requires
        event_ok(e, l1),
        forall|x: Line2D| l1.contains(x) ==> l2.contains(x),
    ensures
        event_ok(e, l2),
{
    match e {
        Event::StartEvent { line } => {},
        Event::EndEvent { line } => {},
        Event::IntersectionEvent { intersection, smaller, bigger } => {
            lemma_sound_record_grow(intersection, l1, l2);
        },
    }
}

/// The initial start/end events refer only to input segments.
proof fn lemma_initial_events_ok(lines: Seq<Line2D>)
    ensures
        events_ok(spec_initial_events(lines), lines),
    decreases lines.len(),
{
    if lines.len() > 0 {
        lemma_initial_events_ok(lines.drop_last());
        let prev = spec_initial_events(lines.drop_last());
        let cur = spec_initial_events(lines);
        assert forall|x: Line2D| lines.drop_last().contains(x) implies lines.contains(x) by {
            let k = choose|k: int|
                0 <= k < lines.drop_last().len() && lines.drop_last()[k] == x;
            assert(lines[k] == x);
        }
        assert forall|i: int| 0 <= i < cur.len() implies event_ok(#[trigger] cur[i], lines) by {
            if i < prev.len() {
                assert(cur[i] == prev[i]);
                assert(event_ok(prev[i], lines.drop_last()));
                lemma_event_ok_grow(prev[i], lines.drop_last(), lines);
            } else if i == prev.len() {
                assert(cur[i] == Event::StartEvent { line: lines.last() });
                assert(lines[lines.len() - 1] == lines.last());
            } else {
                assert(cur[i] == Event::EndEvent { line: lines.last() });
                assert(lines[lines.len() - 1] == lines.last());
            }
        }
    } else {
        let prev = spec_initial_events(lines);
        assert(prev.len() == 0);
    }
}

/// An error reported by the sweep's main loop is justified: the named
/// contact really is the classification of two distinct input segments, and
/// the policy asked for it to be fatal.
pub open spec fn err_sound(e: SweepError, lines: Seq<Line2D>, opts: SweepLineOptions) -> bool {
    match e {
        SweepError::TouchFound { line1, line2 } => opts.panic_on_touch && exists|r: Intersection|
            #[trigger] sound_record(r, lines) && r is Touching && r.spec_lines() == (line1, line2),
        SweepError::OverlapFound { line1, line2 } => opts.panic_on_overlap && exists|
            r: Intersection,
        |
            #[trigger] sound_record(r, lines) && (r is PartialOverlap || r is ContainedOverlap
                || r is IdenticalOverlap) && r.spec_lines() == (line1, line2),
        _ => false,
    }
}

/// Some reported record equals `r` up to swapping the pair.
pub open spec fn spec_results_have(results: Seq<Intersection>, r: Intersection) -> bool {
    exists|i: int| 0 <= i < results.len() && record_equiv(#[trigger] results[i], r)
}

/// Inserting a record into a deduplicated result set: a record equal (up to
/// swapping the pair) to a present one is dropped.
pub open spec fn spec_insert_record(results: Seq<Intersection>, r: Intersection) -> Seq<
    Intersection,
> {
    if spec_results_have(results, r) {
        results
    } else {
        results.push(r)
    }
}

/// The sweep driver's state: the pending events, the active segments, the
/// sweep abscissa, and the reported records.  The driver's contracts say
/// exactly how each step transforms this model.
pub struct SweepModel {
    pub queue: Seq<Event>,
    pub status: Seq<Line2D>,
    pub x: Frac,
    pub results: Seq<Intersection>,
}

pub open spec fn spec_model(h: Handler) -> SweepModel {
    SweepModel {
        queue: h.queue.events@,
        status: h.sweep_line.lines@,
        x: h.sweep_line.x,
        results: h.intersections@,
    }
}

/// Queueing one found contact, or applying the contact policy: the exact
/// effect of `add_intersection_event` on the model, with the error it
/// raises, if any.
pub open spec fn spec_add_effect(
    m: SweepModel,
    opts: SweepLineOptions,
    intersection: Intersection,
    smaller: Line2D,
    bigger: Line2D,
) -> (SweepModel, Option<SweepError>) {
    match intersection {
        Intersection::Crossing { .. } => {
            if spec_results_have(m.results, intersection) || crate::events::spec_queue_has_record(
                m.queue,
                intersection,
            ) {
                (m, None)
            } else {
                (
                    SweepModel {
                        queue: m.queue.push(
                            Event::IntersectionEvent { intersection, smaller, bigger },
                        ),
                        status: m.status,
                        x: m.x,
                        results: m.results,
                    },
                    None,
                )
            }
        },
        Intersection::Touching { line1, line2, .. } => {
            if opts.panic_on_touch {
                (m, Some(SweepError::TouchFound { line1, line2 }))
            } else {
                (
                    SweepModel {
                        queue: m.queue,
                        status: m.status,
                        x: m.x,
                        results: spec_insert_record(m.results, intersection),
                    },
                    None,
                )
            }
        },
        Intersection::PartialOverlap { line1, line2, .. } => {
            if opts.panic_on_overlap {
                (m, Some(SweepError::OverlapFound { line1, line2 }))
            } else {
                (
                    SweepModel {
                        queue: m.queue,
                        status: m.status,
                        x: m.x,
                        results: spec_insert_record(m.results, intersection),
                    },
                    None,
                )
            }
        },
        Intersection::ContainedOverlap { line1, line2, .. } => {
            if opts.panic_on_overlap {
                (m, Some(SweepError::OverlapFound { line1, line2 }))
            } else {
                (
                    SweepModel {
                        queue: m.queue,
                        status: m.status,
                        x: m.x,
                        results: spec_insert_record(m.results, intersection),
                    },
                    None,
                )
            }
        },
        Intersection::IdenticalOverlap { line1, line2, .. } => {
            if opts.panic_on_overlap {
                (m, Some(SweepError::OverlapFound { line1, line2 }))
            } else {
                (
                    SweepModel {
                        queue: m.queue,
                        status: m.status,
                        x: m.x,
                        results: spec_insert_record(m.results, intersection),
                    },
                    None,
                )
            }
        },
    }
}

/// Classifying one pair and feeding any contact to `spec_add_effect`.
pub open spec fn spec_test_pair(
    m: SweepModel,
    opts: SweepLineOptions,
    a: Line2D,
    b: Line2D,
    smaller: Line2D,
    bigger: Line2D,
) -> (SweepModel, Option<SweepError>) {
    match spec_classify(a, b) {
        None => (m, None),
        Some(found) => spec_add_effect(m, opts, found, smaller, bigger),
    }
}

/// A segment becomes active: the abscissa moves to its left end, it joins
/// the status structure, and it is tested against its two order-neighbors.
pub open spec fn spec_handle_start(m: SweepModel, opts: SweepLineOptions, line: Line2D) -> (
    SweepModel,
    Option<SweepError>,
) {
    let x = Frac { num: line.start.x as i128, den: 1 };
    let status = m.status.push(line);
    let m0 = SweepModel { queue: m.queue, status, x, results: m.results };
    let nbs = crate::sweep_line::spec_scan_lower(status, line, x, 0, None);
    let step1 = match nbs {
        None => (m0, None),
        Some(nb) => spec_test_pair(m0, opts, line, nb, nb, line),
    };
    if step1.1 is Some {
        step1
    } else {
        let nbb = crate::sweep_line::spec_scan_upper(status, line, x, 0, None);
        match nbb {
            None => step1,
            Some(nb) => spec_test_pair(step1.0, opts, line, nb, line, nb),
        }
    }
}

/// A segment retires: the abscissa moves to its right end, its neighbors
/// are read before it leaves the status structure, and the pair that just
/// became adjacent is tested.
pub open spec fn spec_handle_end(m: SweepModel, opts: SweepLineOptions, line: Line2D) -> (
    SweepModel,
    Option<SweepError>,
) {
    let x = Frac { num: line.end.x as i128, den: 1 };
    let nbs = crate::sweep_line::spec_scan_lower(m.status, line, x, 0, None);
    let nbb = crate::sweep_line::spec_scan_upper(m.status, line, x, 0, None);
    let status = crate::sweep_line::spec_remove_first(m.status, line);
    let m0 = SweepModel { queue: m.queue, status, x, results: m.results };
    match (nbs, nbb) {
        (Some(s), Some(b)) => spec_test_pair(m0, opts, s, b, s, b),
        _ => (m0, None),
    }
}

/// A crossing fires: the record is reported, the abscissa moves to its
/// point (where the slope tie-break already gives the swapped order), and
/// the two pairs that just became adjacent are tested.
pub open spec fn spec_handle_intersection(
    m: SweepModel,
    opts: SweepLineOptions,
    intersection: Intersection,
    smaller: Line2D,
    bigger: Line2D,
) -> (SweepModel, Option<SweepError>) {
    let x = crate::intersection::spec_record_point(intersection).x;
    let m1 = SweepModel {
        queue: m.queue,
        status: m.status,
        x,
        results: spec_insert_record(m.results, intersection),
    };
    let above = crate::sweep_line::spec_scan_upper(m.status, smaller, x, 0, None);
    let step1 = match above {
        None => (m1, None),
        Some(ab) => spec_test_pair(m1, opts, ab, smaller, smaller, ab),
    };
    if step1.1 is Some {
        step1
    } else {
        let below = crate::sweep_line::spec_scan_lower(m.status, bigger, x, 0, None);
        match below {
            None => step1,
            Some(bl) => spec_test_pair(step1.0, opts, bl, bigger, bl, bigger),
        }
    }
}

/// One step of the driver: serve the earliest pending event (on ties the
/// scan's choice) and dispatch on its kind.
pub open spec fn spec_step(m: SweepModel, opts: SweepLineOptions) -> (
    SweepModel,
    Option<SweepError>,
) {
    let bi = crate::events::spec_argmin(m.queue, 1, 0);
    let e = m.queue[bi];
    let m0 = SweepModel { queue: m.queue.remove(bi), status: m.status, x: m.x, results: m.results };
    match e {
        Event::StartEvent { line } => spec_handle_start(m0, opts, line),
        Event::EndEvent { line } => spec_handle_end(m0, opts, line),
        Event::IntersectionEvent { intersection, smaller, bigger } => spec_handle_intersection(
            m0,
            opts,
            intersection,
            smaller,
            bigger,
        ),
    }
}

/// The driver run: steps until the queue empties, a contact is fatal, or
/// the step budget runs out.
pub open spec fn spec_run(m: SweepModel, opts: SweepLineOptions, fuel: nat) -> (
    SweepModel,
    Option<SweepError>,
)
    decreases fuel,
{
    if fuel == 0 || m.queue.len() == 0 {
        (m, None)
    } else {
        let (m1, err) = spec_step(m, opts);
        match err {
            Some(e) => (m1, Some(e)),
            None => spec_run(m1, opts, (fuel - 1) as nat),
        }
    }
}

/// The sweep's step budget.  Every crossing pair is queued at most once,
/// so a run can never reach it; it bounds the recursion of `spec_run` and
/// the driver's loop.
pub const SWEEP_FUEL: u64 = 0xFFFF_FFFF_FFFF_FFFF;

/// The model a fresh handler starts from: a start and an end event per
/// surviving segment, no active segment, the abscissa at zero, nothing
/// reported.
pub open spec fn spec_initial_model(sanitized: Seq<Line2D>) -> SweepModel {
    SweepModel {
        queue: spec_initial_events(sanitized),
        status: Seq::empty(),
        x: Frac { num: 0, den: 1 },
        results: Seq::empty(),
    }
}

/// What the whole pipeline computes on an input: the sanitizer's error, or
/// the driver run's error, or the reported records, exactly.
pub open spec fn spec_sweep_outcome(lines: Seq<Line2D>, opts: SweepLineOptions) -> Result<
    Seq<Intersection>,
    SweepError,
> {
    match spec_sanitize(lines, opts) {
        Err(e) => Err(e),
        Ok(f) => {
            let (mf, err) = spec_run(spec_initial_model(f), opts, SWEEP_FUEL as nat);
            match err {
                Some(e) => Err(e),
                None => Ok(mf.results),
            }
        },
    }
}

/// The driver of the plane sweep: the event queue, the status structure,
/// the policy, the sanitized input, and the reported intersections.
pub struct Handler {
    pub queue: EventQueue,
    pub sweep_line: SweepLine,
    pub intersections: Vec<Intersection>,
    pub options: SweepLineOptions,
    pub lines: Vec<Line2D>,
}

/// The handler's invariant: all structures refer only to sanitized input
/// segments, every reported record is sound, and the result set holds no
/// two equal records.
pub open spec fn handler_wf(h: Handler) -> bool {
    &&& lines_ok(h.lines@)
    &&& queue_wf(h.queue)
    &&& crate::sweep_line::sweep_line_wf(h.sweep_line)
    &&& events_ok(h.queue.events@, h.lines@)
    &&& forall|i: int|
        0 <= i < h.sweep_line.lines@.len() ==> h.lines@.contains(
            #[trigger] h.sweep_line.lines@[i],
        )
    &&& forall|i: int|
        0 <= i < h.intersections@.len() ==> sound_record(#[trigger] h.intersections@[i], h.lines@)
            && record_wf(h.intersections@[i])
    &&& forall|i: int, j: int|
        0 <= i < j < h.intersections@.len() ==> !record_equiv(
            #[trigger] h.intersections@[i],
            #[trigger] h.intersections@[j],
        )
}

impl Handler {
    /// Builds a handler over the sanitized input: the queue holds a start
    /// and an end event per surviving segment, and no intersection has been
    /// reported yet.  In strict mode a precondition violation is returned
    /// as the error that `spec_sanitize` names.
    pub fn new(lines: Vec<Line2D>, options: SweepLineOptions) -> (r: Result<Handler, SweepError>)
        requires
            forall|i: int| 0 <= i < lines@.len() ==> seg_in_range(#[trigger] lines@[i]),
        ensures
            match r {
                Ok(h) => {
                    &&& handler_wf(h)
                    &&& spec_sanitize(lines@, options) == Ok::<Seq<Line2D>, SweepError>(h.lines@)
                    &&& h.queue.events@ == spec_initial_events(h.lines@)
                    &&& h.intersections@.len() == 0
                    &&& h.options == options
                    &&& spec_model(h) == spec_initial_model(h.lines@)
                },
                Err(e) => spec_sanitize(lines@, options) == Err::<Seq<Line2D>, SweepError>(e),
            },
    {
        let sanitized = match sanity_checks(&lines, &options) {
            Ok(v) => v,
            Err(e) => {
                return Err(e);
            },
        };
        proof {
            lemma_sanitize_ok(
                lines@,
                0,
                Seq::empty(),
                Seq::empty(),
                options,
                sanitized@,
            );
            lemma_initial_events_ok(sanitized@);
        }
        let queue = EventQueue::new(&sanitized);
        let handler = Handler {
            queue,
            sweep_line: SweepLine::new(),
            intersections: Vec::new(),
            options,
            lines: sanitized,
        };
        proof {
            assert(handler.sweep_line.lines@ =~= Seq::<Line2D>::empty());
            assert(handler.intersections@ =~= Seq::<Intersection>::empty());
        }
        Ok(handler)
    }

    /// Whether a record equal (up to swapping the pair) to `r` was already
    /// reported.
    fn results_contain(&self, r: &Intersection) -> (found: bool)
        requires
            handler_wf(*self),
            record_wf(*r),
        ensures
            found == spec_results_have(self.intersections@, *r),
    {
        let n = self.intersections.len();
        let mut i: usize = 0;
        while i < n
            invariant
                handler_wf(*self),
                record_wf(*r),
                n == self.intersections@.len(),
                i <= n,
                forall|j: int| 0 <= j < i ==> !record_equiv(#[trigger] self.intersections@[j], *r),
            decreases n - i,
        {
            if self.intersections[i].same_intersection(r) {
                return true;
            }
            i = i + 1;
        }
        proof {
            if exists|k: int|
                0 <= k < self.intersections@.len() && record_equiv(
                    #[trigger] self.intersections@[k],
                    *r,
                ) {
                let k = choose|k: int|
                    0 <= k < self.intersections@.len() && record_equiv(
                        #[trigger] self.intersections@[k],
                        *r,
                    );
                assert(false);
            }
        }
        false
    }

    /// Adds `r` to the result set unless an equal record is already there.
    fn insert_record(&mut self, r: Intersection)
        requires
            handler_wf(*old(self)),
            sound_record(r, old(self).lines@),
            record_wf(r),
        ensures
            handler_wf(*final(self)),
            final(self).lines@ == old(self).lines@,
            final(self).options == old(self).options,
            final(self).queue == old(self).queue,
            final(self).sweep_line == old(self).sweep_line,
            final(self).intersections@ == spec_insert_record(old(self).intersections@, r),
    {
        if self.results_contain(&r) {
            return;
        }
        self.intersections.push(r);
    }

    /// Queues a future crossing event, or applies the contact policy: a
    /// touching or overlap is an error when the matching flag is set and is
    /// reported into the result set otherwise.  Duplicate crossings —
    /// already reported or already queued — are dropped.
    fn add_intersection_event(
        &mut self,
        intersection: Intersection,
        smaller: Line2D,
        bigger: Line2D,
    ) -> (r: Result<(), SweepError>)
        requires
            handler_wf(*old(self)),
            sound_record(intersection, old(self).lines@),
            record_wf(intersection),
            old(self).lines@.contains(smaller),
            old(self).lines@.contains(bigger),
        ensures
            handler_wf(*final(self)),
            final(self).lines@ == old(self).lines@,
            final(self).options == old(self).options,
            final(self).sweep_line == old(self).sweep_line,
            spec_model(*final(self)) == spec_add_effect(
                spec_model(*old(self)),
                old(self).options,
                intersection,
                smaller,
                bigger,
            ).0,
            match r {
                Ok(_) => spec_add_effect(
                    spec_model(*old(self)),
                    old(self).options,
                    intersection,
                    smaller,
                    bigger,
                ).1 is None,
                Err(e) => spec_add_effect(
                    spec_model(*old(self)),
                    old(self).options,
                    intersection,
                    smaller,
                    bigger,
                ).1 == Some(e) && err_sound(e, old(self).lines@, old(self).options),
            },
    {
        match intersection {
            Intersection::Crossing { .. } => {
                if self.results_contain(&intersection) {
                    return Ok(());
                }
                if self.queue.contains_record(&intersection) {
                    return Ok(());
                }
                proof {
                    lemma_member_ok(self.lines@, smaller);
                    lemma_member_ok(self.lines@, bigger);
                }
                let ghost oldq = self.queue.events@;
                self.queue.add(Event::IntersectionEvent { intersection, smaller, bigger });
                proof {
                    assert forall|j: int| 0 <= j < self.queue.events@.len() implies event_ok(
                        #[trigger] self.queue.events@[j],
                        self.lines@,
                    ) by {
                        if j < oldq.len() {
                            assert(self.queue.events@[j] == oldq[j]);
                        }
                    }
                }
                Ok(())
            },
            Intersection::Touching { line1, line2, .. } => {
                if self.options.panic_on_touch {
                    proof {
                        assert(sound_record(intersection, self.lines@) && intersection is Touching
                            && intersection.spec_lines() == (line1, line2));
                    }
                    return Err(SweepError::TouchFound { line1, line2 });
                }
                self.insert_record(intersection);
                Ok(())
            },
            Intersection::PartialOverlap { line1, line2, .. } => {
                if self.options.panic_on_overlap {
                    return Err(SweepError::OverlapFound { line1, line2 });
                }
                self.insert_record(intersection);
                Ok(())
            },
            Intersection::ContainedOverlap { line1, line2, .. } => {
                if self.options.panic_on_overlap {
                    return Err(SweepError::OverlapFound { line1, line2 });
                }
                self.insert_record(intersection);
                Ok(())
            },
            Intersection::IdenticalOverlap { line1, line2, .. } => {
                if self.options.panic_on_overlap {
                    return Err(SweepError::OverlapFound { line1, line2 });
                }
                self.insert_record(intersection);
                Ok(())
            },
        }
    }

    /// A segment becomes active: insert it and test it against its two new
    /// order-neighbors.  The model moves exactly as `spec_handle_start`
    /// says.
    fn handle_start_event(&mut self, line: Line2D) -> (r: Result<(), SweepError>)
        requires
            handler_wf(*old(self)),
            old(self).lines@.contains(line),
        ensures
            handler_wf(*final(self)),
            final(self).lines@ == old(self).lines@,
            final(self).options == old(self).options,
            spec_model(*final(self)) == spec_handle_start(
                spec_model(*old(self)),
                old(self).options,
                line,
            ).0,
            match r {
                Ok(_) => spec_handle_start(spec_model(*old(self)), old(self).options, line).1
                    is None,
                Err(e) => spec_handle_start(spec_model(*old(self)), old(self).options, line).1
                    == Some(e) && err_sound(e, old(self).lines@, old(self).options),
            },
    {
        let ghost m_in = spec_model(*old(self));
        let ghost opts = old(self).options;
        proof {
            lemma_member_ok(self.lines@, line);
        }
        self.sweep_line.set_x(Frac::from_int(line.start.x));
        let ghost oldst = self.sweep_line.lines@;
        self.sweep_line.add(line);
        proof {
            assert forall|j: int| 0 <= j < self.sweep_line.lines@.len() implies self.lines@.contains(
                #[trigger] self.sweep_line.lines@[j],
            ) by {
                if j < oldst.len() {
                    assert(self.sweep_line.lines@[j] == oldst[j]);
                }
            }
        }
        let ghost m0 = spec_model(*self);
        proof {
            assert(m0 == SweepModel {
                queue: m_in.queue,
                status: m_in.status.push(line),
                x: Frac { num: line.start.x as i128, den: 1 },
                results: m_in.results,
            });
        }
        let neighbors = self.sweep_line.get_neighbors(&line);
        let ghost step1 = match neighbors.smaller {
            None => (m0, None::<SweepError>),
            Some(nb) => spec_test_pair(m0, opts, line, nb, nb, line),
        };
        if let Some(small_neighbor) = neighbors.smaller {
            proof {
                let k = choose|k: int|
                    0 <= k < self.sweep_line.lines@.len() && self.sweep_line.lines@[k]
                        == small_neighbor;
                lemma_member_ok(self.lines@, small_neighbor);
                lemma_below_total(small_neighbor, line, self.sweep_line.x);
            }
            let intersection_point = line.find_intersection(small_neighbor);
            if let Some(intersection) = intersection_point {
                proof {
                    assert(self.lines@.contains(line) && self.lines@.contains(small_neighbor)
                        && line != small_neighbor && match spec_classify(line, small_neighbor) {
                        Some(m) => record_equiv(intersection, m),
                        None => false,
                    });
                }
                let res = self.add_intersection_event(intersection, small_neighbor, line);
                if let Err(e) = res {
                    proof {
                        assert(step1 == spec_add_effect(m0, opts, intersection, small_neighbor,
                            line));
                        assert(spec_handle_start(m_in, opts, line) == step1);
                    }
                    return Err(e);
                }
            }
        }
        proof {
            assert(spec_model(*self) == step1.0 && step1.1 is None);
        }
        let neighbors2 = self.sweep_line.get_neighbors(&line);
        let ghost step2 = match neighbors2.bigger {
            None => step1,
            Some(nb) => spec_test_pair(step1.0, opts, line, nb, line, nb),
        };
        if let Some(big_neighbor) = neighbors2.bigger {
            proof {
                let k = choose|k: int|
                    0 <= k < self.sweep_line.lines@.len() && self.sweep_line.lines@[k]
                        == big_neighbor;
                lemma_member_ok(self.lines@, big_neighbor);
                lemma_below_total(line, big_neighbor, self.sweep_line.x);
            }
            let intersection_point = line.find_intersection(big_neighbor);
            if let Some(intersection) = intersection_point {
                proof {
                    assert(self.lines@.contains(line) && self.lines@.contains(big_neighbor)
                        && line != big_neighbor && match spec_classify(line, big_neighbor) {
                        Some(m) => record_equiv(intersection, m),
                        None => false,
                    });
                }
                let res = self.add_intersection_event(intersection, line, big_neighbor);
                if let Err(e) = res {
                    proof {
                        assert(spec_handle_start(m_in, opts, line) == step2);
                    }
                    return Err(e);
                }
            }
        }
        proof {
            assert(spec_model(*self) == step2.0 && step2.1 is None);
            assert(spec_handle_start(m_in, opts, line) == step2);
        }
        Ok(())
    }

    /// A segment retires: query its neighbors, remove it, and test the pair
    /// that just became adjacent.  The model moves exactly as
    /// `spec_handle_end` says.
    fn handle_end_event(&mut self, line: Line2D) -> (r: Result<(), SweepError>)
        requires
            handler_wf(*old(self)),
            old(self).lines@.contains(line),
        ensures
            handler_wf(*final(self)),
            final(self).lines@ == old(self).lines@,
            final(self).options == old(self).options,
            spec_model(*final(self)) == spec_handle_end(
                spec_model(*old(self)),
                old(self).options,
                line,
            ).0,
            match r {
                Ok(_) => spec_handle_end(spec_model(*old(self)), old(self).options, line).1
                    is None,
                Err(e) => spec_handle_end(spec_model(*old(self)), old(self).options, line).1
                    == Some(e) && err_sound(e, old(self).lines@, old(self).options),
            },
    {
        let ghost m_in = spec_model(*old(self));
        let ghost opts = old(self).options;
        proof {
            lemma_member_ok(self.lines@, line);
        }
        self.sweep_line.set_x(Frac::from_int(line.end.x));
        let neighbors = self.sweep_line.get_neighbors(&line);
        let ghost oldst = self.sweep_line.lines@;
        self.sweep_line.remove(&line);
        proof {
            if oldst.contains(line) {
                let ri = choose|ri: int|
                    0 <= ri < oldst.len() && oldst[ri] == line && self.sweep_line.lines@
                        == oldst.remove(ri);
                assert forall|j: int|
                    0 <= j < self.sweep_line.lines@.len() implies self.lines@.contains(
                    #[trigger] self.sweep_line.lines@[j],
                ) by {
                    if j < ri {
                        assert(self.sweep_line.lines@[j] == oldst[j]);
                    } else {
                        assert(self.sweep_line.lines@[j] == oldst[j + 1]);
                    }
                }
            }
        }
        let ghost m0 = spec_model(*self);
        proof {
            assert(m0 == SweepModel {
                queue: m_in.queue,
                status: crate::sweep_line::spec_remove_first(m_in.status, line),
                x: Frac { num: line.end.x as i128, den: 1 },
                results: m_in.results,
            });
        }
        let ghost step = match (neighbors.smaller, neighbors.bigger) {
            (Some(sn), Some(bn)) => spec_test_pair(m0, opts, sn, bn, sn, bn),
            _ => (m0, None::<SweepError>),
        };
        if let (Some(small_neighbor), Some(big_neighbor)) = (neighbors.smaller, neighbors.bigger) {
            proof {
                let k1 = choose|k: int| 0 <= k < oldst.len() && oldst[k] == small_neighbor;
                let k2 = choose|k: int| 0 <= k < oldst.len() && oldst[k] == big_neighbor;
                lemma_member_ok(self.lines@, small_neighbor);
                lemma_member_ok(self.lines@, big_neighbor);
                lemma_below_trans(
                    small_neighbor,
                    line,
                    big_neighbor,
                    self.sweep_line.x,
                );
                lemma_below_total(small_neighbor, big_neighbor, self.sweep_line.x);
            }
            let intersection_point = small_neighbor.find_intersection(big_neighbor);
            if let Some(intersection) = intersection_point {
                proof {
                    assert(self.lines@.contains(small_neighbor) && self.lines@.contains(
                        big_neighbor,
                    ) && small_neighbor != big_neighbor && match spec_classify(
                        small_neighbor,
                        big_neighbor,
                    ) {
                        Some(m) => record_equiv(intersection, m),
                        None => false,
                    });
                }
                let res = self.add_intersection_event(intersection, small_neighbor, big_neighbor);
                if let Err(e) = res {
                    proof {
                        assert(spec_handle_end(m_in, opts, line) == step);
                    }
                    return Err(e);
                }
            }
        }
        proof {
            assert(spec_model(*self) == step.0 && step.1 is None);
            assert(spec_handle_end(m_in, opts, line) == step);
        }
        Ok(())
    }

    /// A crossing fires: report it, move the abscissa to the crossing point
    /// (where the slope tie-break already yields the swapped order), and
    /// test the two pairs that just became adjacent.  The model moves
    /// exactly as `spec_handle_intersection` says.
    fn handle_intersection_event(
        &mut self,
        intersection: Intersection,
        smaller: Line2D,
        bigger: Line2D,
    ) -> (r: Result<(), SweepError>)
        requires
            handler_wf(*old(self)),
            sound_record(intersection, old(self).lines@),
            record_wf(intersection),
            old(self).lines@.contains(smaller),
            old(self).lines@.contains(bigger),
        ensures
            handler_wf(*final(self)),
            final(self).lines@ == old(self).lines@,
            final(self).options == old(self).options,
            spec_model(*final(self)) == spec_handle_intersection(
                spec_model(*old(self)),
                old(self).options,
                intersection,
                smaller,
                bigger,
            ).0,
            match r {
                Ok(_) => spec_handle_intersection(
                    spec_model(*old(self)),
                    old(self).options,
                    intersection,
                    smaller,
                    bigger,
                ).1 is None,
                Err(e) => spec_handle_intersection(
                    spec_model(*old(self)),
                    old(self).options,
                    intersection,
                    smaller,
                    bigger,
                ).1 == Some(e) && err_sound(e, old(self).lines@, old(self).options),
            },
    {
        let ghost m_in = spec_model(*old(self));
        let ghost opts = old(self).options;
        proof {
            lemma_member_ok(self.lines@, smaller);
            lemma_member_ok(self.lines@, bigger);
        }
        let point = intersection.record_point();
        self.sweep_line.set_x(point.x);
        self.insert_record(intersection);
        let ghost m1 = spec_model(*self);
        proof {
            assert(m1 == SweepModel {
                queue: m_in.queue,
                status: m_in.status,
                x: crate::intersection::spec_record_point(intersection).x,
                results: spec_insert_record(m_in.results, intersection),
            });
        }
        let nb_smaller = self.sweep_line.get_neighbors(&smaller);
        let ghost step1 = match nb_smaller.bigger {
            None => (m1, None::<SweepError>),
            Some(ab) => spec_test_pair(m1, opts, ab, smaller, smaller, ab),
        };
        if let Some(above) = nb_smaller.bigger {
            proof {
                let k = choose|k: int|
                    0 <= k < self.sweep_line.lines@.len() && self.sweep_line.lines@[k] == above;
                lemma_member_ok(self.lines@, above);
                lemma_below_total(smaller, above, self.sweep_line.x);
            }
            let intersection_point = above.find_intersection(smaller);
            if let Some(found) = intersection_point {
                proof {
                    assert(self.lines@.contains(above) && self.lines@.contains(smaller) && above
                        != smaller && match spec_classify(above, smaller) {
                        Some(m) => record_equiv(found, m),
                        None => false,
                    });
                }
                let res = self.add_intersection_event(found, smaller, above);
                if let Err(e) = res {
                    proof {
                        assert(spec_handle_intersection(m_in, opts, intersection, smaller, bigger)
                            == step1);
                    }
                    return Err(e);
                }
            }
        }
        proof {
            assert(spec_model(*self) == step1.0 && step1.1 is None);
        }
        let nb_bigger = self.sweep_line.get_neighbors(&bigger);
        let ghost step2 = match nb_bigger.smaller {
            None => step1,
            Some(bl) => spec_test_pair(step1.0, opts, bl, bigger, bl, bigger),
        };
        if let Some(below) = nb_bigger.smaller {
            proof {
                let k = choose|k: int|
                    0 <= k < self.sweep_line.lines@.len() && self.sweep_line.lines@[k] == below;
                lemma_member_ok(self.lines@, below);
                lemma_below_total(below, bigger, self.sweep_line.x);
            }
            let intersection_point = below.find_intersection(bigger);
            if let Some(found) = intersection_point {
                proof {
                    assert(self.lines@.contains(below) && self.lines@.contains(bigger) && below
                        != bigger && match spec_classify(below, bigger) {
                        Some(m) => record_equiv(found, m),
                        None => false,
                    });
                }
                let res = self.add_intersection_event(found, below, bigger);
                if let Err(e) = res {
                    proof {
                        assert(spec_handle_intersection(m_in, opts, intersection, smaller, bigger)
                            == step2);
                    }
                    return Err(e);
                }
            }
        }
        proof {
            assert(spec_model(*self) == step2.0 && step2.1 is None);
            assert(spec_handle_intersection(m_in, opts, intersection, smaller, bigger) == step2);
        }
        Ok(())
    }

    /// Drives the sweep to completion: the final state and the outcome are
    /// exactly those of `spec_run` from the starting model.  On success
    /// every reported record is additionally the classification of two
    /// distinct surviving input segments, and no two reported records are
    /// equal up to swapping their pair; in strict mode the first fatal
    /// contact is returned as an error, which then names a true contact of
    /// the input.
    pub fn run(&mut self) -> (r: Result<Vec<Intersection>, SweepError>)
        requires
            handler_wf(*old(self)),
        ensures
            handler_wf(*final(self)),
            final(self).lines@ == old(self).lines@,
            final(self).options == old(self).options,
            spec_model(*final(self)) == spec_run(
                spec_model(*old(self)),
                old(self).options,
                SWEEP_FUEL as nat,
            ).0,
            match r {
                Ok(v) => {
                    &&& spec_run(spec_model(*old(self)), old(self).options, SWEEP_FUEL as nat).1
                        is None
                    &&& v@ == spec_run(
                        spec_model(*old(self)),
                        old(self).options,
                        SWEEP_FUEL as nat,
                    ).0.results
                    &&& v@ == final(self).intersections@
                    &&& forall|i: int|
                        0 <= i < v@.len() ==> sound_record(#[trigger] v@[i], old(self).lines@)
                            && record_wf(v@[i])
                    &&& forall|i: int, j: int|
                        0 <= i < j < v@.len() ==> !record_equiv(
                            #[trigger] v@[i],
                            #[trigger] v@[j],
                        )
                },
                Err(e) => spec_run(spec_model(*old(self)), old(self).options, SWEEP_FUEL as nat).1
                    == Some(e) && err_sound(e, old(self).lines@, old(self).options),
            },
    {
        let ghost opts = old(self).options;
        // Every crossing pair is queued at most once, so a run can never
        // come near the step budget; the budget bounds the loop and the
        // mirror alike.
        let mut fuel: u64 = SWEEP_FUEL;
        while fuel > 0 && !self.queue.is_empty()
            invariant
                handler_wf(*self),
                self.lines@ == old(self).lines@,
                self.options == old(self).options,
                spec_run(spec_model(*self), opts, fuel as nat) == spec_run(
                    spec_model(*old(self)),
                    opts,
                    SWEEP_FUEL as nat,
                ),
                opts == old(self).options,
            decreases fuel,
        {
            let ghost m_pre = spec_model(*self);
            let ghost fuel_pre = fuel;
            fuel = fuel - 1;
            let ghost oldq = self.queue.events@;
            let event = self.queue.pop();
            proof {
                let bi = crate::events::spec_argmin(oldq, 1, 0);
                assert(event_ok(oldq[bi], self.lines@));
                assert forall|j: int| 0 <= j < self.queue.events@.len() implies event_ok(
                    #[trigger] self.queue.events@[j],
                    self.lines@,
                ) by {
                    if j < bi {
                        assert(self.queue.events@[j] == oldq[j]);
                    } else {
                        assert(self.queue.events@[j] == oldq[j + 1]);
                    }
                }
            }
            if let Some(event) = event {
                let ghost m0 = spec_model(*self);
                proof {
                    assert(m0 == SweepModel {
                        queue: m_pre.queue.remove(crate::events::spec_argmin(m_pre.queue, 1, 0)),
                        status: m_pre.status,
                        x: m_pre.x,
                        results: m_pre.results,
                    });
                    assert(event == m_pre.queue[crate::events::spec_argmin(m_pre.queue, 1, 0)]);
                }
                let res = match event {
                    Event::StartEvent { line } => self.handle_start_event(line),
                    Event::EndEvent { line } => self.handle_end_event(line),
                    Event::IntersectionEvent { intersection, smaller, bigger } => self
                        .handle_intersection_event(intersection, smaller, bigger),
                };
                if let Err(e) = res {
                    proof {
                        assert(spec_step(m_pre, opts) == (spec_model(*self), Some(e)));
                        assert(spec_run(m_pre, opts, fuel_pre as nat) == (
                            spec_model(*self),
                            Some(e),
                        ));
                    }
                    return Err(e);
                }
                proof {
                    assert(spec_step(m_pre, opts) == (spec_model(*self), None::<SweepError>));
                    assert(spec_run(spec_model(*self), opts, fuel as nat) == spec_run(
                        m_pre,
                        opts,
                        fuel_pre as nat,
                    ));
                }
            }
        }
        proof {
            assert(spec_run(spec_model(*self), opts, fuel as nat) == (
                spec_model(*self),
                None::<SweepError>,
            ));
        }
        Ok(copy_records(&self.intersections))
    }
}

/// An element-wise copy of a record list.
fn copy_records(v: &Vec<Intersection>) -> (out: Vec<Intersection>)
    ensures
        out@ == v@,
{
    let n = v.len();
    let mut out: Vec<Intersection> = Vec::new();
    let mut i: usize = 0;
    while i < n
        invariant
            n == v@.len(),
            i <= n,
            out@ == v@.take(i as int),
        decreases n - i,
    {
        out.push(v[i]);
        proof {
            assert(v@.take(i + 1 as int) =~= v@.take(i as int).push(v@[i as int]));
        }
        i = i + 1;
    }
    proof {
        assert(v@.take(n as int) =~= v@);
    }
    out
}

/// Runs the plane sweep over `lines` under `options`: sanitizes the input,
/// then reports the intersections among the surviving segments.  The
/// returned value is exactly `spec_sweep_outcome` of the input and the
/// policy; on success every record additionally classifies two distinct
/// surviving segments and no two records are equal up to swapping the
/// pair.
pub fn sweep_intersections(lines: &Vec<Line2D>, options: SweepLineOptions) -> (r: Result<
    Vec<Intersection>,
    SweepError,
>)
    requires
        forall|i: int| 0 <= i < lines@.len() ==> seg_in_range(#[trigger] lines@[i]),
    ensures
        match r {
            Ok(v) => {
                &&& spec_sweep_outcome(lines@, options) == Ok::<Seq<Intersection>, SweepError>(v@)
                &&& match spec_sanitize(lines@, options) {
                    Ok(f) => {
                        &&& forall|i: int|
                            0 <= i < v@.len() ==> sound_record(#[trigger] v@[i], f) && record_wf(
                                v@[i],
                            )
                        &&& forall|i: int, j: int|
                            0 <= i < j < v@.len() ==> !record_equiv(
                                #[trigger] v@[i],
                                #[trigger] v@[j],
                            )
                    },
                    Err(_) => false,
                }
            },
            Err(e) => {
                &&& spec_sweep_outcome(lines@, options) == Err::<Seq<Intersection>, SweepError>(e)
                &&& match spec_sanitize(lines@, options) {
                    Ok(f) => err_sound(e, f, options),
                    Err(e2) => e == e2,
                }
            },
        },
{
    let mut handler = match Handler::new(copy_lines(lines), options) {
        Ok(h) => h,
        Err(e) => {
            return Err(e);
        },
    };
    handler.run()
}

/// An element-wise copy of a segment list.
pub fn copy_lines(v: &Vec<Line2D>) -> (out: Vec<Line2D>)
    ensures
        out@ == v@,
{
    let n = v.len();
    let mut out: Vec<Line2D> = Vec::new();
    let mut i: usize = 0;
    while i < n
        invariant
            n == v@.len(),
            i <= n,
            out@ == v@.take(i as int),
        decreases n - i,
    {
        out.push(v[i]);
        proof {
            assert(v@.take(i + 1 as int) =~= v@.take(i as int).push(v@[i as int]));
        }
        i = i + 1;
    }
    proof {
        assert(v@.take(n as int) =~= v@);
    }
    out
}

} // verus!
