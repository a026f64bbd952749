use vstd::prelude::*;
use crate::frac::{lemma_rp_eq_lt_trans, lemma_rp_eq_trans, lemma_rp_lt_eq_trans,
    lemma_rp_lt_trans, rp_eq, rp_lt, rp_wf, RPoint};
use crate::line::{seg_in_range, Line2D};
use crate::intersection::{record_wf, spec_record_point, Intersection};

verus! {

/// The kind of a sweep event.
#[derive(Debug, Clone, Copy, PartialEq, Eq, Structural)]
pub enum EventType {
    Start,
    End,
    Intersection,
}

/// Tie-break rank of an event kind at equal event points: a segment becomes
/// active before anything can cross it, and it is removed only after every
/// contact at its right end has been handled.
pub open spec fn spec_kind_rank(k: EventType) -> int {
    match k {
        EventType::Start => 0,
        EventType::Intersection => 1,
        EventType::End => 2,
    }
}

/// A pending transition of the sweep line.
#[derive(Debug, Clone, Copy)]
pub enum Event {
    StartEvent { line: Line2D },
    EndEvent { line: Line2D },
    IntersectionEvent { intersection: Intersection, smaller: Line2D, bigger: Line2D },
}

/// The event's data is on the grid and rationally well-formed.
pub open spec fn event_wf(e: Event) -> bool {
    match e {
        Event::StartEvent { line } => seg_in_range(line),
        Event::EndEvent { line } => seg_in_range(line),
        Event::IntersectionEvent { intersection, smaller, bigger } => record_wf(intersection)
            && seg_in_range(smaller) && seg_in_range(bigger),
    }
}

/// The point at which the event fires: a segment's left end, a segment's
/// right end, or the intersection's characteristic point.
pub open spec fn spec_event_point(e: Event) -> RPoint {
    match e {
        Event::StartEvent { line } => RPoint {
            x: crate::frac::Frac { num: line.start.x as i128, den: 1 },
            y: crate::frac::Frac { num: line.start.y as i128, den: 1 },
        },
        Event::EndEvent { line } => RPoint {
            x: crate::frac::Frac { num: line.end.x as i128, den: 1 },
            y: crate::frac::Frac { num: line.end.y as i128, den: 1 },
        },
        Event::IntersectionEvent { intersection, .. } => spec_record_point(intersection),
    }
}

pub open spec fn spec_event_type(e: Event) -> EventType {
    match e {
        Event::StartEvent { .. } => EventType::Start,
        Event::EndEvent { .. } => EventType::End,
        Event::IntersectionEvent { .. } => EventType::Intersection,
    }
}

/// Event order: by event point (lexicographically by `x` then `y`), with
/// ties broken by kind, `Start < Intersection < End`.
pub open spec fn spec_event_le(a: Event, b: Event) -> bool {
    ||| rp_lt(spec_event_point(a), spec_event_point(b))
    ||| (rp_eq(spec_event_point(a), spec_event_point(b)) && spec_kind_rank(spec_event_type(a))
        <= spec_kind_rank(spec_event_type(b)))
}

/// The event order is total: two events are always comparable.
pub proof fn lemma_event_le_total(a: Event, b: Event)
    requires
        event_wf(a),
        event_wf(b),
    ensures
        spec_event_le(a, b) || spec_event_le(b, a),
{
}

/// The event order is transitive.
pub proof fn lemma_event_le_trans(a: Event, b: Event, c: Event)
    requires
        event_wf(a),
        event_wf(b),
        event_wf(c),
        spec_event_le(a, b),
        spec_event_le(b, c),
    ensures
        spec_event_le(a, c),
{
    let pa = spec_event_point(a);
    let pb = spec_event_point(b);
    let pc = spec_event_point(c);
    if rp_lt(pa, pb) && rp_lt(pb, pc) {
        lemma_rp_lt_trans(pa, pb, pc);
    } else if rp_lt(pa, pb) && rp_eq(pb, pc) {
        lemma_rp_lt_eq_trans(pa, pb, pc);
    } else if rp_eq(pa, pb) && rp_lt(pb, pc) {
        lemma_rp_eq_lt_trans(pa, pb, pc);
    } else {
        lemma_rp_eq_trans(pa, pb, pc);
    }
}

impl Event {
    /// The point at which the event fires.
    pub fn event_point(&self) -> (p: RPoint)
        requires
            event_wf(*self),
        ensures
            p == spec_event_point(*self),
            rp_wf(p),
    {
        match self {
            Event::StartEvent { line } => RPoint::from_point(&line.start),
            Event::EndEvent { line } => RPoint::from_point(&line.end),
            Event::IntersectionEvent { intersection, .. } => intersection.record_point(),
        }
    }

    /// The event's kind.
    pub fn event_type(&self) -> (k: EventType)
        ensures
            k == spec_event_type(*self),
    {
        match self {
            Event::StartEvent { .. } => EventType::Start,
            Event::EndEvent { .. } => EventType::End,
            Event::IntersectionEvent { .. } => EventType::Intersection,
        }
    }

    /// Whether this event fires no later than `other`.
    pub fn le_event(&self, other: &Event) -> (r: bool)
        requires
            event_wf(*self),
            event_wf(*other),
        ensures
            r == spec_event_le(*self, *other),
    {
        let pa = self.event_point();
        let pb = other.event_point();
        if pa.lt_rp(&pb) {
            true
        } else if pa.eq_rp(&pb) {
            let ra: u8 = match self.event_type() {
                EventType::Start => 0,
                EventType::Intersection => 1,
                EventType::End => 2,
            };
            let rb: u8 = match other.event_type() {
                EventType::Start => 0,
                EventType::Intersection => 1,
                EventType::End => 2,
            };
            ra <= rb
        } else {
            false
        }
    }
}

/// The initial queue contents: a start and an end event for each segment.
pub open spec fn spec_initial_events(lines: Seq<Line2D>) -> Seq<Event>
    decreases lines.len(),
{
    if lines.len() == 0 {
        Seq::empty()
    } else {
        spec_initial_events(lines.drop_last()).push(
            Event::StartEvent { line: lines.last() },
        ).push(Event::EndEvent { line: lines.last() })
    }
}

/// Some pending intersection event carries a record equal (up to swapping
/// the pair) to `r`.
pub open spec fn spec_queue_has_record(q: Seq<Event>, r: Intersection) -> bool {
    exists|i: int|
        0 <= i < q.len() && match #[trigger] q[i] {
            Event::IntersectionEvent { intersection, .. } => crate::intersection::record_equiv(
                intersection,
                r,
            ),
            _ => false,
        }
}

/// The index of an event that fires no later than any other, scanning from
/// `i` with current candidate `best`: the constructive mirror of the scan
/// in `pop` (on ties the later index wins).
pub open spec fn spec_argmin(q: Seq<Event>, i: int, best: int) -> int
    decreases q.len() - i,
{
    if i < 0 || i >= q.len() || !(0 <= best < q.len()) {
        best
    } else if spec_event_le(q[i], q[best]) {
        spec_argmin(q, i + 1, i)
    } else {
        spec_argmin(q, i + 1, best)
    }
}

/// The scanned index stays within the queue.
pub proof fn lemma_argmin_range(q: Seq<Event>, i: int, best: int)
    requires
        0 <= best < q.len(),
    ensures
        0 <= spec_argmin(q, i, best) < q.len(),
    decreases q.len() - i,
{
    if 0 <= i < q.len() {
        if spec_event_le(q[i], q[best]) {
            lemma_argmin_range(q, i + 1, i);
        } else {
            lemma_argmin_range(q, i + 1, best);
        }
    }
}

/// The X-structure: the pending events, served in event order.
pub struct EventQueue {
    pub events: Vec<Event>,
}

/// Every queued event is well-formed.
pub open spec fn queue_wf(q: EventQueue) -> bool {
    forall|i: int| 0 <= i < q.events@.len() ==> event_wf(#[trigger] q.events@[i])
}

impl EventQueue {
    /// A queue holding a start and an end event for every input segment.
    pub fn new(lines: &Vec<Line2D>) -> (q: EventQueue)
        requires
            forall|i: int| 0 <= i < lines@.len() ==> seg_in_range(#[trigger] lines@[i]),
        ensures
            q.events@ == spec_initial_events(lines@),
            queue_wf(q),
    {
        let mut events: Vec<Event> = Vec::new();
        let n = lines.len();
        let mut i: usize = 0;
        while i < n
            invariant
                n == lines@.len(),
                i <= n,
                events@ == spec_initial_events(lines@.take(i as int)),
                forall|k: int| 0 <= k < lines@.len() ==> seg_in_range(#[trigger] lines@[k]),
                forall|k: int| 0 <= k < events@.len() ==> event_wf(#[trigger] events@[k]),
            decreases n - i,
        {
            let line = lines[i];
            events.push(Event::StartEvent { line });
            events.push(Event::EndEvent { line });
            proof {
                assert(lines@.take(i + 1 as int).drop_last() =~= lines@.take(i as int));
                assert(lines@.take(i + 1 as int).last() == lines@[i as int]);
            }
            i = i + 1;
        }
        proof {
            assert(lines@.take(n as int) =~= lines@);
        }
        EventQueue { events }
    }

    /// Appends an event.
    pub fn add(&mut self, event: Event)
        requires
            event_wf(event),
            queue_wf(*old(self)),
        ensures
            final(self).events@ == old(self).events@.push(event),
            queue_wf(*final(self)),
    {
        self.events.push(event);
    }

    /// Removes and returns an event that fires no later than every other
    /// pending event; `None` on an empty queue.
    pub fn pop(&mut self) -> (r: Option<Event>)
        requires
            queue_wf(*old(self)),
        ensures
            queue_wf(*final(self)),
            match r {
                None => old(self).events@.len() == 0 && *final(self) == *old(self),
                Some(e) => {
                    &&& ({
                        let bi = spec_argmin(old(self).events@, 1, 0);
                        &&& 0 <= bi < old(self).events@.len()
                        &&& e == old(self).events@[bi]
                        &&& final(self).events@ == old(self).events@.remove(bi)
                    })
                    &&& forall|j: int|
                        0 <= j < old(self).events@.len() ==> spec_event_le(
                            e,
                            #[trigger] old(self).events@[j],
                        )
                    &&& event_wf(e)
                },
            },
    {
        if self.events.len() == 0 {
            return None;
        }
        let ghost orig = self.events@;
        let mut best: usize = 0;
        let mut i: usize = 1;
        while i < self.events.len()
            invariant
                self.events@ == orig,
                queue_wf(*self),
                best < i,
                i <= orig.len(),
                1 <= i,
                spec_argmin(orig, i as int, best as int) == spec_argmin(orig, 1, 0),
                forall|j: int| 0 <= j < i ==> spec_event_le(orig[best as int], #[trigger] orig[j]),
            decreases orig.len() - i,
        {
            let cand = self.events[i];
            if cand.le_event(&self.events[best]) {
                proof {
                    assert forall|j: int| 0 <= j < i + 1 implies spec_event_le(
                        orig[i as int],
                        #[trigger] orig[j],
                    ) by {
                        if j < i {
                            lemma_event_le_trans(orig[i as int], orig[best as int], orig[j]);
                        }
                    }
                }
                best = i;
            } else {
                proof {
                    lemma_event_le_total(orig[i as int], orig[best as int]);
                }
            }
            i = i + 1;
        }
        let e = self.events.remove(best);
        Some(e)
    }

    /// Whether some pending event carries a record equal (up to swapping the
    /// pair) to `record`.
    pub fn contains_record(&self, record: &Intersection) -> (r: bool)
        requires
            queue_wf(*self),
            record_wf(*record),
        ensures
            r == spec_queue_has_record(self.events@, *record),
    {
        let n = self.events.len();
        let mut i: usize = 0;
        while i < n
            invariant
                n == self.events@.len(),
                i <= n,
                queue_wf(*self),
                record_wf(*record),
                forall|j: int|
                    0 <= j < i ==> !match #[trigger] self.events@[j] {
                        Event::IntersectionEvent { intersection, .. } => crate::intersection::record_equiv(
                            intersection,
                            *record,
                        ),
                        _ => false,
                    },
            decreases n - i,
        {
            match &self.events[i] {
                Event::IntersectionEvent { intersection, .. } => {
                    if intersection.same_intersection(record) {
                        return true;
                    }
                },
                _ => {},
            }
            i = i + 1;
        }
        false
    }

    /// Whether no event is pending.
    pub fn is_empty(&self) -> (r: bool)
        ensures
            r == (self.events@.len() == 0),
    {
        self.events.len() == 0
    }

    /// The number of pending events.
    pub fn len(&self) -> (n: usize)
        ensures
            n == self.events@.len(),
    {
        self.events.len()
    }
}

} // verus!
