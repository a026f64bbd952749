use vstd::prelude::*;
use crate::geom::lemma_mul_bound;
use crate::frac::{frac_wf, lemma_frac_eq_lt_trans, lemma_frac_eq_trans, lemma_frac_lt_eq_trans,
    lemma_frac_lt_trans, Frac};
use crate::line::{seg_ok, spec_seg_lt, Line2D};

verus! {

/// Numerator of the ordinate of the supporting line of `s` at the rational
/// abscissa `x`, over the denominator `(s.end.x - s.start.x) * x.den`.
pub open spec fn spec_line_y_num(s: Line2D, x: Frac) -> int {
    s.start.y * (s.end.x - s.start.x) * x.den + (x.num - s.start.x * x.den) * (s.end.y
        - s.start.y)
}

/// The status order at sweep abscissa `x`: first by the ordinate of the
/// supporting line at `x`, then by slope (so that, at a crossing point, the
/// order already reflects the state just right of the crossing), and last by
/// the deterministic segment tie-break.  A strict total order on distinct
/// non-vertical segments.
pub open spec fn spec_below(a: Line2D, b: Line2D, x: Frac) -> bool {
    let ya = spec_line_y_num(a, x) * (b.end.x - b.start.x);
    let yb = spec_line_y_num(b, x) * (a.end.x - a.start.x);
    if ya != yb {
        ya < yb
    } else {
        let sa = (a.end.y - a.start.y) * (b.end.x - b.start.x);
        let sb = (b.end.y - b.start.y) * (a.end.x - a.start.x);
        if sa != sb {
            sa < sb
        } else {
            spec_seg_lt(a, b)
        }
    }
}

/// The status order is irreflexive and total on distinct segments.
pub proof fn lemma_below_total(a: Line2D, b: Line2D, x: Frac)
    requires
        seg_ok(a),
        seg_ok(b),
        frac_wf(x),
    ensures
        !spec_below(a, a, x),
        a == b || spec_below(a, b, x) || spec_below(b, a, x),
{
}

/// The status order is transitive.
pub proof fn lemma_below_trans(a: Line2D, b: Line2D, c: Line2D, x: Frac)
    requires
        seg_ok(a),
        seg_ok(b),
        seg_ok(c),
        frac_wf(x),
        spec_below(a, b, x),
        spec_below(b, c, x),
    ensures
        spec_below(a, c, x),
{
    let na = spec_line_y_num(a, x);
    let nb = spec_line_y_num(b, x);
    let nc = spec_line_y_num(c, x);
    let da = a.end.x - a.start.x;
    let db = b.end.x - b.start.x;
    let dc = c.end.x - c.start.x;
    let sa = a.end.y - a.start.y;
    let sb = b.end.y - b.start.y;
    let sc = c.end.y - c.start.y;
    if na * db < nb * da {
        if nb * dc < nc * db {
            lemma_frac_lt_trans(na, da, nb, db, nc, dc);
        } else {
            lemma_frac_lt_eq_trans(na, da, nb, db, nc, dc);
        }
    } else {
        if nb * dc < nc * db {
            lemma_frac_eq_lt_trans(na, da, nb, db, nc, dc);
        } else {
            lemma_frac_eq_trans(na, da, nb, db, nc, dc);
            if sa * db < sb * da {
                if sb * dc < sc * db {
                    lemma_frac_lt_trans(sa, da, sb, db, sc, dc);
                } else {
                    lemma_frac_lt_eq_trans(sa, da, sb, db, sc, dc);
                }
            } else {
                if sb * dc < sc * db {
                    lemma_frac_eq_lt_trans(sa, da, sb, db, sc, dc);
                } else {
                    lemma_frac_eq_trans(sa, da, sb, db, sc, dc);
                }
            }
        }
    }
}

/// The nearest element strictly below `line` among `s[i..]`, improving on
/// `best`: the constructive mirror of the scan in `get_neighbors`.
pub open spec fn spec_scan_lower(
    s: Seq<Line2D>,
    line: Line2D,
    x: Frac,
    i: int,
    best: Option<Line2D>,
) -> Option<Line2D>
    decreases s.len() - i,
{
    if i < 0 || i >= s.len() {
        best
    } else {
        let t = s[i];
        if spec_below(t, line, x) {
            match best {
                None => spec_scan_lower(s, line, x, i + 1, Some(t)),
                Some(b) => if spec_below(b, t, x) {
                    spec_scan_lower(s, line, x, i + 1, Some(t))
                } else {
                    spec_scan_lower(s, line, x, i + 1, best)
                },
            }
        } else {
            spec_scan_lower(s, line, x, i + 1, best)
        }
    }
}

/// The nearest element strictly above `line` among `s[i..]`, improving on
/// `best`.
pub open spec fn spec_scan_upper(
    s: Seq<Line2D>,
    line: Line2D,
    x: Frac,
    i: int,
    best: Option<Line2D>,
) -> Option<Line2D>
    decreases s.len() - i,
{
    if i < 0 || i >= s.len() {
        best
    } else {
        let t = s[i];
        if !spec_below(t, line, x) && spec_below(line, t, x) {
            match best {
                None => spec_scan_upper(s, line, x, i + 1, Some(t)),
                Some(b) => if spec_below(t, b, x) {
                    spec_scan_upper(s, line, x, i + 1, Some(t))
                } else {
                    spec_scan_upper(s, line, x, i + 1, best)
                },
            }
        } else {
            spec_scan_upper(s, line, x, i + 1, best)
        }
    }
}

/// The sequence with the first occurrence of `v` removed (unchanged when
/// `v` is absent).
pub open spec fn spec_remove_first(s: Seq<Line2D>, v: Line2D) -> Seq<Line2D>
    decreases s.len(),
{
    if s.len() == 0 {
        s
    } else if s.first() == v {
        s.drop_first()
    } else {
        seq![s.first()] + spec_remove_first(s.drop_first(), v)
    }
}

/// Removing the first occurrence takes out exactly the earliest matching
/// index.
proof fn lemma_remove_first_at(s: Seq<Line2D>, v: Line2D, i: int)
    requires
        0 <= i < s.len(),
        s[i] == v,
        forall|j: int| 0 <= j < i ==> s[j] != v,
    ensures
        spec_remove_first(s, v) == s.remove(i),
    decreases i,
{
    if i == 0 {
        assert(s.first() == v);
        assert(spec_remove_first(s, v) =~= s.remove(0));
    } else {
        assert(s.first() != v);
        assert forall|j: int| 0 <= j < i - 1 implies s.drop_first()[j] != v by {
            assert(s.drop_first()[j] == s[j + 1]);
        }
        assert(s.drop_first()[i - 1] == v);
        lemma_remove_first_at(s.drop_first(), v, i - 1);
        assert(spec_remove_first(s, v) =~= s.remove(i));
    }
}

/// Removing an absent value changes nothing.
proof fn lemma_remove_first_absent(s: Seq<Line2D>, v: Line2D)
    requires
        forall|j: int| 0 <= j < s.len() ==> s[j] != v,
    ensures
        spec_remove_first(s, v) == s,
    decreases s.len(),
{
    if s.len() > 0 {
        assert forall|j: int| 0 <= j < s.drop_first().len() implies s.drop_first()[j] != v by {
            assert(s.drop_first()[j] == s[j + 1]);
        }
        lemma_remove_first_absent(s.drop_first(), v);
        assert(spec_remove_first(s, v) =~= s);
    }
}

/// Decides `spec_below(a, b, x)` exactly.
pub fn order_below(a: &Line2D, b: &Line2D, x: &Frac) -> (r: bool)
    requires
        seg_ok(*a),
        seg_ok(*b),
        frac_wf(*x),
    ensures
        r == spec_below(*a, *b, *x),
{
    let dxa = a.end.x as i128 - a.start.x as i128;
    let dya = a.end.y as i128 - a.start.y as i128;
    let dxb = b.end.x as i128 - b.start.x as i128;
    let dyb = b.end.y as i128 - b.start.y as i128;
    proof {
        lemma_mul_bound(a.start.y as int, dxa as int, 1_000_000, 2_000_000);
        lemma_mul_bound(
            (a.start.y * (a.end.x - a.start.x)) as int,
            x.den as int,
            2_000_000_000_000,
            8_000_000_000_000,
        );
        lemma_mul_bound(a.start.x as int, x.den as int, 1_000_000, 8_000_000_000_000);
        lemma_mul_bound(
            (x.num - a.start.x * x.den) as int,
            dya as int,
            32_000_000_000_000_000_000,
            2_000_000,
        );
        lemma_mul_bound(b.start.y as int, dxb as int, 1_000_000, 2_000_000);
        lemma_mul_bound(
            (b.start.y * (b.end.x - b.start.x)) as int,
            x.den as int,
            2_000_000_000_000,
            8_000_000_000_000,
        );
        lemma_mul_bound(b.start.x as int, x.den as int, 1_000_000, 8_000_000_000_000);
        lemma_mul_bound(
            (x.num - b.start.x * x.den) as int,
            dyb as int,
            32_000_000_000_000_000_000,
            2_000_000,
        );
    }
    let na = a.start.y as i128 * dxa * x.den + (x.num - a.start.x as i128 * x.den) * dya;
    let nb = b.start.y as i128 * dxb * x.den + (x.num - b.start.x as i128 * x.den) * dyb;
    proof {
        lemma_mul_bound(na as int, dxb as int, 80_000_000_000_000_000_000_000_000, 2_000_000);
        lemma_mul_bound(nb as int, dxa as int, 80_000_000_000_000_000_000_000_000, 2_000_000);
        lemma_mul_bound(dya as int, dxb as int, 2_000_000, 2_000_000);
        lemma_mul_bound(dyb as int, dxa as int, 2_000_000, 2_000_000);
    }
    let ya = na * dxb;
    let yb = nb * dxa;
    if ya != yb {
        ya < yb
    } else {
        let sa = dya * dxb;
        let sb = dyb * dxa;
        if sa != sb {
            sa < sb
        } else {
            a.lt_seg(b)
        }
    }
}

/// The two order-adjacent segments of a query segment in the status
/// structure: the one directly below and the one directly above.
#[derive(Debug, Clone, Copy)]
pub struct Neighbors {
    pub bigger: Option<Line2D>,
    pub smaller: Option<Line2D>,
}

/// The Y-structure: the segments currently crossed by the sweep line,
/// ordered by their ordinate at the current sweep abscissa `x`.
pub struct SweepLine {
    pub lines: Vec<Line2D>,
    pub x: Frac,
}

/// Every active segment is sweepable and the abscissa is well-formed.
pub open spec fn sweep_line_wf(sl: SweepLine) -> bool {
    &&& frac_wf(sl.x)
    &&& forall|i: int| 0 <= i < sl.lines@.len() ==> seg_ok(#[trigger] sl.lines@[i])
}

impl SweepLine {
    /// An empty status structure at abscissa zero.
    pub fn new() -> (sl: SweepLine)
        ensures
            sl.lines@.len() == 0,
            sl.x == (Frac { num: 0, den: 1 }),
            sweep_line_wf(sl),
    {
        SweepLine { lines: Vec::new(), x: Frac::from_int(0) }
    }

    /// Moves the sweep abscissa.
    pub fn set_x(&mut self, x: Frac)
        requires
            frac_wf(x),
            sweep_line_wf(*old(self)),
        ensures
            final(self).lines@ == old(self).lines@,
            final(self).x == x,
            sweep_line_wf(*final(self)),
    {
        self.x = x;
    }

    /// Activates a segment.
    pub fn add(&mut self, line: Line2D)
        requires
            seg_ok(line),
            sweep_line_wf(*old(self)),
        ensures
            final(self).lines@ == old(self).lines@.push(line),
            final(self).x == old(self).x,
            sweep_line_wf(*final(self)),
    {
        self.lines.push(line);
    }

    /// Deactivates a segment; returns whether it was present.
    pub fn remove(&mut self, line: &Line2D) -> (r: bool)
        requires
            sweep_line_wf(*old(self)),
        ensures
            sweep_line_wf(*final(self)),
            final(self).x == old(self).x,
            r == old(self).lines@.contains(*line),
            final(self).lines@ == spec_remove_first(old(self).lines@, *line),
            r ==> exists|i: int|
                0 <= i < old(self).lines@.len() && old(self).lines@[i] == *line
                    && final(self).lines@ == old(self).lines@.remove(i),
            !r ==> final(self).lines@ == old(self).lines@,
    {
        let n = self.lines.len();
        let mut i: usize = 0;
        while i < n
            invariant
                self.lines@ == old(self).lines@,
                self.x == old(self).x,
                sweep_line_wf(*self),
                n == self.lines@.len(),
                i <= n,
                forall|j: int| 0 <= j < i ==> self.lines@[j] != *line,
            decreases n - i,
        {
            if self.lines[i].start.x == line.start.x && self.lines[i].start.y == line.start.y
                && self.lines[i].end.x == line.end.x && self.lines[i].end.y == line.end.y {
                proof {
                    assert(self.lines@[i as int] == *line);
                    lemma_remove_first_at(self.lines@, *line, i as int);
                }
                let ghost before = self.lines@;
                self.lines.remove(i);
                proof {
                    assert(self.lines@ == before.remove(i as int));
                    assert forall|j: int| 0 <= j < self.lines@.len() implies seg_ok(
                        #[trigger] self.lines@[j],
                    ) by {
                        if j < i {
                            assert(self.lines@[j] == before[j]);
                        } else {
                            assert(self.lines@[j] == before[j + 1]);
                        }
                    }
                    assert(before.contains(*line)) by {
                        assert(before[i as int] == *line);
                    }
                }
                return true;
            }
            i = i + 1;
        }
        proof {
            if old(self).lines@.contains(*line) {
                let k = choose|k: int|
                    0 <= k < old(self).lines@.len() && old(self).lines@[k] == *line;
                assert(false);
            }
            lemma_remove_first_absent(self.lines@, *line);
        }
        false
    }

    /// Whether the segment is active.
    pub fn contains(&self, line: &Line2D) -> (r: bool)
        ensures
            r == self.lines@.contains(*line),
    {
        let n = self.lines.len();
        let mut i: usize = 0;
        while i < n
            invariant
                n == self.lines@.len(),
                i <= n,
                forall|j: int| 0 <= j < i ==> self.lines@[j] != *line,
            decreases n - i,
        {
            if self.lines[i].start.x == line.start.x && self.lines[i].start.y == line.start.y
                && self.lines[i].end.x == line.end.x && self.lines[i].end.y == line.end.y {
                proof {
                    assert(self.lines@[i as int] == *line);
                }
                return true;
            }
            i = i + 1;
        }
        proof {
            if self.lines@.contains(*line) {
                let k = choose|k: int| 0 <= k < self.lines@.len() && self.lines@[k] == *line;
                assert(false);
            }
        }
        false
    }

    /// The nearest active segment strictly below `line` and the nearest one
    /// strictly above it, in the status order at the current abscissa.
    pub fn get_neighbors(&self, line: &Line2D) -> (nb: Neighbors)
        requires
            sweep_line_wf(*self),
            seg_ok(*line),
        ensures
            nb.smaller == spec_scan_lower(self.lines@, *line, self.x, 0, None),
            nb.bigger == spec_scan_upper(self.lines@, *line, self.x, 0, None),
            match nb.smaller {
                None => forall|i: int|
                    0 <= i < self.lines@.len() ==> !spec_below(
                        #[trigger] self.lines@[i],
                        *line,
                        self.x,
                    ),
                Some(s) => {
                    &&& self.lines@.contains(s)
                    &&& spec_below(s, *line, self.x)
                    &&& forall|i: int|
                        0 <= i < self.lines@.len() && spec_below(
                            #[trigger] self.lines@[i],
                            *line,
                            self.x,
                        ) ==> (self.lines@[i] == s || spec_below(self.lines@[i], s, self.x))
                },
            },
            match nb.bigger {
                None => forall|i: int|
                    0 <= i < self.lines@.len() ==> !spec_below(
                        *line,
                        #[trigger] self.lines@[i],
                        self.x,
                    ),
                Some(s) => {
                    &&& self.lines@.contains(s)
                    &&& spec_below(*line, s, self.x)
                    &&& forall|i: int|
                        0 <= i < self.lines@.len() && spec_below(
                            *line,
                            #[trigger] self.lines@[i],
                            self.x,
                        ) ==> (self.lines@[i] == s || spec_below(s, self.lines@[i], self.x))
                },
            },
    {
        let n = self.lines.len();
        let mut smaller: Option<Line2D> = None;
        let mut bigger: Option<Line2D> = None;
        let mut i: usize = 0;
        while i < n
            invariant
                n == self.lines@.len(),
                i <= n,
                sweep_line_wf(*self),
                seg_ok(*line),
                spec_scan_lower(self.lines@, *line, self.x, i as int, smaller) == spec_scan_lower(
                    self.lines@,
                    *line,
                    self.x,
                    0,
                    None,
                ),
                spec_scan_upper(self.lines@, *line, self.x, i as int, bigger) == spec_scan_upper(
                    self.lines@,
                    *line,
                    self.x,
                    0,
                    None,
                ),
                match smaller {
                    None => forall|j: int|
                        0 <= j < i ==> !spec_below(#[trigger] self.lines@[j], *line, self.x),
                    Some(s) => {
                        &&& self.lines@.contains(s)
                        &&& seg_ok(s)
                        &&& spec_below(s, *line, self.x)
                        &&& forall|j: int|
                            0 <= j < i && spec_below(#[trigger] self.lines@[j], *line, self.x)
                                ==> (self.lines@[j] == s || spec_below(
                                self.lines@[j],
                                s,
                                self.x,
                            ))
                    },
                },
                match bigger {
                    None => forall|j: int|
                        0 <= j < i ==> !spec_below(*line, #[trigger] self.lines@[j], self.x),
                    Some(s) => {
                        &&& self.lines@.contains(s)
                        &&& seg_ok(s)
                        &&& spec_below(*line, s, self.x)
                        &&& forall|j: int|
                            0 <= j < i && spec_below(*line, #[trigger] self.lines@[j], self.x)
                                ==> (self.lines@[j] == s || spec_below(
                                s,
                                self.lines@[j],
                                self.x,
                            ))
                    },
                },
            decreases n - i,
        {
            let t = self.lines[i];
            if order_below(&t, line, &self.x) {
                match smaller {
                    None => { smaller = Some(t); },
                    Some(s) => {
                        if order_below(&s, &t, &self.x) {
                            proof {
                                assert forall|j: int|
                                    0 <= j < i + 1 && spec_below(
                                        #[trigger] self.lines@[j],
                                        *line,
                                        self.x,
                                    ) implies (self.lines@[j] == t || spec_below(
                                    self.lines@[j],
                                    t,
                                    self.x,
                                )) by {
                                    if j < i && self.lines@[j] != t {
                                        if self.lines@[j] == s {
                                        } else if spec_below(self.lines@[j], s, self.x) {
                                            lemma_below_trans(self.lines@[j], s, t, self.x);
                                        }
                                    }
                                }
                            }
                            smaller = Some(t);
                        } else {
                            proof {
                                lemma_below_total(s, t, self.x);
                            }
                        }
                    },
                }
            } else {
                if order_below(line, &t, &self.x) {
                    match bigger {
                        None => { bigger = Some(t); },
                        Some(s) => {
                            if order_below(&t, &s, &self.x) {
                                proof {
                                    assert forall|j: int|
                                        0 <= j < i + 1 && spec_below(
                                            *line,
                                            #[trigger] self.lines@[j],
                                            self.x,
                                        ) implies (self.lines@[j] == t || spec_below(
                                        t,
                                        self.lines@[j],
                                        self.x,
                                    )) by {
                                        if j < i && self.lines@[j] != t {
                                            if self.lines@[j] == s {
                                            } else if spec_below(s, self.lines@[j], self.x) {
                                                lemma_below_trans(t, s, self.lines@[j], self.x);
                                            }
                                        }
                                    }
                                }
                                bigger = Some(t);
                            } else {
                                proof {
                                    lemma_below_total(t, s, self.x);
                                }
                            }
                        },
                    }
                }
            }
            i = i + 1;
        }
        Neighbors { smaller, bigger }
    }

    /// How many segments are active.
    pub fn len(&self) -> (n: usize)
        ensures
            n == self.lines@.len(),
    {
        self.lines.len()
    }
}

} // verus!
