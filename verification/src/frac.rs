use vstd::prelude::*;
use crate::geom::{lemma_mul_bound, Point2D};

verus! {

/// Bound on the numerator of any rational produced by the engine.
/// Intersection abscissas have the form `x1*D + t*(x2-x1)` with
/// `|D| <= 8*MAX_COORD^2`, so their magnitude stays below `24*MAX_COORD^3`.
pub const FRAC_NUM_MAX: i128 = 24_000_000_000_000_000_000;

/// Bound on the (positive) denominator of any rational produced by the
/// engine: `8*MAX_COORD^2`.
pub const FRAC_DEN_MAX: i128 = 8_000_000_000_000;

/// An exact rational with positive denominator.  Fractions are not reduced;
/// equality and order are decided by cross multiplication.
#[derive(Clone, Copy, Debug)]
pub struct Frac {
    pub num: i128,
    pub den: i128,
}

/// The fraction's parts are inside the bounds that keep every cross
/// multiplication inside `i128`.
pub open spec fn frac_wf(f: Frac) -> bool {
    &&& 0 < f.den <= FRAC_DEN_MAX
    &&& -FRAC_NUM_MAX <= f.num <= FRAC_NUM_MAX
}

/// `a == b` as rational numbers (valid whenever both denominators are positive).
pub open spec fn frac_eq(a: Frac, b: Frac) -> bool {
    a.num * b.den == b.num * a.den
}

/// `a < b` as rational numbers.
pub open spec fn frac_lt(a: Frac, b: Frac) -> bool {
    a.num * b.den < b.num * a.den
}

/// `a <= b` as rational numbers.
pub open spec fn frac_le(a: Frac, b: Frac) -> bool {
    a.num * b.den <= b.num * a.den
}

/// Cross multiplications of well-formed fractions stay inside `i128`.
proof fn lemma_cross_in_bounds(a: Frac, b: Frac)
    requires
        frac_wf(a),
        frac_wf(b),
    ensures
        -(FRAC_NUM_MAX * FRAC_DEN_MAX) <= a.num * b.den <= FRAC_NUM_MAX * FRAC_DEN_MAX,
        -(FRAC_NUM_MAX * FRAC_DEN_MAX) <= b.num * a.den <= FRAC_NUM_MAX * FRAC_DEN_MAX,
{
    lemma_mul_bound(a.num as int, b.den as int, FRAC_NUM_MAX as int, FRAC_DEN_MAX as int);
    lemma_mul_bound(b.num as int, a.den as int, FRAC_NUM_MAX as int, FRAC_DEN_MAX as int);
}

/// Transitivity of the strict rational order, for positive denominators.
pub proof fn lemma_frac_lt_trans(n1: int, d1: int, n2: int, d2: int, n3: int, d3: int)
    requires
        0 < d1,
        0 < d2,
        0 < d3,
        n1 * d2 < n2 * d1,
        n2 * d3 < n3 * d2,
    ensures
        n1 * d3 < n3 * d1,
{
    assert(n1 * d3 < n3 * d1) by (nonlinear_arith)
        requires
            0 < d1,
            0 < d2,
            0 < d3,
            n1 * d2 < n2 * d1,
            n2 * d3 < n3 * d2,
    ;
}

/// Transitivity across an equality on the left.
pub proof fn lemma_frac_eq_lt_trans(n1: int, d1: int, n2: int, d2: int, n3: int, d3: int)
    requires
        0 < d1,
        0 < d2,
        0 < d3,
        n1 * d2 == n2 * d1,
        n2 * d3 < n3 * d2,
    ensures
        n1 * d3 < n3 * d1,
{
    assert(n1 * d3 < n3 * d1) by (nonlinear_arith)
        requires
            0 < d1,
            0 < d2,
            0 < d3,
            n1 * d2 == n2 * d1,
            n2 * d3 < n3 * d2,
    ;
}

/// Transitivity across an equality on the right.
pub proof fn lemma_frac_lt_eq_trans(n1: int, d1: int, n2: int, d2: int, n3: int, d3: int)
    requires
        0 < d1,
        0 < d2,
        0 < d3,
        n1 * d2 < n2 * d1,
        n2 * d3 == n3 * d2,
    ensures
        n1 * d3 < n3 * d1,
{
    assert(n1 * d3 < n3 * d1) by (nonlinear_arith)
        requires
            0 < d1,
            0 < d2,
            0 < d3,
            n1 * d2 < n2 * d1,
            n2 * d3 == n3 * d2,
    ;
}

/// Transitivity of rational equality, for positive denominators.
pub proof fn lemma_frac_eq_trans(n1: int, d1: int, n2: int, d2: int, n3: int, d3: int)
    requires
        0 < d1,
        0 < d2,
        0 < d3,
        n1 * d2 == n2 * d1,
        n2 * d3 == n3 * d2,
    ensures
        n1 * d3 == n3 * d1,
{
    assert(n1 * d3 == n3 * d1) by (nonlinear_arith)
        requires
            0 < d1,
            0 < d2,
            0 < d3,
            n1 * d2 == n2 * d1,
            n2 * d3 == n3 * d2,
    ;
}

impl Frac {
    /// The integer `n` as a fraction.
    pub fn from_int(n: i64) -> (f: Frac)
        ensures
            f.num == n,
            f.den == 1,
            frac_wf(f),
    {
        Frac { num: n as i128, den: 1 }
    }

    /// Builds `num / den`; the denominator must be positive.
    pub fn new(num: i128, den: i128) -> (f: Frac)
        requires
            0 < den <= FRAC_DEN_MAX,
            -FRAC_NUM_MAX <= num <= FRAC_NUM_MAX,
        ensures
            f.num == num,
            f.den == den,
            frac_wf(f),
    {
        Frac { num, den }
    }

    /// Exact equality of the two rationals.
    pub fn eq_frac(&self, other: &Frac) -> (r: bool)
        requires
            frac_wf(*self),
            frac_wf(*other),
        ensures
            r == frac_eq(*self, *other),
    {
        proof { lemma_cross_in_bounds(*self, *other); }
        self.num * other.den == other.num * self.den
    }

    /// Exact strict order of the two rationals.
    pub fn lt_frac(&self, other: &Frac) -> (r: bool)
        requires
            frac_wf(*self),
            frac_wf(*other),
        ensures
            r == frac_lt(*self, *other),
    {
        proof { lemma_cross_in_bounds(*self, *other); }
        self.num * other.den < other.num * self.den
    }

    /// Exact non-strict order of the two rationals.
    pub fn le_frac(&self, other: &Frac) -> (r: bool)
        requires
            frac_wf(*self),
            frac_wf(*other),
        ensures
            r == frac_le(*self, *other),
    {
        proof { lemma_cross_in_bounds(*self, *other); }
        self.num * other.den <= other.num * self.den
    }
}

/// Strict lexicographic order on rational points is transitive.
pub proof fn lemma_rp_lt_trans(a: RPoint, b: RPoint, c: RPoint)
    requires
        rp_wf(a),
        rp_wf(b),
        rp_wf(c),
        rp_lt(a, b),
        rp_lt(b, c),
    ensures
        rp_lt(a, c),
{
    if frac_lt(a.x, b.x) && frac_lt(b.x, c.x) {
        lemma_frac_lt_trans(a.x.num as int, a.x.den as int, b.x.num as int, b.x.den as int,
            c.x.num as int, c.x.den as int);
    } else if frac_lt(a.x, b.x) && frac_eq(b.x, c.x) {
        lemma_frac_lt_eq_trans(a.x.num as int, a.x.den as int, b.x.num as int, b.x.den as int,
            c.x.num as int, c.x.den as int);
    } else if frac_eq(a.x, b.x) && frac_lt(b.x, c.x) {
        lemma_frac_eq_lt_trans(a.x.num as int, a.x.den as int, b.x.num as int, b.x.den as int,
            c.x.num as int, c.x.den as int);
    } else {
        lemma_frac_eq_trans(a.x.num as int, a.x.den as int, b.x.num as int, b.x.den as int,
            c.x.num as int, c.x.den as int);
        lemma_frac_lt_trans(a.y.num as int, a.y.den as int, b.y.num as int, b.y.den as int,
            c.y.num as int, c.y.den as int);
    }
}

/// Coincidence of rational points is transitive.
pub proof fn lemma_rp_eq_trans(a: RPoint, b: RPoint, c: RPoint)
    requires
        rp_wf(a),
        rp_wf(b),
        rp_wf(c),
        rp_eq(a, b),
        rp_eq(b, c),
    ensures
        rp_eq(a, c),
{
    lemma_frac_eq_trans(a.x.num as int, a.x.den as int, b.x.num as int, b.x.den as int,
        c.x.num as int, c.x.den as int);
    lemma_frac_eq_trans(a.y.num as int, a.y.den as int, b.y.num as int, b.y.den as int,
        c.y.num as int, c.y.den as int);
}

/// A strict step followed by a coincidence stays strict.
pub proof fn lemma_rp_lt_eq_trans(a: RPoint, b: RPoint, c: RPoint)
    requires
        rp_wf(a),
        rp_wf(b),
        rp_wf(c),
        rp_lt(a, b),
        rp_eq(b, c),
    ensures
        rp_lt(a, c),
{
    if frac_lt(a.x, b.x) {
        lemma_frac_lt_eq_trans(a.x.num as int, a.x.den as int, b.x.num as int, b.x.den as int,
            c.x.num as int, c.x.den as int);
    } else {
        lemma_frac_eq_trans(a.x.num as int, a.x.den as int, b.x.num as int, b.x.den as int,
            c.x.num as int, c.x.den as int);
        lemma_frac_lt_eq_trans(a.y.num as int, a.y.den as int, b.y.num as int, b.y.den as int,
            c.y.num as int, c.y.den as int);
    }
}

/// A coincidence followed by a strict step stays strict.
pub proof fn lemma_rp_eq_lt_trans(a: RPoint, b: RPoint, c: RPoint)
    requires
        rp_wf(a),
        rp_wf(b),
        rp_wf(c),
        rp_eq(a, b),
        rp_lt(b, c),
    ensures
        rp_lt(a, c),
{
    if frac_lt(b.x, c.x) {
        lemma_frac_eq_lt_trans(a.x.num as int, a.x.den as int, b.x.num as int, b.x.den as int,
            c.x.num as int, c.x.den as int);
    } else {
        lemma_frac_eq_trans(a.x.num as int, a.x.den as int, b.x.num as int, b.x.den as int,
            c.x.num as int, c.x.den as int);
        lemma_frac_eq_lt_trans(a.y.num as int, a.y.den as int, b.y.num as int, b.y.den as int,
            c.y.num as int, c.y.den as int);
    }
}

/// An exact rational point: the location of an intersection.
#[derive(Clone, Copy, Debug)]
pub struct RPoint {
    pub x: Frac,
    pub y: Frac,
}

pub open spec fn rp_wf(p: RPoint) -> bool {
    frac_wf(p.x) && frac_wf(p.y)
}

/// The two rational points coincide.
pub open spec fn rp_eq(a: RPoint, b: RPoint) -> bool {
    frac_eq(a.x, b.x) && frac_eq(a.y, b.y)
}

/// Lexicographic order on rational points: first by `x`, then by `y`.
pub open spec fn rp_lt(a: RPoint, b: RPoint) -> bool {
    frac_lt(a.x, b.x) || (frac_eq(a.x, b.x) && frac_lt(a.y, b.y))
}

impl RPoint {
    /// The grid point `p` as a rational point.
    pub fn from_point(p: &Point2D) -> (r: RPoint)
        ensures
            r.x.num == p.x && r.x.den == 1,
            r.y.num == p.y && r.y.den == 1,
            rp_wf(r),
    {
        RPoint { x: Frac::from_int(p.x), y: Frac::from_int(p.y) }
    }

    /// The two rational points coincide.
    pub fn eq_rp(&self, other: &RPoint) -> (r: bool)
        requires
            rp_wf(*self),
            rp_wf(*other),
        ensures
            r == rp_eq(*self, *other),
    {
        self.x.eq_frac(&other.x) && self.y.eq_frac(&other.y)
    }

    /// Lexicographic comparison (`x` first, then `y`).
    pub fn lt_rp(&self, other: &RPoint) -> (r: bool)
        requires
            rp_wf(*self),
            rp_wf(*other),
        ensures
            r == rp_lt(*self, *other),
    {
        self.x.lt_frac(&other.x) || (self.x.eq_frac(&other.x) && self.y.lt_frac(&other.y))
    }
}

} // verus!
