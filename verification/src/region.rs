use vstd::prelude::*;
use crate::geom::{in_range, Point2D};
use crate::frac::Frac;
use crate::polygon::{poly_in_range, spec_poly_contains, spec_shoelace, Polygon};

verus! {

/// A named point of interest, tested against composite regions.
#[derive(Debug, Clone)]
pub struct City {
    pub name: String,
    pub location: Point2D,
}

/// A ring of a composite region: an outer boundary, an exclusion zone
/// (hole), or a ring whose role is not yet known (treated as a boundary).
#[derive(Debug, Clone)]
pub enum RegionType {
    OuterBoundary(Polygon),
    ExclusionZone(Polygon),
    UnspecifiedRegion(Polygon),
}

/// A composite region: outer boundaries minus holes.
#[derive(Debug)]
pub struct State {
    pub name: String,
    pub polygons: Vec<Polygon>,
    pub holes: Vec<Polygon>,
}

/// Every vertex of every listed polygon is on the grid and the rings are of
/// tractable size.
pub open spec fn polys_ok(ps: Seq<Polygon>) -> bool {
    &&& forall|i: int| 0 <= i < ps.len() ==> poly_in_range((#[trigger] ps[i]).points@)
    &&& forall|i: int| 0 <= i < ps.len() ==> (#[trigger] ps[i]).points@.len() < 1_000_000_000
}

/// The sum of the absolute shoelace values (twice the areas) of the listed
/// polygons.
pub open spec fn spec_area2_sum(ps: Seq<Polygon>) -> int
    decreases ps.len(),
{
    if ps.len() == 0 {
        0
    } else {
        let s = spec_shoelace(ps.last().points@);
        spec_area2_sum(ps.drop_last()) + if s >= 0 {
            s
        } else {
            -s
        }
    }
}

/// Splitting a list of typed regions: boundaries and unspecified rings on
/// the left, exclusion zones on the right.
pub open spec fn spec_split_regions(rs: Seq<RegionType>) -> (Seq<Polygon>, Seq<Polygon>)
    decreases rs.len(),
{
    if rs.len() == 0 {
        (Seq::empty(), Seq::empty())
    } else {
        let (ps, hs) = spec_split_regions(rs.drop_last());
        match rs.last() {
            RegionType::OuterBoundary(p) => (ps.push(p), hs),
            RegionType::UnspecifiedRegion(p) => (ps.push(p), hs),
            RegionType::ExclusionZone(p) => (ps, hs.push(p)),
        }
    }
}

/// The point lies in some listed polygon.
pub open spec fn spec_in_some(ps: Seq<Polygon>, q: Point2D) -> bool {
    exists|i: int| 0 <= i < ps.len() && spec_poly_contains((#[trigger] ps[i]).points@, q)
}

/// Decides `spec_in_some`.
fn in_some(ps: &Vec<Polygon>, q: Point2D) -> (r: bool)
    requires
        polys_ok(ps@),
        in_range(q),
    ensures
        r == spec_in_some(ps@, q),
{
    let n = ps.len();
    let mut i: usize = 0;
    while i < n
        invariant
            n == ps@.len(),
            i <= n,
            polys_ok(ps@),
            in_range(q),
            forall|k: int| 0 <= k < i ==> !spec_poly_contains((#[trigger] ps@[k]).points@, q),
        decreases n - i,
    {
        if ps[i].contains(q) {
            return true;
        }
        i = i + 1;
    }
    proof {
        if spec_in_some(ps@, q) {
            let k = choose|k: int|
                0 <= k < ps@.len() && spec_poly_contains((#[trigger] ps@[k]).points@, q);
            assert(false);
        }
    }
    false
}

/// Sums twice the areas of the listed polygons.
fn area2_sum(ps: &Vec<Polygon>) -> (sum: i128)
    requires
        polys_ok(ps@),
        ps@.len() < 0x1_0000,
    ensures
        sum == spec_area2_sum(ps@),
        -140_000_000_000_000_000_000_000_000 <= sum <= 140_000_000_000_000_000_000_000_000,
{
    let n = ps.len();
    let mut sum: i128 = 0;
    let mut i: usize = 0;
    while i < n
        invariant
            n == ps@.len(),
            i <= n,
            n < 0x1_0000,
            polys_ok(ps@),
            sum == spec_area2_sum(ps@.take(i as int)),
            -2_000_000_000_000_000_000_000 * i <= sum <= 2_000_000_000_000_000_000_000 * i,
        decreases n - i,
    {
        proof {
            assert(ps@.take(i + 1 as int).drop_last() =~= ps@.take(i as int));
            assert(ps@.take(i + 1 as int).last() == ps@[i as int]);
        }
        let a = ps[i].get_area();
        proof {
            assert(-2_000_000_000_000_000_000_000 * (i + 1) == -2_000_000_000_000_000_000_000 * i
                - 2_000_000_000_000_000_000_000) by (nonlinear_arith);
            assert(2_000_000_000_000_000_000_000 * (i + 1) == 2_000_000_000_000_000_000_000 * i
                + 2_000_000_000_000_000_000_000) by (nonlinear_arith);
            assert(a.num <= 2_000_000_000_000_000_000_000) by (nonlinear_arith)
                requires
                    0 <= a.num <= 2_000_000_000_000 * ps@[i as int].points@.len(),
                    ps@[i as int].points@.len() < 1_000_000_000,
            ;
        }
        sum = sum + a.num;
        i = i + 1;
    }
    proof {
        assert(ps@.take(n as int) =~= ps@);
        assert(2_000_000_000_000_000_000_000 * n <= 140_000_000_000_000_000_000_000_000)
            by (nonlinear_arith)
            requires
                n < 0x1_0000,
        ;
        assert(-2_000_000_000_000_000_000_000 * n >= -140_000_000_000_000_000_000_000_000)
            by (nonlinear_arith)
            requires
                n < 0x1_0000,
        ;
    }
    sum
}

impl State {
    /// Builds a state from its typed rings: boundaries and unspecified
    /// rings become outer polygons, exclusion zones become holes.
    pub fn new(name: String, regions: Vec<RegionType>) -> (s: State)
        ensures
            s.name@ == name@,
            (s.polygons@, s.holes@) == spec_split_regions(regions@),
    {
        let mut polygons: Vec<Polygon> = Vec::new();
        let mut holes: Vec<Polygon> = Vec::new();
        let mut regions = regions;
        let ghost orig = regions@;
        let ghost mut k: int = orig.len() as int;
        proof {
            assert(orig.subrange(orig.len() - k, orig.len() as int) =~= orig);
            assert(orig.subrange(0, orig.len() - k) =~= Seq::<RegionType>::empty());
        }
        while regions.len() > 0
            invariant
                0 <= k <= orig.len(),
                regions@ == orig.subrange(orig.len() - k, orig.len() as int),
                (polygons@, holes@) == spec_split_regions(
                    orig.subrange(0, orig.len() - k),
                ),
            decreases k,
        {
            let r = regions.remove(0);
            proof {
                let done = orig.len() - k;
                assert(orig.subrange(done, orig.len() as int)[0] == orig[done]);
                assert(regions@ =~= orig.subrange(done + 1, orig.len() as int));
                assert(orig.subrange(0, done + 1).drop_last() =~= orig.subrange(0, done));
                assert(orig.subrange(0, done + 1).last() == orig[done]);
                k = k - 1;
            }
            match r {
                RegionType::OuterBoundary(p) => polygons.push(p),
                RegionType::UnspecifiedRegion(p) => polygons.push(p),
                RegionType::ExclusionZone(p) => holes.push(p),
            }
        }
        proof {
            assert(orig.subrange(0, orig.len() as int) =~= orig);
        }
        State { name, polygons, holes }
    }

    /// The state's area: the area of its boundaries minus the area of its
    /// holes (halves of the exact shoelace sums).
    pub fn get_area(&self) -> (r: Frac)
        requires
            polys_ok(self.polygons@),
            polys_ok(self.holes@),
            self.polygons@.len() < 0x1_0000,
            self.holes@.len() < 0x1_0000,
        ensures
            r.den == 2,
            r.num == spec_area2_sum(self.polygons@) - spec_area2_sum(self.holes@),
            -280_000_000_000_000_000_000_000_000 <= r.num <= 280_000_000_000_000_000_000_000_000,
    {
        let outer = area2_sum(&self.polygons);
        let inner = area2_sum(&self.holes);
        Frac { num: outer - inner, den: 2 }
    }

    /// Whether the city lies in the state: inside some boundary and inside
    /// no hole.
    pub fn contains(&self, city: &City) -> (r: bool)
        requires
            polys_ok(self.polygons@),
            polys_ok(self.holes@),
            in_range(city.location),
        ensures
            r == (spec_in_some(self.polygons@, city.location) && !spec_in_some(
                self.holes@,
                city.location,
            )),
    {
        let mut res = in_some(&self.polygons, city.location);
        if res {
            res = !in_some(&self.holes, city.location);
        }
        res
    }
}

/// A country: its composite regions and its cities.
#[derive(Debug)]
pub struct Country {
    pub name: Option<String>,
    pub area: Option<Frac>,
    pub states: Vec<State>,
    pub cities: Vec<City>,
}

/// Twice the total area of all states.
pub open spec fn spec_country_area2(states: Seq<State>) -> int
    decreases states.len(),
{
    if states.len() == 0 {
        0
    } else {
        spec_country_area2(states.drop_last()) + spec_area2_sum(states.last().polygons@)
            - spec_area2_sum(states.last().holes@)
    }
}

pub open spec fn states_ok(states: Seq<State>) -> bool {
    forall|i: int|
        0 <= i < states.len() ==> {
            &&& polys_ok((#[trigger] states[i]).polygons@)
            &&& polys_ok(states[i].holes@)
            &&& states[i].polygons@.len() < 0x1_0000
            &&& states[i].holes@.len() < 0x1_0000
        }
}

impl Country {
    pub fn new() -> (c: Country)
        ensures
            c.name is None,
            c.area is None,
            c.states@.len() == 0,
            c.cities@.len() == 0,
    {
        Country { name: None, area: None, states: Vec::new(), cities: Vec::new() }
    }

    pub fn add_state(&mut self, state: State)
        ensures
            final(self).states@ == old(self).states@.push(state),
            final(self).cities@ == old(self).cities@,
            final(self).name == old(self).name,
            final(self).area == old(self).area,
    {
        self.states.push(state);
    }

    pub fn add_city(&mut self, city: City)
        ensures
            final(self).cities@ == old(self).cities@.push(city),
            final(self).states@ == old(self).states@,
            final(self).name == old(self).name,
            final(self).area == old(self).area,
    {
        self.cities.push(city);
    }

    /// Computes and stores the country's area: the sum of its states'
    /// areas, as half the exact value.
    pub fn compute_area(&mut self)
        requires
            states_ok(old(self).states@),
            old(self).states@.len() < 0x1_0000,
        ensures
            final(self).states@ == old(self).states@,
            final(self).cities@ == old(self).cities@,
            final(self).name == old(self).name,
            final(self).area == Some(
                Frac { num: spec_country_area2(old(self).states@) as i128, den: 2 },
            ),
    {
        let n = self.states.len();
        let mut sum: i128 = 0;
        let mut i: usize = 0;
        while i < n
            invariant
                n == self.states@.len(),
                self.states@ == old(self).states@,
                self.cities@ == old(self).cities@,
                self.name == old(self).name,
                self.area == old(self).area,
                i <= n,
                n < 0x1_0000,
                states_ok(self.states@),
                sum == spec_country_area2(self.states@.take(i as int)),
                -300_000_000_000_000_000_000_000_000 * i <= sum
                    <= 300_000_000_000_000_000_000_000_000 * i,
            decreases n - i,
        {
            proof {
                assert(self.states@.take(i + 1 as int).drop_last() =~= self.states@.take(i as int));
                assert(self.states@.take(i + 1 as int).last() == self.states@[i as int]);
            }
            let a = self.states[i].get_area();
            proof {
                assert(-300_000_000_000_000_000_000_000_000 * (i + 1)
                    == -300_000_000_000_000_000_000_000_000 * i
                    - 300_000_000_000_000_000_000_000_000) by (nonlinear_arith);
                assert(300_000_000_000_000_000_000_000_000 * (i + 1)
                    == 300_000_000_000_000_000_000_000_000 * i
                    + 300_000_000_000_000_000_000_000_000) by (nonlinear_arith);
                assert(300_000_000_000_000_000_000_000_000 * n
                    < 0x8000_0000_0000_0000_0000_0000_0000_0000) by (nonlinear_arith)
                    requires
                        n < 0x1_0000,
                ;
                assert(300_000_000_000_000_000_000_000_000 * i
                    <= 300_000_000_000_000_000_000_000_000 * n) by (nonlinear_arith)
                    requires
                        0 <= i <= n,
                ;
                assert(-300_000_000_000_000_000_000_000_000 * i
                    >= -300_000_000_000_000_000_000_000_000 * n) by (nonlinear_arith)
                    requires
                        0 <= i <= n,
                ;
            }
            sum = sum + a.num;
            i = i + 1;
        }
        proof {
            assert(self.states@.take(n as int) =~= self.states@);
        }
        self.area = Some(Frac { num: sum, den: 2 });
    }
}

/// A drawing command of a region outline: the compute half of path
/// ingestion, over plain values.
#[derive(Debug, Clone, Copy, PartialEq, Eq, Structural)]
pub enum PathCmd {
    MoveAbs(i64, i64),
    LineAbs(i64, i64),
    LineRel(i64, i64),
    Close,
}

/// The vertex rings of a list of polygons.
pub open spec fn spec_models(ps: Seq<Polygon>) -> Seq<Seq<Point2D>> {
    Seq::new(ps.len(), |k: int| ps[k].points@)
}

/// One drawing command applied to the rings built so far: a move opens a
/// new ring, a line extends the last ring (absolutely or relatively), and a
/// close drops the duplicated final vertex.  Commands without a current
/// ring are ignored.
pub open spec fn spec_apply_cmd(acc: Seq<Seq<Point2D>>, c: PathCmd) -> Seq<Seq<Point2D>> {
    match c {
        PathCmd::MoveAbs(x, y) => acc.push(seq![Point2D { x, y }]),
        PathCmd::LineAbs(x, y) => if acc.len() == 0 {
            acc
        } else {
            acc.update(acc.len() - 1, acc.last().push(Point2D { x, y }))
        },
        PathCmd::LineRel(dx, dy) => if acc.len() == 0 || acc.last().len() == 0 {
            acc
        } else {
            acc.update(
                acc.len() - 1,
                acc.last().push(
                    Point2D {
                        x: (acc.last().last().x + dx) as i64,
                        y: (acc.last().last().y + dy) as i64,
                    },
                ),
            )
        },
        PathCmd::Close => if acc.len() == 0 || acc.last().len() == 0 {
            acc
        } else {
            acc.update(acc.len() - 1, acc.last().drop_last())
        },
    }
}

/// The rings described by the commands from position `i` on.
pub open spec fn spec_build_rings(cmds: Seq<PathCmd>, i: int, acc: Seq<Seq<Point2D>>) -> Seq<
    Seq<Point2D>,
>
    decreases cmds.len() - i,
{
    if i < 0 || i >= cmds.len() {
        acc
    } else {
        spec_build_rings(cmds, i + 1, spec_apply_cmd(acc, cmds[i]))
    }
}

/// No relative line overflows the coordinate type along the build.
pub open spec fn spec_build_ok(cmds: Seq<PathCmd>, i: int, acc: Seq<Seq<Point2D>>) -> bool
    decreases cmds.len() - i,
{
    if i < 0 || i >= cmds.len() {
        true
    } else {
        let ok = match cmds[i] {
            PathCmd::LineRel(dx, dy) => acc.len() == 0 || acc.last().len() == 0 || {
                &&& i64::MIN <= acc.last().last().x + dx <= i64::MAX
                &&& i64::MIN <= acc.last().last().y + dy <= i64::MAX
            },
            _ => true,
        };
        ok && spec_build_ok(cmds, i + 1, spec_apply_cmd(acc, cmds[i]))
    }
}

/// Builds the vertex rings that a command list describes.
pub fn build_polygons(cmds: &Vec<PathCmd>) -> (r: Vec<Polygon>)
    requires
        spec_build_ok(cmds@, 0, Seq::empty()),
    ensures
        spec_models(r@) == spec_build_rings(cmds@, 0, Seq::empty()),
{
    let n = cmds.len();
    let mut out: Vec<Polygon> = Vec::new();
    proof {
        assert(spec_models(out@) =~~= Seq::<Seq<Point2D>>::empty());
    }
    let mut i: usize = 0;
    while i < n
        invariant
            n == cmds@.len(),
            i <= n,
            spec_build_rings(cmds@, i as int, spec_models(out@)) == spec_build_rings(
                cmds@,
                0,
                Seq::empty(),
            ),
            spec_build_ok(cmds@, i as int, spec_models(out@)),
        decreases n - i,
    {
        let ghost before = spec_models(out@);
        match cmds[i] {
            PathCmd::MoveAbs(x, y) => {
                let mut p = Polygon::new();
                p.push(x, y);
                out.push(p);
                proof {
                    assert(spec_models(out@) =~~= spec_apply_cmd(before, cmds@[i as int]));
                }
            },
            PathCmd::LineAbs(x, y) => {
                if out.len() > 0 {
                    let k = out.len() - 1;
                    let mut p = out.remove(k);
                    p.push(x, y);
                    out.push(p);
                }
                proof {
                    assert(spec_models(out@) =~~= spec_apply_cmd(before, cmds@[i as int]));
                }
            },
            PathCmd::LineRel(dx, dy) => {
                if out.len() > 0 {
                    let k = out.len() - 1;
                    let mut p = out.remove(k);
                    p.push_relative(dx, dy);
                    if p.points.len() == 1 {
                        // A relative line without a current vertex is
                        // ignored, as the drop below restores the ring.
                        p.points.pop();
                    }
                    out.push(p);
                }
                proof {
                    assert(spec_models(out@) =~~= spec_apply_cmd(before, cmds@[i as int]));
                }
            },
            PathCmd::Close => {
                if out.len() > 0 {
                    let k = out.len() - 1;
                    let mut p = out.remove(k);
                    p.points.pop();
                    out.push(p);
                }
                proof {
                    assert(spec_models(out@) =~~= spec_apply_cmd(before, cmds@[i as int]));
                }
            },
        }
        i = i + 1;
    }
    out
}

/// Every built ring is on the grid and of tractable size.
pub open spec fn rings_ok(m: Seq<Seq<Point2D>>) -> bool {
    forall|k: int|
        0 <= k < m.len() ==> poly_in_range(#[trigger] m[k]) && m[k].len() < 1_000_000_000
}

/// Builds a state from a drawing-command outline: the commands give the
/// rings, and the rings are split into shells and nested holes.
pub fn parse_path_to_state(name: String, cmds: &Vec<PathCmd>) -> (s: State)
    requires
        spec_build_ok(cmds@, 0, Seq::empty()),
        rings_ok(spec_build_rings(cmds@, 0, Seq::empty())),
    ensures
        s.name@ == name@,
        ({
            let rings = spec_build_rings(cmds@, 0, Seq::empty());
            if rings.len() == 0 {
                s.polygons@.len() == 0 && s.holes@.len() == 0
            } else {
                (spec_models(s.polygons@), spec_models(s.holes@)) == spec_categorize(
                    rings,
                    1,
                    seq![rings[0]],
                    Seq::empty(),
                )
            }
        }),
{
    let polygons = build_polygons(cmds);
    proof {
        let rings = spec_build_rings(cmds@, 0, Seq::empty());
        assert forall|k: int| 0 <= k < polygons@.len() implies poly_in_range(
            (#[trigger] polygons@[k]).points@,
        ) && polygons@[k].points@.len() < 1_000_000_000 by {
            assert(spec_models(polygons@)[k] == polygons@[k].points@);
            assert(rings[k] == spec_models(polygons@)[k]);
        }
        if polygons@.len() > 0 {
            assert(spec_models(polygons@)[0] == polygons@[0].points@);
        }
    }
    let (shells, holes) = categorize_polygons(polygons);
    State { name, polygons: shells, holes }
}

/// Every vertex of `pts` lies inside the ring `shell`.
pub open spec fn spec_all_inside(pts: Seq<Point2D>, shell: Seq<Point2D>) -> bool {
    forall|i: int| 0 <= i < pts.len() ==> spec_poly_contains(shell, #[trigger] pts[i])
}

/// The ring is nested inside some of the listed shells.
pub open spec fn spec_nested_in_some(shells: Seq<Seq<Point2D>>, pts: Seq<Point2D>) -> bool {
    exists|k: int| 0 <= k < shells.len() && spec_all_inside(pts, #[trigger] shells[k])
}

/// The shell/hole split from ring `i` on: the first ring is a shell, and
/// each later ring nested in an accepted shell becomes a hole.
pub open spec fn spec_categorize(
    polys: Seq<Seq<Point2D>>,
    i: int,
    shells: Seq<Seq<Point2D>>,
    holes: Seq<Seq<Point2D>>,
) -> (Seq<Seq<Point2D>>, Seq<Seq<Point2D>>)
    decreases polys.len() - i,
{
    if i < 1 || i >= polys.len() {
        (shells, holes)
    } else if spec_nested_in_some(shells, polys[i]) {
        spec_categorize(polys, i + 1, shells, holes.push(polys[i]))
    } else {
        spec_categorize(polys, i + 1, shells.push(polys[i]), holes)
    }
}

/// Splits a list of rings into shells and the holes nested inside them: the
/// first ring is a shell; every later ring whose vertices all lie in an
/// accepted shell is a hole.
pub fn categorize_polygons(polygons: Vec<Polygon>) -> (r: (Vec<Polygon>, Vec<Polygon>))
    requires
        polys_ok(polygons@),
    ensures
        polygons@.len() == 0 ==> r.0@.len() == 0 && r.1@.len() == 0,
        polygons@.len() > 0 ==> (spec_models(r.0@), spec_models(r.1@)) == spec_categorize(
            spec_models(polygons@),
            1,
            seq![polygons@[0].points@],
            Seq::empty(),
        ),
{
    let ghost all = spec_models(polygons@);
    let mut shells: Vec<Polygon> = Vec::new();
    let mut holes: Vec<Polygon> = Vec::new();
    if polygons.len() == 0 {
        return (shells, holes);
    }
    let n = polygons.len();
    let mut polygons = polygons;
    let first = polygons.remove(0);
    shells.push(first);
    proof {
        assert(spec_models(shells@) =~~= seq![all[0]]);
        assert(spec_models(holes@) =~~= Seq::<Seq<Point2D>>::empty());
    }
    let mut i: usize = 1;
    while i < n
        invariant
            n == all.len(),
            polygons@.len() + i == n,
            1 <= i <= n,
            forall|k: int| 0 <= k < polygons@.len() ==> all[k + i] == (#[trigger] polygons@[k]).points@,
            polys_ok(polygons@),
            polys_ok(shells@),
            polys_ok(holes@),
            shells@.len() >= 1,
            spec_categorize(all, i as int, spec_models(shells@), spec_models(holes@))
                == spec_categorize(all, 1, seq![all[0]], Seq::empty()),
        decreases n - i,
    {
        let ghost polys_before = polygons@;
        let p = polygons.remove(0);
        let ghost polys_after = polygons@;
        let ghost shells_before = spec_models(shells@);
        let ghost holes_before = spec_models(holes@);
        let mut nested = false;
        let m = shells.len();
        let mut k: usize = 0;
        while k < m
            invariant
                m == shells@.len(),
                k <= m,
                polys_ok(shells@),
                poly_in_range(p.points@),
                p.points@.len() < 1_000_000_000,
                nested == exists|t: int|
                    0 <= t < k && spec_all_inside(p.points@, (#[trigger] shells@[t]).points@),
            decreases m - k,
        {
            if !nested && p.is_nested(&shells[k]) {
                proof {
                    assert(spec_all_inside(p.points@, shells@[k as int].points@));
                }
                nested = true;
            }
            k = k + 1;
        }
        proof {
            if nested {
                let t = choose|t: int|
                    0 <= t < m && spec_all_inside(p.points@, (#[trigger] shells@[t]).points@);
                assert(spec_models(shells@)[t] == shells@[t].points@);
                assert(spec_nested_in_some(spec_models(shells@), p.points@));
            } else {
                if spec_nested_in_some(spec_models(shells@), p.points@) {
                    let t = choose|t: int|
                        0 <= t < spec_models(shells@).len() && spec_all_inside(
                            p.points@,
                            #[trigger] spec_models(shells@)[t],
                        );
                    assert(spec_all_inside(p.points@, shells@[t].points@));
                    assert(false);
                }
            }
            assert(all[i as int] == p.points@);
        }
        if nested {
            holes.push(p);
            proof {
                assert(spec_models(holes@) =~~= holes_before.push(all[i as int]));
                assert(spec_categorize(all, i as int, shells_before, holes_before)
                    == spec_categorize(
                    all,
                    i + 1,
                    shells_before,
                    holes_before.push(all[i as int]),
                ));
            }
        } else {
            shells.push(p);
            proof {
                assert(spec_models(shells@) =~~= shells_before.push(all[i as int]));
                assert(spec_categorize(all, i as int, shells_before, holes_before)
                    == spec_categorize(
                    all,
                    i + 1,
                    shells_before.push(all[i as int]),
                    holes_before,
                ));
            }
        }
        proof {
            assert forall|k: int| 0 <= k < polys_after.len() implies all[k + i + 1] == (
            #[trigger] polys_after[k]).points@ by {
                assert(polys_after[k] == polys_before[k + 1]);
                assert(all[(k + 1) + i] == polys_before[k + 1].points@);
            }
        }
        i = i + 1;
    }
    (shells, holes)
}

} // verus!
