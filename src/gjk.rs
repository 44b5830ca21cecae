use vstd::prelude::*;

use crate::hull::{is_support, support_of, Hull, DIR_BOUND};
use crate::vector::{lemma_mul_bound, bounded, scross, sdot, sneg, ssub, szero, Vec3, P3, COORD_BOUND};

verus! {

/// Bound on the components of a point of a Minkowski difference of two hulls.
pub const MINK_BOUND: i128 = 0x20_0000;

/// Bound on the components of an edge between two such points.
const EDGE_BOUND: i128 = 0x40_0000;

/// Bound on the components of a face normal built from two edges.
const NORMAL_BOUND: i128 = 0x2000_0000_0000;

/// Why an overlap test gave no answer.
#[derive(Clone, Copy, Debug, PartialEq, Eq)]
pub enum GjkError {
    /// The search direction vanished: the simplex is degenerate.
    Degenerate,
    /// The iteration limit was reached before the test decided.
    IterationLimit,
}

/// A simplex of up to three points. The first point is always the one added last.
#[derive(Clone, Copy, Debug, PartialEq, Eq)]
pub enum Simplex {
    Point(Vec3),
    Line(Vec3, Vec3),
    Triangle(Vec3, Vec3, Vec3),
}

/// Four points of a Minkowski difference that enclose the origin.
pub type Tetrahedron = (Vec3, Vec3, Vec3, Vec3);

/// The point added last to a simplex.
pub open spec fn newest(s: Simplex) -> Vec3 {
    match s {
        Simplex::Point(a) => a,
        Simplex::Line(a, _) => a,
        Simplex::Triangle(a, _, _) => a,
    }
}

/// `p` is `a - b` for a vertex `a` of `ha` and a vertex `b` of `hb`.
pub open spec fn is_mink(ha: Seq<Vec3>, hb: Seq<Vec3>, p: P3) -> bool {
    exists|i: int, j: int|
        0 <= i < ha.len() && 0 <= j < hb.len() && p == ssub(#[trigger] ha[i]@, #[trigger] hb[j]@)
}

/// Every point of `s` is a point of the Minkowski difference of `ha` and `hb`.
pub open spec fn simplex_in(ha: Seq<Vec3>, hb: Seq<Vec3>, s: Simplex) -> bool {
    match s {
        Simplex::Point(a) => is_mink(ha, hb, a@),
        Simplex::Line(a, b) => is_mink(ha, hb, a@) && is_mink(ha, hb, b@),
        Simplex::Triangle(a, b, c) => is_mink(ha, hb, a@) && is_mink(ha, hb, b@) && is_mink(
            ha,
            hb,
            c@,
        ),
    }
}

/// The next simplex and search direction after adding `a` to the point `b`.
pub open spec fn line_step(a: Vec3, b: Vec3) -> (Simplex, P3) {
    let ab = ssub(b@, a@);
    let ao = sneg(a@);
    if sdot(ab, ao) > 0 {
        (Simplex::Line(a, b), scross(scross(ab, ao), ab))
    } else {
        (Simplex::Point(a), ao)
    }
}

/// The next simplex and search direction after adding `a` to the line `b`, `c`.
pub open spec fn triangle_step(a: Vec3, b: Vec3, c: Vec3) -> (Simplex, P3) {
    let ab = ssub(b@, a@);
    let ac = ssub(c@, a@);
    let ao = sneg(a@);
    let abc = scross(ab, ac);
    if sdot(scross(abc, ac), ao) > 0 {
        if sdot(ac, ao) > 0 {
            (Simplex::Line(a, c), scross(scross(ac, ao), ac))
        } else {
            line_step(a, b)
        }
    } else if sdot(scross(ab, abc), ao) > 0 {
        line_step(a, b)
    } else if sdot(abc, ao) > 0 {
        (Simplex::Triangle(a, b, c), abc)
    } else {
        (Simplex::Triangle(a, c, b), sneg(abc))
    }
}

/// The origin lies on the inner side (or on the plane) of each of the three faces of `t`
/// through its first point, as the faces are wound here.
pub open spec fn faces_admit_origin(t: Tetrahedron) -> bool {
    let (a, b, c, d) = t;
    let ab = ssub(b@, a@);
    let ac = ssub(c@, a@);
    let ad = ssub(d@, a@);
    let ao = sneg(a@);
    &&& !(sdot(scross(ab, ac), ao) > 0)
    &&& !(sdot(scross(ac, ad), ao) > 0)
    &&& !(sdot(scross(ad, ab), ao) > 0)
}

/// The outcome of adding `a` to the triangle `b`, `c`, `d`.
pub open spec fn tetrahedron_step(a: Vec3, b: Vec3, c: Vec3, d: Vec3) -> Result<
    Tetrahedron,
    (Simplex, P3),
> {
    let ab = ssub(b@, a@);
    let ac = ssub(c@, a@);
    let ad = ssub(d@, a@);
    let ao = sneg(a@);
    if sdot(scross(ab, ac), ao) > 0 {
        Err(triangle_step(a, b, c))
    } else if sdot(scross(ac, ad), ao) > 0 {
        Err(triangle_step(a, c, d))
    } else if sdot(scross(ad, ab), ao) > 0 {
        Err(triangle_step(a, d, b))
    } else {
        Ok((a, b, c, d))
    }
}

/// The outcome of adding `v` to the simplex `s`.
pub open spec fn enclose_step(s: Simplex, v: Vec3) -> Result<Tetrahedron, (Simplex, P3)> {
    match s {
        Simplex::Point(a) => Err(line_step(v, a)),
        Simplex::Line(a, b) => Err(triangle_step(v, a, b)),
        Simplex::Triangle(a, b, c) => tetrahedron_step(v, a, b, c),
    }
}

/// `r` is the executable form of the step outcome `m`.
pub open spec fn step_is(r: (Simplex, Vec3), m: (Simplex, P3)) -> bool {
    r.0 == m.0 && r.1@ == m.1
}

pub open spec fn outcome_is(
    r: Result<Tetrahedron, (Simplex, Vec3)>,
    m: Result<Tetrahedron, (Simplex, P3)>,
) -> bool {
    match r {
        Ok(t) => m == Ok::<Tetrahedron, (Simplex, P3)>(t),
        Err(p) => m is Err && step_is(p, m->Err_0),
    }
}

/// The two vectors point into the same open half-space.
pub fn same_direction(a: &Vec3, b: &Vec3) -> (r: bool)
    requires
        bounded(a@, DIR_BOUND as int),
        bounded(b@, MINK_BOUND as int),
    ensures
        r == (sdot(a@, b@) > 0),
{
    a.dot(b, DIR_BOUND, MINK_BOUND) > 0
}

proof fn lemma_triple_product(
    n0: int,
    n1: int,
    n2: int,
    u0: int,
    u1: int,
    u2: int,
    w0: int,
    w1: int,
    w2: int,
)
    ensures
        (n1 * u2 - n2 * u1) * w0 + (n2 * u0 - n0 * u2) * w1 + (n0 * u1 - n1 * u0) * w2 == n0 * (u1
            * w2 - u2 * w1) + n1 * (u2 * w0 - u0 * w2) + n2 * (u0 * w1 - u1 * w0),
{
    assert((n1 * u2 - n2 * u1) * w0 == n1 * u2 * w0 - n2 * u1 * w0) by (nonlinear_arith);
    assert((n2 * u0 - n0 * u2) * w1 == n2 * u0 * w1 - n0 * u2 * w1) by (nonlinear_arith);
    assert((n0 * u1 - n1 * u0) * w2 == n0 * u1 * w2 - n1 * u0 * w2) by (nonlinear_arith);
    assert(n0 * (u1 * w2 - u2 * w1) == n0 * u1 * w2 - n0 * u2 * w1) by (nonlinear_arith);
    assert(n1 * (u2 * w0 - u0 * w2) == n1 * u2 * w0 - n1 * u0 * w2) by (nonlinear_arith);
    assert(n2 * (u0 * w1 - u1 * w0) == n2 * u0 * w1 - n2 * u1 * w0) by (nonlinear_arith);
}

proof fn lemma_square_nonneg(a: int, b: int, c: int)
    ensures
        a * a + b * b + c * c >= 0,
{
    assert(a * a + b * b + c * c >= 0) by (nonlinear_arith);
}

/// A cross product is orthogonal to both of its factors.
pub proof fn lemma_cross_orthogonal(u: P3, v: P3)
    ensures
        sdot(scross(u, v), u) == 0,
        sdot(scross(u, v), v) == 0,
{
    let (u0, u1, u2, v0, v1, v2) = (u.0, u.1, u.2, v.0, v.1, v.2);
    assert((u1 * v2 - u2 * v1) * u0 + (u2 * v0 - u0 * v2) * u1 + (u0 * v1 - u1 * v0) * u2 == 0)
        by (nonlinear_arith);
    assert((u1 * v2 - u2 * v1) * v0 + (u2 * v0 - u0 * v2) * v1 + (u0 * v1 - u1 * v0) * v2 == 0)
        by (nonlinear_arith);
}

/// The search direction `d` is orthogonal to every edge of `s` from its newest point: for an
/// edge it points off the edge, for a triangle it is a normal.
pub open spec fn direction_fits(s: Simplex, d: P3) -> bool {
    match s {
        Simplex::Point(_) => true,
        Simplex::Line(a, b) => sdot(d, ssub(b@, a@)) == 0,
        Simplex::Triangle(a, b, c) => sdot(d, ssub(b@, a@)) == 0 && sdot(d, ssub(c@, a@)) == 0,
    }
}

/// `(u x w) x u` never points away from `w`: its dot with `w` is the squared length of `u x w`.
pub proof fn lemma_edge_normal_faces(u: P3, w: P3)
    ensures
        sdot(scross(scross(u, w), u), w) == sdot(scross(u, w), scross(u, w)),
        sdot(scross(scross(u, w), u), w) >= 0,
{
    let n = scross(u, w);
    lemma_triple_product(n.0, n.1, n.2, u.0, u.1, u.2, w.0, w.1, w.2);
    lemma_square_nonneg(n.0, n.1, n.2);
}

fn line(a: Vec3, b: Vec3) -> (r: (Simplex, Vec3))
    requires
        bounded(a@, MINK_BOUND as int),
        bounded(b@, MINK_BOUND as int),
    ensures
        step_is(r, line_step(a, b)),
        bounded(r.1@, DIR_BOUND as int),
        sdot(r.1@, sneg(a@)) >= 0,
        direction_fits(r.0, r.1@),
{
    proof {
        lemma_edge_normal_faces(ssub(b@, a@), sneg(a@));
        lemma_cross_orthogonal(scross(ssub(b@, a@), sneg(a@)), ssub(b@, a@));
        lemma_square_nonneg(-a.x as int, -a.y as int, -a.z as int);
    }
    let ab = b.sub(&a, MINK_BOUND);
    let ao = a.neg();
    if ab.dot(&ao, EDGE_BOUND, MINK_BOUND) > 0 {
        let n = ab.cross(&ao, EDGE_BOUND, MINK_BOUND);
        (Simplex::Line(a, b), n.cross(&ab, NORMAL_BOUND, EDGE_BOUND))
    } else {
        (Simplex::Point(a), ao)
    }
}

fn triangle(a: Vec3, b: Vec3, c: Vec3) -> (r: (Simplex, Vec3))
    requires
        bounded(a@, MINK_BOUND as int),
        bounded(b@, MINK_BOUND as int),
        bounded(c@, MINK_BOUND as int),
    ensures
        step_is(r, triangle_step(a, b, c)),
        bounded(r.1@, DIR_BOUND as int),
        sdot(r.1@, sneg(a@)) >= 0,
        direction_fits(r.0, r.1@),
{
    proof {
        lemma_edge_normal_faces(ssub(c@, a@), sneg(a@));
        lemma_cross_orthogonal(scross(ssub(c@, a@), sneg(a@)), ssub(c@, a@));
        lemma_cross_orthogonal(ssub(b@, a@), ssub(c@, a@));
        let (ab, ac) = (ssub(b@, a@), ssub(c@, a@));
        let abc = scross(ab, ac);
        lemma_dot_linear(ac, ac, abc);
        lemma_dot_linear(ab, ab, abc);
        lemma_dot_linear(sneg(abc), sneg(abc), ac);
        lemma_dot_linear(sneg(abc), sneg(abc), ab);
        lemma_dot_linear(abc, abc, ab);
        lemma_dot_linear(abc, abc, ac);
        let abc = scross(ssub(b@, a@), ssub(c@, a@));
        lemma_dot_linear(sneg(a@), sneg(a@), abc);
        lemma_dot_linear(sneg(abc), sneg(abc), sneg(a@));
        lemma_dot_linear(abc, abc, sneg(a@));
    }
    let ab = b.sub(&a, MINK_BOUND);
    let ac = c.sub(&a, MINK_BOUND);
    let ao = a.neg();
    let abc = ab.cross(&ac, EDGE_BOUND, EDGE_BOUND);
    if abc.cross(&ac, NORMAL_BOUND, EDGE_BOUND).dot(&ao, DIR_BOUND, MINK_BOUND) > 0 {
        if ac.dot(&ao, EDGE_BOUND, MINK_BOUND) > 0 {
            let n = ac.cross(&ao, EDGE_BOUND, MINK_BOUND);
            (Simplex::Line(a, c), n.cross(&ac, NORMAL_BOUND, EDGE_BOUND))
        } else {
            line(a, b)
        }
    } else if ab.cross(&abc, EDGE_BOUND, NORMAL_BOUND).dot(&ao, DIR_BOUND, MINK_BOUND) > 0 {
        line(a, b)
    } else if abc.dot(&ao, NORMAL_BOUND, MINK_BOUND) > 0 {
        (Simplex::Triangle(a, b, c), abc)
    } else {
        (Simplex::Triangle(a, c, b), abc.neg())
    }
}

fn tetrahedron(a: Vec3, b: Vec3, c: Vec3, d: Vec3) -> (r: Result<Tetrahedron, (Simplex, Vec3)>)
    requires
        bounded(a@, MINK_BOUND as int),
        bounded(b@, MINK_BOUND as int),
        bounded(c@, MINK_BOUND as int),
        bounded(d@, MINK_BOUND as int),
    ensures
        outcome_is(r, tetrahedron_step(a, b, c, d)),
        r is Err ==> bounded(r->Err_0.1@, DIR_BOUND as int),
        r is Err ==> sdot(r->Err_0.1@, sneg(a@)) >= 0,
        r is Err ==> direction_fits(r->Err_0.0, r->Err_0.1@),
{
    let ab = b.sub(&a, MINK_BOUND);
    let ac = c.sub(&a, MINK_BOUND);
    let ad = d.sub(&a, MINK_BOUND);
    let ao = a.neg();
    let abc = ab.cross(&ac, EDGE_BOUND, EDGE_BOUND);
    let acd = ac.cross(&ad, EDGE_BOUND, EDGE_BOUND);
    let adb = ad.cross(&ab, EDGE_BOUND, EDGE_BOUND);
    if abc.dot(&ao, NORMAL_BOUND, MINK_BOUND) > 0 {
        Err(triangle(a, b, c))
    } else if acd.dot(&ao, NORMAL_BOUND, MINK_BOUND) > 0 {
        Err(triangle(a, c, d))
    } else if adb.dot(&ao, NORMAL_BOUND, MINK_BOUND) > 0 {
        Err(triangle(a, d, b))
    } else {
        Ok((a, b, c, d))
    }
}

impl Simplex {
    /// The origin is a point of the simplex or lies on a segment between two of them.
    pub fn holds_origin(&self) -> (r: bool)
        requires
            simplex_bounded(*self),
        ensures
            r == simplex_certified(*self),
    {
        match self {
            Simplex::Point(a) => certify((1, 0, 0, 0), a, a, a, a),
            Simplex::Line(a, b) => segment_certificate(a, b),
            Simplex::Triangle(a, b, c) => segment_certificate(a, b) || segment_certificate(b, c)
                || segment_certificate(a, c),
        }
    }

    /// Adds `v` as the newest point; returns the enclosing tetrahedron, or the reduced
    /// simplex (whose newest point is `v`) with the next search direction.
    pub fn enclose(self, v: Vec3) -> (r: Result<Tetrahedron, (Simplex, Vec3)>)
        requires
            simplex_bounded(self),
            bounded(v@, MINK_BOUND as int),
        ensures
            outcome_is(r, enclose_step(self, v)),
            r is Ok ==> r->Ok_0.0 == v && faces_admit_origin(r->Ok_0),
            r is Err ==> newest(r->Err_0.0) == v && bounded(r->Err_0.1@, DIR_BOUND as int),
            r is Err ==> sdot(r->Err_0.1@, sneg(v@)) >= 0,
            r is Err ==> direction_fits(r->Err_0.0, r->Err_0.1@),
    {
        match self {
            Simplex::Point(a) => Err(line(v, a)),
            Simplex::Line(a, b) => Err(triangle(v, a, b)),
            Simplex::Triangle(a, b, c) => tetrahedron(v, a, b, c),
        }
    }
}

/// Every point of `s` is within the Minkowski bound.
pub open spec fn simplex_bounded(s: Simplex) -> bool {
    match s {
        Simplex::Point(a) => bounded(a@, MINK_BOUND as int),
        Simplex::Line(a, b) => bounded(a@, MINK_BOUND as int) && bounded(b@, MINK_BOUND as int),
        Simplex::Triangle(a, b, c) => bounded(a@, MINK_BOUND as int) && bounded(
            b@,
            MINK_BOUND as int,
        ) && bounded(c@, MINK_BOUND as int),
    }
}

proof fn lemma_dot_linear(x: P3, y: P3, d: P3)
    ensures
        sdot(ssub(x, y), d) == sdot(x, d) - sdot(y, d),
        sdot(x, sneg(d)) == -sdot(x, d),
        sdot(d, x) == sdot(x, d),
{
    assert(sdot(ssub(x, y), d) == sdot(x, d) - sdot(y, d)) by (nonlinear_arith);
    assert(sdot(x, sneg(d)) == -sdot(x, d)) by (nonlinear_arith);
    assert(sdot(d, x) == sdot(x, d)) by (nonlinear_arith);
}

impl Hull {
    /// The point of the Minkowski difference `self - other` farthest along `dir`.
    pub fn minkowski_support(&self, other: &Hull, dir: &Vec3) -> (r: Vec3)
        requires
            self.wf(),
            other.wf(),
            bounded(dir@, DIR_BOUND as int),
        ensures
            r == mink_of(self@, other@, dir@),
            r@ == ssub(support_of(self@, dir@)@, support_of(other@, sneg(dir@))@),
            exists|sa: Vec3, sb: Vec3|
                is_support(self@, dir@, sa) && is_support(other@, sneg(dir@), sb) && r@ == ssub(
                    sa@,
                    sb@,
                ),
            is_mink(self@, other@, r@),
            bounded(r@, MINK_BOUND as int),
    {
        let sa = self.support(dir);
        let sb = other.support(&dir.neg());
        proof {
            let i = choose|k: int| 0 <= k < self@.len() && self@[k] == sa;
            let j = choose|k: int| 0 <= k < other@.len() && other@[k] == sb;
            assert(bounded(self@[i]@, COORD_BOUND as int));
            assert(bounded(other@[j]@, COORD_BOUND as int));
            assert(ssub(sa@, sb@) == ssub(self@[i]@, other@[j]@));
        }
        sa.sub(&sb, COORD_BOUND)
    }

    /// Tests whether `self` and `other` overlap, by a GJK search over at most
    /// `max_iterations` support queries. Touching hulls overlap: `Ok(false)` means that a
    /// plane separates the hulls strictly, `Ok(true)` that they share a point.
    pub fn gjk(&self, other: &Hull, max_iterations: u64) -> (r: Result<bool, GjkError>)
        requires
            self.wf(),
            other.wf(),
        ensures
            r == gjk_run(
                self@,
                other@,
                Simplex::Point(mink_of(self@, other@, (1, 0, 0))),
                sneg(mink_of(self@, other@, (1, 0, 0))@),
                max_iterations as nat,
            ),
            r == Ok::<bool, GjkError>(false) ==> strictly_separated(self@, other@),
            r == Ok::<bool, GjkError>(true) ==> origin_in_hull(self@, other@),
            r is Ok ==> (r->Ok_0 <==> !strictly_separated(self@, other@)),
    {
        let start = self.minkowski_support(other, &Vec3::new(1, 0, 0));
        let mut direction = start.neg();
        let mut simplex = Simplex::Point(start);
        let mut n: u64 = 0;
        while n < max_iterations
            invariant
                self.wf(),
                other.wf(),
                n <= max_iterations,
                start == mink_of(self@, other@, (1, 0, 0)),
                bounded(direction@, DIR_BOUND as int),
                simplex_in(self@, other@, simplex),
                simplex_bounded(simplex),
                gjk_run(self@, other@, simplex, direction@, (max_iterations - n) as nat) == gjk_run(
                    self@,
                    other@,
                    Simplex::Point(start),
                    sneg(start@),
                    max_iterations as nat,
                ),
            decreases max_iterations - n,
        {
            let ghost fuel = (max_iterations - n) as nat;
            proof {
                assert(fuel > 0);
                reveal_with_fuel(gjk_run, 2);
            }
            if direction.is_zero() {
                if simplex.holds_origin() {
                    proof {
                        lemma_simplex_certificate(self@, other@, simplex);
                    }
                    return Ok(true);
                }
                return Err(GjkError::Degenerate);
            }
            let support = self.minkowski_support(other, &direction);
            if direction.dot(&support, DIR_BOUND, MINK_BOUND) < 0 {
                proof {
                    let d = direction@;
                    let (sa, sb) = choose|sa: Vec3, sb: Vec3|
                        is_support(self@, d, sa) && is_support(other@, sneg(d), sb)
                            && support@ == ssub(sa@, sb@);
                    lemma_dot_linear(sa@, sb@, d);
                    lemma_dot_linear(support@, support@, d);
                    assert(sdot(support@, d) < 0);
                    assert forall|i: int, j: int|
                        0 <= i < self@.len() && 0 <= j < other@.len() implies sdot(
                        ssub(#[trigger] self@[i]@, #[trigger] other@[j]@),
                        d,
                    ) < 0 by {
                        lemma_dot_linear(self@[i]@, other@[j]@, d);
                        lemma_dot_linear(other@[j]@, sb@, d);
                        lemma_dot_linear(sb@, sb@, d);
                        assert(sdot(self@[i]@, d) <= sdot(sa@, d));
                        assert(sdot(other@[j]@, sneg(d)) <= sdot(sb@, sneg(d)));
                    }
                    assert(strictly_separates(self@, other@, d));
                }
                return Ok(false);
            }
            match simplex.enclose(support) {
                Ok(t) => {
                    if tetrahedron_certificate(&t) {
                        proof {
                            lemma_tetrahedron_certificate(self@, other@, t);
                        }
                        return Ok(true);
                    }
                    return Err(GjkError::Degenerate);
                },
                Err((next_simplex, next_direction)) => {
                    simplex = next_simplex;
                    direction = next_direction;
                },
            }
            n = n + 1;
        }
        Err(GjkError::IterationLimit)
    }
}

/// The Minkowski support point of `ha - hb` along `d`, from the two support vertices.
pub open spec fn mink_of(ha: Seq<Vec3>, hb: Seq<Vec3>, d: P3) -> Vec3 {
    let sa = support_of(ha, d);
    let sb = support_of(hb, sneg(d));
    Vec3 { x: (sa.x - sb.x) as i128, y: (sa.y - sb.y) as i128, z: (sa.z - sb.z) as i128 }
}

/// Some direction along which every point of `ha - hb` lies strictly below zero: a plane
/// separates the hulls with room on both sides.
pub open spec fn strictly_separated(ha: Seq<Vec3>, hb: Seq<Vec3>) -> bool {
    exists|d: P3| strictly_separates(ha, hb, d)
}

pub open spec fn strictly_separates(ha: Seq<Vec3>, hb: Seq<Vec3>, d: P3) -> bool {
    forall|i: int, j: int|
        0 <= i < ha.len() && 0 <= j < hb.len() ==> sdot(
            ssub(#[trigger] ha[i]@, #[trigger] hb[j]@),
            d,
        ) < 0
}

/// Four weights and four points.
pub type Weighted = ((int, int, int, int), (P3, P3, P3, P3));

/// The weights are nonnegative, not all zero, and the weighted sum of the points is the
/// origin: the origin lies in the closed convex hull of the points.
pub open spec fn certifies(c: Weighted) -> bool {
    let ((w0, w1, w2, w3), (p0, p1, p2, p3)) = c;
    &&& w0 >= 0 && w1 >= 0 && w2 >= 0 && w3 >= 0
    &&& w0 + w1 + w2 + w3 > 0
    &&& w0 * p0.0 + w1 * p1.0 + w2 * p2.0 + w3 * p3.0 == 0
    &&& w0 * p0.1 + w1 * p1.1 + w2 * p2.1 + w3 * p3.1 == 0
    &&& w0 * p0.2 + w1 * p1.2 + w2 * p2.2 + w3 * p3.2 == 0
}

/// `certifies` with the weights as given or all negated.
pub open spec fn certifies_signed(c: Weighted) -> bool {
    let ((w0, w1, w2, w3), ps) = c;
    certifies(c) || certifies(((-w0, -w1, -w2, -w3), ps))
}

/// The origin lies in the closed convex hull of the Minkowski difference `ha - hb`, shown
/// by four of its points and weights.
pub open spec fn origin_in_hull(ha: Seq<Vec3>, hb: Seq<Vec3>) -> bool {
    exists|c: Weighted|
        certifies(c) && is_mink(ha, hb, (c.1).0) && is_mink(ha, hb, (c.1).1) && is_mink(
            ha,
            hb,
            (c.1).2,
        ) && is_mink(ha, hb, (c.1).3)
}

/// The determinant of the matrix with rows `a`, `b`, `c`.
pub open spec fn det3(a: P3, b: P3, c: P3) -> int {
    sdot(a, scross(b, c))
}

/// Cramer weights of the tetrahedron's four points.
pub open spec fn tetrahedron_weights(t: Tetrahedron) -> Weighted {
    let (a, b, c, d) = (t.0@, t.1@, t.2@, t.3@);
    ((det3(b, c, d), -det3(a, c, d), det3(a, b, d), -det3(a, b, c)), (a, b, c, d))
}

/// Weights that put the origin on the segment from `p` to `q`, where it lies there.
pub open spec fn segment_weights(p: P3, q: P3) -> Weighted {
    ((sdot(q, ssub(q, p)), sdot(p, ssub(p, q)), 0, 0), (p, q, p, p))
}

/// The origin is `p`, or lies on the segment from `p` to `q`, as its weights show.
pub open spec fn segment_certified(p: P3, q: P3) -> bool {
    certifies(((1, 0, 0, 0), (p, p, p, p))) || certifies_signed(segment_weights(p, q))
}

/// The origin lies on the simplex, shown by a segment of two of its points.
pub open spec fn simplex_certified(s: Simplex) -> bool {
    match s {
        Simplex::Point(a) => certifies(((1, 0, 0, 0), (a@, a@, a@, a@))),
        Simplex::Line(a, b) => segment_certified(a@, b@),
        Simplex::Triangle(a, b, c) => segment_certified(a@, b@) || segment_certified(b@, c@)
            || segment_certified(a@, c@),
    }
}

/// The outcome of the search from simplex `s` and direction `d` with `fuel` support queries.
pub open spec fn gjk_run(ha: Seq<Vec3>, hb: Seq<Vec3>, s: Simplex, d: P3, fuel: nat) -> Result<
    bool,
    GjkError,
>
    decreases fuel,
{
    if fuel == 0 {
        Err(GjkError::IterationLimit)
    } else if szero(d) {
        if simplex_certified(s) {
            Ok(true)
        } else {
            Err(GjkError::Degenerate)
        }
    } else {
        let sp = mink_of(ha, hb, d);
        if sdot(d, sp@) < 0 {
            Ok(false)
        } else {
            match enclose_step(s, sp) {
                Ok(t) => if certifies_signed(tetrahedron_weights(t)) {
                    Ok(true)
                } else {
                    Err(GjkError::Degenerate)
                },
                Err((s2, d2)) => gjk_run(ha, hb, s2, d2, (fuel - 1) as nat),
            }
        }
    }
}

/// Bound on the magnitude of a certificate weight.
const WEIGHT_BOUND: i128 = 0x8_0000_0000_0000_0000;

/// Whether the weights `w` (as given) certify that the origin lies in the hull of the points.
fn certify(w: (i128, i128, i128, i128), p0: &Vec3, p1: &Vec3, p2: &Vec3, p3: &Vec3) -> (r: bool)
    requires
        -WEIGHT_BOUND <= w.0 <= WEIGHT_BOUND,
        -WEIGHT_BOUND <= w.1 <= WEIGHT_BOUND,
        -WEIGHT_BOUND <= w.2 <= WEIGHT_BOUND,
        -WEIGHT_BOUND <= w.3 <= WEIGHT_BOUND,
        bounded(p0@, MINK_BOUND as int),
        bounded(p1@, MINK_BOUND as int),
        bounded(p2@, MINK_BOUND as int),
        bounded(p3@, MINK_BOUND as int),
    ensures
        r == certifies(((w.0 as int, w.1 as int, w.2 as int, w.3 as int), (p0@, p1@, p2@, p3@))),
{
    let (w0, w1, w2, w3) = w;
    if w0 < 0 || w1 < 0 || w2 < 0 || w3 < 0 || w0 + w1 + w2 + w3 <= 0 {
        return false;
    }
    proof {
        let (wb, mb) = (WEIGHT_BOUND as int, MINK_BOUND as int);
        lemma_mul_bound(w0 as int, p0.x as int, wb, mb);
        lemma_mul_bound(w1 as int, p1.x as int, wb, mb);
        lemma_mul_bound(w2 as int, p2.x as int, wb, mb);
        lemma_mul_bound(w3 as int, p3.x as int, wb, mb);
        lemma_mul_bound(w0 as int, p0.y as int, wb, mb);
        lemma_mul_bound(w1 as int, p1.y as int, wb, mb);
        lemma_mul_bound(w2 as int, p2.y as int, wb, mb);
        lemma_mul_bound(w3 as int, p3.y as int, wb, mb);
        lemma_mul_bound(w0 as int, p0.z as int, wb, mb);
        lemma_mul_bound(w1 as int, p1.z as int, wb, mb);
        lemma_mul_bound(w2 as int, p2.z as int, wb, mb);
        lemma_mul_bound(w3 as int, p3.z as int, wb, mb);
    }
    w0 * p0.x + w1 * p1.x + w2 * p2.x + w3 * p3.x == 0 && w0 * p0.y + w1 * p1.y + w2 * p2.y + w3
        * p3.y == 0 && w0 * p0.z + w1 * p1.z + w2 * p2.z + w3 * p3.z == 0
}

/// Whether the weights `w`, or all of them negated, certify the origin in the hull.
fn certify_signed(w: (i128, i128, i128, i128), p0: &Vec3, p1: &Vec3, p2: &Vec3, p3: &Vec3) -> (r:
    bool)
    requires
        -WEIGHT_BOUND <= w.0 <= WEIGHT_BOUND,
        -WEIGHT_BOUND <= w.1 <= WEIGHT_BOUND,
        -WEIGHT_BOUND <= w.2 <= WEIGHT_BOUND,
        -WEIGHT_BOUND <= w.3 <= WEIGHT_BOUND,
        bounded(p0@, MINK_BOUND as int),
        bounded(p1@, MINK_BOUND as int),
        bounded(p2@, MINK_BOUND as int),
        bounded(p3@, MINK_BOUND as int),
    ensures
        r == certifies_signed(
            ((w.0 as int, w.1 as int, w.2 as int, w.3 as int), (p0@, p1@, p2@, p3@)),
        ),
{
    certify(w, p0, p1, p2, p3) || certify((-w.0, -w.1, -w.2, -w.3), p0, p1, p2, p3)
}

fn det(a: &Vec3, b: &Vec3, c: &Vec3) -> (r: i128)
    requires
        bounded(a@, MINK_BOUND as int),
        bounded(b@, MINK_BOUND as int),
        bounded(c@, MINK_BOUND as int),
    ensures
        r == det3(a@, b@, c@),
        -WEIGHT_BOUND <= r <= WEIGHT_BOUND,
{
    a.dot(&b.cross(c, MINK_BOUND, MINK_BOUND), MINK_BOUND, 0x800_0000_0000)
}

/// The origin is `p`, or lies on the segment from `p` to `q`.
fn segment_certificate(p: &Vec3, q: &Vec3) -> (r: bool)
    requires
        bounded(p@, MINK_BOUND as int),
        bounded(q@, MINK_BOUND as int),
    ensures
        r == segment_certified(p@, q@),
{
    let wp = q.dot(&q.sub(p, MINK_BOUND), MINK_BOUND, EDGE_BOUND);
    let wq = p.dot(&p.sub(q, MINK_BOUND), MINK_BOUND, EDGE_BOUND);
    certify((1, 0, 0, 0), p, p, p, p) || certify_signed((wp, wq, 0, 0), p, q, p, p)
}

/// The origin lies in the closed tetrahedron `t`, by its Cramer weights.
fn tetrahedron_certificate(t: &Tetrahedron) -> (r: bool)
    requires
        bounded(t.0@, MINK_BOUND as int),
        bounded(t.1@, MINK_BOUND as int),
        bounded(t.2@, MINK_BOUND as int),
        bounded(t.3@, MINK_BOUND as int),
    ensures
        r == certifies_signed(tetrahedron_weights(*t)),
{
    let (a, b, c, d) = (&t.0, &t.1, &t.2, &t.3);
    let w = (det(b, c, d), -det(a, c, d), det(a, b, d), -det(a, b, c));
    certify_signed(w, a, b, c, d)
}

proof fn lemma_scaled_dot(w: int, p: P3, d: P3)
    ensures
        w * sdot(p, d) == (w * p.0) * d.0 + (w * p.1) * d.1 + (w * p.2) * d.2,
{
    let (a, b, c) = (p.0 * d.0, p.1 * d.1, p.2 * d.2);
    assert(w * (a + b + c) == w * a + w * b + w * c) by (nonlinear_arith);
    assert(w * (p.0 * d.0) == (w * p.0) * d.0) by (nonlinear_arith);
    assert(w * (p.1 * d.1) == (w * p.1) * d.1) by (nonlinear_arith);
    assert(w * (p.2 * d.2) == (w * p.2) * d.2) by (nonlinear_arith);
}

proof fn lemma_sum_times(a: int, b: int, c: int, e: int, x: int)
    ensures
        (a + b + c + e) * x == a * x + b * x + c * x + e * x,
{
    assert((a + b + c + e) * x == a * x + b * x + c * x + e * x) by (nonlinear_arith);
}

proof fn lemma_sign(w: int, s: int)
    requires
        w >= 0,
        s < 0,
    ensures
        w * s <= 0,
        w > 0 ==> w * s < 0,
{
    assert(w * s <= 0) by (nonlinear_arith)
        requires
            w >= 0,
            s < 0,
    ;
    if w > 0 {
        assert(w * s < 0) by (nonlinear_arith)
            requires
                w > 0,
                s < 0,
        ;
    }
}

/// Nonnegative weights, not all zero, cannot sum points that all lie strictly below
/// zero along `d` to the origin.
proof fn lemma_certified_not_below(c: Weighted, d: P3)
    requires
        certifies(c),
    ensures
        !(sdot((c.1).0, d) < 0 && sdot((c.1).1, d) < 0 && sdot((c.1).2, d) < 0 && sdot(
            (c.1).3,
            d,
        ) < 0),
{
    let ((w0, w1, w2, w3), (p0, p1, p2, p3)) = c;
    if sdot(p0, d) < 0 && sdot(p1, d) < 0 && sdot(p2, d) < 0 && sdot(p3, d) < 0 {
        lemma_scaled_dot(w0, p0, d);
        lemma_scaled_dot(w1, p1, d);
        lemma_scaled_dot(w2, p2, d);
        lemma_scaled_dot(w3, p3, d);
        lemma_sum_times(w0 * p0.0, w1 * p1.0, w2 * p2.0, w3 * p3.0, d.0);
        lemma_sum_times(w0 * p0.1, w1 * p1.1, w2 * p2.1, w3 * p3.1, d.1);
        lemma_sum_times(w0 * p0.2, w1 * p1.2, w2 * p2.2, w3 * p3.2, d.2);
        lemma_sign(w0, sdot(p0, d));
        lemma_sign(w1, sdot(p1, d));
        lemma_sign(w2, sdot(p2, d));
        lemma_sign(w3, sdot(p3, d));
        assert(w0 * sdot(p0, d) + w1 * sdot(p1, d) + w2 * sdot(p2, d) + w3 * sdot(p3, d) == 0);
    }
}

/// A point of `ha - hb` lies strictly below zero along a strictly separating direction.
proof fn lemma_mink_below(ha: Seq<Vec3>, hb: Seq<Vec3>, d: P3, p: P3)
    requires
        strictly_separates(ha, hb, d),
        is_mink(ha, hb, p),
    ensures
        sdot(p, d) < 0,
{
    let (i, j) = choose|i: int, j: int|
        0 <= i < ha.len() && 0 <= j < hb.len() && p == ssub(#[trigger] ha[i]@, #[trigger] hb[j]@);
    assert(sdot(ssub(ha[i]@, hb[j]@), d) < 0);
}

/// Hulls that share a point are not strictly separated.
pub proof fn lemma_in_hull_not_separated(ha: Seq<Vec3>, hb: Seq<Vec3>)
    requires
        origin_in_hull(ha, hb),
    ensures
        !strictly_separated(ha, hb),
{
    if strictly_separated(ha, hb) {
        let d = choose|d: P3| strictly_separates(ha, hb, d);
        let c = choose|c: Weighted|
            certifies(c) && is_mink(ha, hb, (c.1).0) && is_mink(ha, hb, (c.1).1) && is_mink(
                ha,
                hb,
                (c.1).2,
            ) && is_mink(ha, hb, (c.1).3);
        lemma_mink_below(ha, hb, d, (c.1).0);
        lemma_mink_below(ha, hb, d, (c.1).1);
        lemma_mink_below(ha, hb, d, (c.1).2);
        lemma_mink_below(ha, hb, d, (c.1).3);
        lemma_certified_not_below(c, d);
    }
}

/// A certified point or segment of a simplex of Minkowski points puts the origin in the hull.
proof fn lemma_simplex_certificate(ha: Seq<Vec3>, hb: Seq<Vec3>, s: Simplex)
    requires
        simplex_in(ha, hb, s),
        simplex_certified(s),
    ensures
        origin_in_hull(ha, hb),
        !strictly_separated(ha, hb),
{
    let (p, q) = match s {
        Simplex::Point(a) => (a@, a@),
        Simplex::Line(a, b) => (a@, b@),
        Simplex::Triangle(a, b, c) => if segment_certified(a@, b@) {
            (a@, b@)
        } else if segment_certified(b@, c@) {
            (b@, c@)
        } else {
            (a@, c@)
        },
    };
    assert(is_mink(ha, hb, p) && is_mink(ha, hb, q) && segment_certified(p, q));
    lemma_segment_in_hull(ha, hb, p, q);
    lemma_in_hull_not_separated(ha, hb);
}

proof fn lemma_segment_in_hull(ha: Seq<Vec3>, hb: Seq<Vec3>, p: P3, q: P3)
    requires
        is_mink(ha, hb, p),
        is_mink(ha, hb, q),
        segment_certified(p, q),
    ensures
        origin_in_hull(ha, hb),
{
    let ((w0, w1, w2, w3), ps) = segment_weights(p, q);
    if certifies(((1, 0, 0, 0), (p, p, p, p))) {
        let c: Weighted = ((1, 0, 0, 0), (p, p, p, p));
        assert(certifies(c) && is_mink(ha, hb, (c.1).0) && is_mink(ha, hb, (c.1).1) && is_mink(
            ha,
            hb,
            (c.1).2,
        ) && is_mink(ha, hb, (c.1).3));
    } else if certifies(segment_weights(p, q)) {
        let c = segment_weights(p, q);
        assert(certifies(c) && is_mink(ha, hb, (c.1).0) && is_mink(ha, hb, (c.1).1) && is_mink(
            ha,
            hb,
            (c.1).2,
        ) && is_mink(ha, hb, (c.1).3));
    } else {
        let c: Weighted = ((-w0, -w1, -w2, -w3), ps);
        assert(certifies(c) && is_mink(ha, hb, (c.1).0) && is_mink(ha, hb, (c.1).1) && is_mink(
            ha,
            hb,
            (c.1).2,
        ) && is_mink(ha, hb, (c.1).3));
    }
}

/// A certified tetrahedron of Minkowski points puts the origin in the hull.
proof fn lemma_tetrahedron_certificate(ha: Seq<Vec3>, hb: Seq<Vec3>, t: Tetrahedron)
    requires
        is_mink(ha, hb, t.0@),
        is_mink(ha, hb, t.1@),
        is_mink(ha, hb, t.2@),
        is_mink(ha, hb, t.3@),
        certifies_signed(tetrahedron_weights(t)),
    ensures
        origin_in_hull(ha, hb),
        !strictly_separated(ha, hb),
{
    let ((w0, w1, w2, w3), ps) = tetrahedron_weights(t);
    let c: Weighted = if certifies(tetrahedron_weights(t)) {
        tetrahedron_weights(t)
    } else {
        ((-w0, -w1, -w2, -w3), ps)
    };
    assert(certifies(c) && is_mink(ha, hb, (c.1).0) && is_mink(ha, hb, (c.1).1) && is_mink(
        ha,
        hb,
        (c.1).2,
    ) && is_mink(ha, hb, (c.1).3));
    lemma_in_hull_not_separated(ha, hb);
}

/// Strict separation does not depend on the order of the two hulls. With the contract of
/// `Hull::gjk`, two tests of the same pair in either order that both decide agree.
pub proof fn lemma_separation_symmetric(ha: Seq<Vec3>, hb: Seq<Vec3>)
    ensures
        strictly_separated(ha, hb) == strictly_separated(hb, ha),
{
    if strictly_separated(ha, hb) {
        let d = choose|d: P3| strictly_separates(ha, hb, d);
        lemma_flip_separates(ha, hb, d);
    }
    if strictly_separated(hb, ha) {
        let d = choose|d: P3| strictly_separates(hb, ha, d);
        lemma_flip_separates(hb, ha, d);
    }
}

proof fn lemma_flip_separates(ha: Seq<Vec3>, hb: Seq<Vec3>, d: P3)
    requires
        strictly_separates(ha, hb, d),
    ensures
        strictly_separates(hb, ha, sneg(d)),
{
    assert forall|j: int, i: int| 0 <= j < hb.len() && 0 <= i < ha.len() implies sdot(
        ssub(#[trigger] hb[j]@, #[trigger] ha[i]@),
        sneg(d),
    ) < 0 by {
        let (x, y) = (ha[i]@, hb[j]@);
        assert(sdot(ssub(y, x), sneg(d)) == sdot(ssub(x, y), d)) by (nonlinear_arith);
        assert(sdot(ssub(x, y), d) < 0);
    }
}

} // verus!



