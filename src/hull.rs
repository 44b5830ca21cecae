use vstd::prelude::*;

use crate::vector::{bounded, sdot, Vec3, P3, COORD_BOUND};

verus! {

/// Why a set of points was refused as a hull.
#[derive(Clone, Copy, Debug, PartialEq, Eq)]
pub enum HullError {
    /// The hull has no vertex.
    Empty,
    /// A coordinate lies outside `-COORD_BOUND ..= COORD_BOUND`.
    OutOfRange,
}

/// A convex hull given by its vertices in world coordinates.
#[derive(Debug)]
pub struct Hull {
    pub points: Vec<Vec3>,
}

/// Every point of `s` lies within the coordinate bound.
pub open spec fn all_in_range(s: Seq<Vec3>) -> bool {
    forall|i: int| 0 <= i < s.len() ==> bounded(#[trigger] s[i]@, COORD_BOUND as int)
}

/// `p` lies within the coordinate bound.
pub open spec fn in_range(p: Vec3) -> bool {
    bounded(p@, COORD_BOUND as int)
}

impl View for Hull {
    type V = Seq<Vec3>;

    open spec fn view(&self) -> Seq<Vec3> {
        self.points@
    }
}

impl Hull {
    pub open spec fn wf(&self) -> bool {
        self@.len() > 0 && all_in_range(self@)
    }

    /// Builds a hull from its vertices; refuses an empty list and coordinates out of range.
    pub fn new(points: Vec<Vec3>) -> (r: Result<Hull, HullError>)
        ensures
            points@.len() == 0 ==> r == Err::<Hull, HullError>(HullError::Empty),
            points@.len() > 0 && !all_in_range(points@) ==> r == Err::<Hull, HullError>(
                HullError::OutOfRange,
            ),
            points@.len() > 0 && all_in_range(points@) ==> r is Ok && r->Ok_0@ == points@,
            r is Ok ==> r->Ok_0.wf(),
    {
        if points.len() == 0 {
            return Err(HullError::Empty);
        }
        let mut i: usize = 0;
        while i < points.len()
            invariant
                0 <= i <= points@.len(),
                forall|k: int| 0 <= k < i ==> bounded(#[trigger] points@[k]@, COORD_BOUND as int),
            decreases points@.len() - i,
        {
            let p = points[i];
            if p.x < -COORD_BOUND || p.x > COORD_BOUND || p.y < -COORD_BOUND || p.y > COORD_BOUND
                || p.z < -COORD_BOUND || p.z > COORD_BOUND {
                proof {
                    assert(!bounded(points@[i as int]@, COORD_BOUND as int));
                }
                return Err(HullError::OutOfRange);
            }
            i = i + 1;
        }
        Ok(Hull { points })
    }

    /// The axis-aligned cube with the given center and half extent, vertices in the order
    /// (-,-,-), (+,-,-), (-,+,-), (+,+,-), (-,-,+), (+,-,+), (-,+,+), (+,+,+).
    pub fn cube(center: Vec3, half: i128) -> (r: Result<Hull, HullError>)
        requires
            0 <= half <= COORD_BOUND,
            bounded(center@, COORD_BOUND as int),
        ensures
            r is Ok <==> bounded(center@, COORD_BOUND - half),
            r is Err ==> r == Err::<Hull, HullError>(HullError::OutOfRange),
            r is Ok ==> r->Ok_0@.map_values(|p: Vec3| p@) == cube_points(center@, half as int),
            r is Ok ==> r->Ok_0.wf(),
    {
        let (x, y, z) = (center.x, center.y, center.z);
        let mut points: Vec<Vec3> = Vec::new();
        points.push(Vec3::new(x - half, y - half, z - half));
        points.push(Vec3::new(x + half, y - half, z - half));
        points.push(Vec3::new(x - half, y + half, z - half));
        points.push(Vec3::new(x + half, y + half, z - half));
        points.push(Vec3::new(x - half, y - half, z + half));
        points.push(Vec3::new(x + half, y - half, z + half));
        points.push(Vec3::new(x - half, y + half, z + half));
        points.push(Vec3::new(x + half, y + half, z + half));
        let r = Hull::new(points);
        proof {
            let s = cube_points(center@, half as int);
            assert(points@.len() == 8);
            assert(forall|k: int| 0 <= k < 8 ==> (#[trigger] points@[k])@ == s[k]);
            assert(points@.map_values(|p: Vec3| p@) =~= s);
            if bounded(center@, COORD_BOUND - half) {
                assert(all_in_range(points@));
            } else {
                if center.x > COORD_BOUND - half || center.y > COORD_BOUND - half || center.z
                    > COORD_BOUND - half {
                    assert(!in_range(points@[7]));
                } else {
                    assert(!in_range(points@[0]));
                }
            }
        }
        r
    }

    pub fn points(&self) -> (r: &Vec<Vec3>)
        ensures
            r@ == self@,
    {
        &self.points
    }

    /// The vertex farthest along `dir`; among equally far vertices, the last one.
    pub fn support(&self, dir: &Vec3) -> (r: Vec3)
        requires
            self.wf(),
            bounded(dir@, DIR_BOUND as int),
        ensures
            r == support_of(self@, dir@),
            is_support(self@, dir@, r),
            exists|k: int|
                0 <= k < self@.len() && self@[k] == r && forall|j: int|
                    k < j < self@.len() ==> sdot((#[trigger] self@[j])@, dir@) < sdot(r@, dir@),
    {
        let mut best: Vec3 = self.points[0];
        let ghost mut bi: int = 0;
        let mut best_dot: i128 = best.dot(dir, COORD_BOUND, DIR_BOUND);
        let mut i: usize = 1;
        while i < self.points.len()
            invariant
                self.wf(),
                bounded(dir@, DIR_BOUND as int),
                1 <= i <= self@.len(),
                best_dot == sdot(best@, dir@),
                0 <= bi < i,
                self@[bi] == best,
                best == sup_upto(self@, dir@, i as nat),
                forall|j: int| bi < j < i ==> sdot((#[trigger] self@[j])@, dir@) < best_dot,
                forall|k: int| 0 <= k < i ==> sdot((#[trigger] self@[k])@, dir@) <= best_dot,
            decreases self@.len() - i,
        {
            let p = self.points[i];
            let d = p.dot(dir, COORD_BOUND, DIR_BOUND);
            if d >= best_dot {
                best = p;
                best_dot = d;
                proof {
                    bi = i as int;
                }
            }
            i = i + 1;
        }
        best
    }
}

/// Bound on the magnitude of a search direction's components.
pub const DIR_BOUND: i128 = 0x10_0000_0000_0000_0000;

/// The eight vertices of the cube with center `c` and half extent `h`.
pub open spec fn cube_points(c: P3, h: int) -> Seq<P3> {
    seq![
        (c.0 - h, c.1 - h, c.2 - h),
        (c.0 + h, c.1 - h, c.2 - h),
        (c.0 - h, c.1 + h, c.2 - h),
        (c.0 + h, c.1 + h, c.2 - h),
        (c.0 - h, c.1 - h, c.2 + h),
        (c.0 + h, c.1 - h, c.2 + h),
        (c.0 - h, c.1 + h, c.2 + h),
        (c.0 + h, c.1 + h, c.2 + h),
    ]
}

/// Among the first `n` vertices of `s`, the one farthest along `d`; of equally far
/// vertices, the last.
pub open spec fn sup_upto(s: Seq<Vec3>, d: P3, n: nat) -> Vec3
    decreases n,
{
    if n <= 1 {
        s[0]
    } else {
        let b = sup_upto(s, d, (n - 1) as nat);
        if sdot(s[n - 1]@, d) >= sdot(b@, d) {
            s[n - 1]
        } else {
            b
        }
    }
}

/// The support vertex of `s` along `d`: farthest, and the last of equally far vertices.
pub open spec fn support_of(s: Seq<Vec3>, d: P3) -> Vec3 {
    sup_upto(s, d, s.len())
}

/// `r` is a vertex of `s` that is at least as far along `d` as every vertex of `s`.
pub open spec fn is_support(s: Seq<Vec3>, d: P3, r: Vec3) -> bool {
    &&& exists|k: int| 0 <= k < s.len() && s[k] == r
    &&& forall|k: int| 0 <= k < s.len() ==> sdot((#[trigger] s[k])@, d) <= sdot(r@, d)
}

} // verus!
