use vstd::prelude::*;

verus! {

/// Largest magnitude of a hull coordinate, in fixed-point units.
pub const COORD_BOUND: i128 = 0x10_0000;

/// A vector of integers, the model of a `Vec3`.
pub type P3 = (int, int, int);

/// Dot product.
pub open spec fn sdot(a: P3, b: P3) -> int {
    a.0 * b.0 + a.1 * b.1 + a.2 * b.2
}

/// Cross product.
pub open spec fn scross(a: P3, b: P3) -> P3 {
    (a.1 * b.2 - a.2 * b.1, a.2 * b.0 - a.0 * b.2, a.0 * b.1 - a.1 * b.0)
}

/// Difference.
pub open spec fn ssub(a: P3, b: P3) -> P3 {
    (a.0 - b.0, a.1 - b.1, a.2 - b.2)
}

/// Negation.
pub open spec fn sneg(a: P3) -> P3 {
    (-a.0, -a.1, -a.2)
}

/// The zero vector.
pub open spec fn szero(a: P3) -> bool {
    a.0 == 0 && a.1 == 0 && a.2 == 0
}

/// Every component of `a` has magnitude at most `m`.
pub open spec fn bounded(a: P3, m: int) -> bool {
    -m <= a.0 <= m && -m <= a.1 <= m && -m <= a.2 <= m
}

/// A vector of integer (fixed-point) coordinates.
#[derive(Clone, Copy, Debug, PartialEq, Eq)]
pub struct Vec3 {
    pub x: i128,
    pub y: i128,
    pub z: i128,
}

impl View for Vec3 {
    type V = P3;

    open spec fn view(&self) -> P3 {
        (self.x as int, self.y as int, self.z as int)
    }
}

pub proof fn lemma_mul_bound(a: int, b: int, p: int, q: int)
    requires
        -p <= a <= p,
        -q <= b <= q,
    ensures
        -(p * q) <= a * b <= p * q,
{
    assert(-(p * q) <= a * b <= p * q) by (nonlinear_arith)
        requires
            -p <= a <= p,
            -q <= b <= q,
    ;
}

impl Vec3 {
    pub fn new(x: i128, y: i128, z: i128) -> (r: Vec3)
        ensures
            r@ == (x as int, y as int, z as int),
    {
        Vec3 { x, y, z }
    }

    pub fn zero() -> (r: Vec3)
        ensures
            szero(r@),
    {
        Vec3 { x: 0, y: 0, z: 0 }
    }

    pub fn is_zero(&self) -> (r: bool)
        ensures
            r == szero(self@),
    {
        self.x == 0 && self.y == 0 && self.z == 0
    }

    /// `-self`.
    pub fn neg(&self) -> (r: Vec3)
        requires
            bounded(self@, i128::MAX as int),
        ensures
            r@ == sneg(self@),
    {
        Vec3 { x: -self.x, y: -self.y, z: -self.z }
    }

    /// `self - o`; `m` bounds the components of both operands.
    pub fn sub(&self, o: &Vec3, m: i128) -> (r: Vec3)
        requires
            0 <= m <= 0x1000_0000_0000_0000_0000_0000_0000,
            bounded(self@, m as int),
            bounded(o@, m as int),
        ensures
            r@ == ssub(self@, o@),
            bounded(r@, 2 * m),
    {
        Vec3 { x: self.x - o.x, y: self.y - o.y, z: self.z - o.z }
    }

    /// The dot product; `p` and `q` bound the components of `self` and `o`.
    pub fn dot(&self, o: &Vec3, p: i128, q: i128) -> (r: i128)
        requires
            0 <= p,
            0 <= q,
            p * q <= 0x1000_0000_0000_0000_0000_0000_0000,
            bounded(self@, p as int),
            bounded(o@, q as int),
        ensures
            r == sdot(self@, o@),
            -3 * (p * q) <= r <= 3 * (p * q),
    {
        proof {
            lemma_mul_bound(self.x as int, o.x as int, p as int, q as int);
            lemma_mul_bound(self.y as int, o.y as int, p as int, q as int);
            lemma_mul_bound(self.z as int, o.z as int, p as int, q as int);
            let pq = p * q;
            let (a0, a1, a2) = (self.x as int * o.x as int, self.y as int * o.y as int, self.z as int * o.z as int);
            assert(-pq <= a0 <= pq);
            assert(-pq <= a1 <= pq);
            assert(-pq <= a2 <= pq);
            assert(sdot(self@, o@) == a0 + a1 + a2);
            assert(-3 * pq <= a0 + a1 + a2 <= 3 * pq) by (nonlinear_arith)
                requires
                    -pq <= a0 <= pq,
                    -pq <= a1 <= pq,
                    -pq <= a2 <= pq,
            ;
        }
        self.x * o.x + self.y * o.y + self.z * o.z
    }

    /// The cross product; `p` and `q` bound the components of `self` and `o`.
    pub fn cross(&self, o: &Vec3, p: i128, q: i128) -> (r: Vec3)
        requires
            0 <= p,
            0 <= q,
            p * q <= 0x1000_0000_0000_0000_0000_0000_0000,
            bounded(self@, p as int),
            bounded(o@, q as int),
        ensures
            r@ == scross(self@, o@),
            bounded(r@, 2 * (p * q)),
    {
        proof {
            lemma_mul_bound(self.x as int, o.y as int, p as int, q as int);
            lemma_mul_bound(self.x as int, o.z as int, p as int, q as int);
            lemma_mul_bound(self.y as int, o.x as int, p as int, q as int);
            lemma_mul_bound(self.y as int, o.z as int, p as int, q as int);
            lemma_mul_bound(self.z as int, o.x as int, p as int, q as int);
            lemma_mul_bound(self.z as int, o.y as int, p as int, q as int);
        }
        Vec3 {
            x: self.y * o.z - self.z * o.y,
            y: self.z * o.x - self.x * o.z,
            z: self.x * o.y - self.y * o.x,
        }
    }
}

} // verus!
