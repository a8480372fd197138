//! Triangles on the integer grid, with an exact rational texel projection.

use vstd::prelude::*;

use crate::aabb::Aabb;
use crate::geometry::{lemma_mul_bound, spec_dot, Point, Vector, COORD_LIMIT};

verus! {

/// Bound on the numerators and denominator a texel projection can produce:
/// `288 * COORD_LIMIT^4`.
pub const TEXEL_LIMIT: i128 = 288 * 1048576 * 1048576 * 1048576 * 1048576;

/// A point in a triangle's texture space, as an exact rational pair
/// `(u, v) = (u_num / den, v_num / den)` with a shared denominator.
#[derive(Clone, Copy, Debug, PartialEq, Eq, Structural)]
pub struct Texel {
    pub u_num: i128,
    pub v_num: i128,
    pub den: i128,
}

/// The rationals `a_num / a_den` and `b_num / b_den` are equal, by cross
/// multiplication.
pub open spec fn same_ratio(a_num: int, a_den: int, b_num: int, b_den: int) -> bool {
    a_num * b_den == b_num * a_den
}

impl Texel {
    /// Components within the range a projection of in-range points yields.
    pub open spec fn wf(self) -> bool {
        &&& -TEXEL_LIMIT <= self.u_num <= TEXEL_LIMIT
        &&& -TEXEL_LIMIT <= self.v_num <= TEXEL_LIMIT
        &&& -TEXEL_LIMIT <= self.den <= TEXEL_LIMIT
    }

    /// Whether this texel is exactly the rational pair
    /// `(u_num / u_den, v_num / v_den)`.
    pub fn represents(&self, u_num: i64, u_den: i64, v_num: i64, v_den: i64) -> (r: bool)
        requires
            self.wf(),
            -1073741824 <= u_num <= 1073741824,
            -1073741824 <= u_den <= 1073741824,
            -1073741824 <= v_num <= 1073741824,
            -1073741824 <= v_den <= 1073741824,
        ensures
            r == (same_ratio(self.u_num as int, self.den as int, u_num as int, u_den as int)
                && same_ratio(self.v_num as int, self.den as int, v_num as int, v_den as int)),
    {
        proof {
            lemma_mul_bound(self.u_num as int, u_den as int, TEXEL_LIMIT as int, 1073741824);
            lemma_mul_bound(u_num as int, self.den as int, 1073741824, TEXEL_LIMIT as int);
            lemma_mul_bound(self.v_num as int, v_den as int, TEXEL_LIMIT as int, 1073741824);
            lemma_mul_bound(v_num as int, self.den as int, 1073741824, TEXEL_LIMIT as int);
        }
        self.u_num * (u_den as i128) == (u_num as i128) * self.den && self.v_num * (v_den as i128)
            == (v_num as i128) * self.den
    }
}

/// A triangle, stored as one corner and the two edges leaving it.
#[derive(Clone, Copy, Debug, PartialEq, Eq, Structural)]
pub struct Triangle {
    c0: Point,
    c0c1: Vector,
    c0c2: Vector,
}

/// The difference `p - q` of two in-range points, as a vector.
pub open spec fn spec_sub(p: Point, q: Point) -> Vector {
    Vector { x: (p.x - q.x) as i64, y: (p.y - q.y) as i64, z: (p.z - q.z) as i64 }
}

/// Cramer's rule on the Gram system of the projection: the computed
/// numerators solve the normal equations against the denominator.
proof fn lemma_cramer(d00: int, d01: int, d02: int, d11: int, d12: int)
    ensures
        (d11 * d02 - d01 * d12) * d00 + (d00 * d12 - d01 * d02) * d01 == d02 * (d00 * d11 - d01
            * d01),
        (d11 * d02 - d01 * d12) * d01 + (d00 * d12 - d01 * d02) * d11 == d12 * (d00 * d11 - d01
            * d01),
{
    assert((d11 * d02 - d01 * d12) * d00 == d00 * d11 * d02 - d00 * d01 * d12) by (nonlinear_arith);
    assert((d00 * d12 - d01 * d02) * d01 == d00 * d01 * d12 - d01 * d01 * d02) by (nonlinear_arith);
    assert(d02 * (d00 * d11 - d01 * d01) == d00 * d11 * d02 - d01 * d01 * d02) by (nonlinear_arith);
    assert((d11 * d02 - d01 * d12) * d01 == d01 * d11 * d02 - d01 * d01 * d12) by (nonlinear_arith);
    assert((d00 * d12 - d01 * d02) * d11 == d00 * d11 * d12 - d01 * d11 * d02) by (nonlinear_arith);
    assert(d12 * (d00 * d11 - d01 * d01) == d00 * d11 * d12 - d01 * d01 * d12) by (nonlinear_arith);
}

/// The dot product of two vectors whose components may span twice the grid
/// bound (edges and corner differences), computed exactly.
fn dot_wide(a: &Vector, b: &Vector) -> (r: i128)
    requires
        -2 * COORD_LIMIT <= a.x <= 2 * COORD_LIMIT,
        -2 * COORD_LIMIT <= a.y <= 2 * COORD_LIMIT,
        -2 * COORD_LIMIT <= a.z <= 2 * COORD_LIMIT,
        -2 * COORD_LIMIT <= b.x <= 2 * COORD_LIMIT,
        -2 * COORD_LIMIT <= b.y <= 2 * COORD_LIMIT,
        -2 * COORD_LIMIT <= b.z <= 2 * COORD_LIMIT,
    ensures
        r == spec_dot(*a, *b),
        -12 * COORD_LIMIT as int * COORD_LIMIT as int <= r as int <= 12 * COORD_LIMIT as int
            * COORD_LIMIT as int,
{
    proof {
        lemma_mul_bound(a.x as int, b.x as int, 2097152, 2097152);
        lemma_mul_bound(a.y as int, b.y as int, 2097152, 2097152);
        lemma_mul_bound(a.z as int, b.z as int, 2097152, 2097152);
    }
    let px: i64 = a.x * b.x;
    let py: i64 = a.y * b.y;
    let pz: i64 = a.z * b.z;
    (px as i128) + (py as i128) + (pz as i128)
}

impl Triangle {
    /// The stored corner.
    pub closed spec fn corner(self) -> Point {
        self.c0
    }

    /// The edge from the stored corner to the second corner.
    pub closed spec fn edge1(self) -> Vector {
        self.c0c1
    }

    /// The edge from the stored corner to the third corner.
    pub closed spec fn edge2(self) -> Vector {
        self.c0c2
    }

    /// The corner is in range and both opposite corners land in range.
    pub closed spec fn wf(self) -> bool {
        &&& self.c0.wf()
        &&& -COORD_LIMIT <= self.c0.x + self.c0c1.x <= COORD_LIMIT
        &&& -COORD_LIMIT <= self.c0.y + self.c0c1.y <= COORD_LIMIT
        &&& -COORD_LIMIT <= self.c0.z + self.c0c1.z <= COORD_LIMIT
        &&& -COORD_LIMIT <= self.c0.x + self.c0c2.x <= COORD_LIMIT
        &&& -COORD_LIMIT <= self.c0.y + self.c0c2.y <= COORD_LIMIT
        &&& -COORD_LIMIT <= self.c0.z + self.c0c2.z <= COORD_LIMIT
    }

    /// Creates a triangle from its three corners.
    pub fn new(c0: Point, c1: Point, c2: Point) -> (t: Triangle)
        requires
            c0.wf(),
            c1.wf(),
            c2.wf(),
        ensures
            t.corner() == c0,
            t.edge1() == spec_sub(c1, c0),
            t.edge2() == spec_sub(c2, c0),
            t.wf(),
    {
        Triangle {
            c0,
            c0c1: Vector { x: c1.x - c0.x, y: c1.y - c0.y, z: c1.z - c0.z },
            c0c2: Vector { x: c2.x - c0.x, y: c2.y - c0.y, z: c2.z - c0.z },
        }
    }

    /// The barycentric solution of `point - corner = u edge1 + v edge2`
    /// in the triangle's plane: the exact Cramer solution of the Gram
    /// normal equations, as a rational texel.
    fn barycentric(&self, point: &Point) -> (t: Texel)
        requires
            self.wf(),
            point.wf(),
        ensures
            ({
                let d00 = spec_dot(self.edge2(), self.edge2());
                let d01 = spec_dot(self.edge2(), self.edge1());
                let d02 = spec_dot(self.edge2(), spec_sub(*point, self.corner()));
                let d11 = spec_dot(self.edge1(), self.edge1());
                let d12 = spec_dot(self.edge1(), spec_sub(*point, self.corner()));
                &&& t.den == d00 * d11 - d01 * d01
                &&& t.u_num == d00 * d12 - d01 * d02
                &&& t.v_num == d11 * d02 - d01 * d12
                &&& t.v_num * d00 + t.u_num * d01 == d02 * t.den
                &&& t.v_num * d01 + t.u_num * d11 == d12 * t.den
                &&& t.wf()
            }),
    {
        let c0_pos = Vector {
            x: point.x - self.c0.x,
            y: point.y - self.c0.y,
            z: point.z - self.c0.z,
        };
        let dot00: i128 = dot_wide(&self.c0c2, &self.c0c2);
        let dot01: i128 = dot_wide(&self.c0c2, &self.c0c1);
        let dot02: i128 = dot_wide(&self.c0c2, &c0_pos);
        let dot11: i128 = dot_wide(&self.c0c1, &self.c0c1);
        let dot12: i128 = dot_wide(&self.c0c1, &c0_pos);
        proof {
            let b = 12 * COORD_LIMIT as int * COORD_LIMIT as int;
            lemma_mul_bound(dot00 as int, dot11 as int, b, b);
            lemma_mul_bound(dot01 as int, dot01 as int, b, b);
            lemma_mul_bound(dot00 as int, dot12 as int, b, b);
            lemma_mul_bound(dot01 as int, dot02 as int, b, b);
            lemma_mul_bound(dot11 as int, dot02 as int, b, b);
            lemma_mul_bound(dot01 as int, dot12 as int, b, b);
            lemma_cramer(dot00 as int, dot01 as int, dot02 as int, dot11 as int, dot12 as int);
        }
        Texel {
            den: dot00 * dot11 - dot01 * dot01,
            u_num: dot00 * dot12 - dot01 * dot02,
            v_num: dot11 * dot02 - dot01 * dot12,
        }
    }

    /// Projects a point of the triangle's plane to its texel coordinates:
    /// the exact rational barycentric coordinates of the point.
    pub fn project_texel(&self, point: &Point) -> (t: Texel)
        requires
            self.wf(),
            point.wf(),
        ensures
            ({
                let d00 = spec_dot(self.edge2(), self.edge2());
                let d01 = spec_dot(self.edge2(), self.edge1());
                let d02 = spec_dot(self.edge2(), spec_sub(*point, self.corner()));
                let d11 = spec_dot(self.edge1(), self.edge1());
                let d12 = spec_dot(self.edge1(), spec_sub(*point, self.corner()));
                &&& t.den == d00 * d11 - d01 * d01
                &&& t.u_num == d00 * d12 - d01 * d02
                &&& t.v_num == d11 * d02 - d01 * d12
                &&& t.v_num * d00 + t.u_num * d01 == d02 * t.den
                &&& t.v_num * d01 + t.u_num * d11 == d12 * t.den
                &&& t.wf()
            }),
    {
        self.barycentric(point)
    }

    /// The tight axis-aligned box around the triangle's three corners.
    pub fn aabb(&self) -> (r: Aabb)
        requires
            self.wf(),
        ensures
            r.wf(),
            r == crate::aabb::spec_union(
                crate::aabb::spec_union(
                    Aabb::Bounds { lo: self.corner(), hi: self.corner() },
                    Aabb::Bounds {
                        lo: spec_add(self.corner(), self.edge1()),
                        hi: spec_add(self.corner(), self.edge1()),
                    },
                ),
                Aabb::Bounds {
                    lo: spec_add(self.corner(), self.edge2()),
                    hi: spec_add(self.corner(), self.edge2()),
                },
            ),
    {
        let c1 = Point {
            x: self.c0.x + self.c0c1.x,
            y: self.c0.y + self.c0c1.y,
            z: self.c0.z + self.c0c1.z,
        };
        let c2 = Point {
            x: self.c0.x + self.c0c2.x,
            y: self.c0.y + self.c0c2.y,
            z: self.c0.z + self.c0c2.z,
        };
        let base = Aabb::Bounds { lo: self.c0, hi: self.c0 };
        base.grow(&c1).grow(&c2)
    }
}

/// The point reached from `p` by the displacement `v`.
pub open spec fn spec_add(p: Point, v: Vector) -> Point {
    Point { x: (p.x + v.x) as i64, y: (p.y + v.y) as i64, z: (p.z + v.z) as i64 }
}

} // verus!
