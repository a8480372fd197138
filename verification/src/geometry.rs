//! Points, vectors, rays and the split axes of the integer grid.

use vstd::prelude::*;

verus! {

/// Every coordinate of a well-formed point, vector or ray lies in
/// `[-COORD_LIMIT, COORD_LIMIT]`, which keeps all the box and distance
/// arithmetic of the crate inside `i64` and `u64`.
pub const COORD_LIMIT: i64 = 1048576;

/// A coordinate axis; the builder picks one of these to split along.
#[derive(Clone, Copy, Debug, PartialEq, Eq, Structural)]
pub enum Axis {
    X,
    Y,
    Z,
}

/// A position on the integer grid.
#[derive(Clone, Copy, Debug, PartialEq, Eq, Structural)]
pub struct Point {
    pub x: i64,
    pub y: i64,
    pub z: i64,
}

/// A displacement on the integer grid.
#[derive(Clone, Copy, Debug, PartialEq, Eq, Structural)]
pub struct Vector {
    pub x: i64,
    pub y: i64,
    pub z: i64,
}

/// A ray: an origin and a direction. The direction need not be normalized;
/// only its line and orientation matter to the shapes of this crate.
#[derive(Clone, Copy, Debug, PartialEq, Eq, Structural)]
pub struct Ray {
    pub origin: Point,
    pub direction: Vector,
}

impl Point {
    /// All coordinates within the grid bound.
    pub open spec fn wf(self) -> bool {
        &&& -COORD_LIMIT <= self.x <= COORD_LIMIT
        &&& -COORD_LIMIT <= self.y <= COORD_LIMIT
        &&& -COORD_LIMIT <= self.z <= COORD_LIMIT
    }

    pub open spec fn spec_coord(self, axis: Axis) -> i64 {
        match axis {
            Axis::X => self.x,
            Axis::Y => self.y,
            Axis::Z => self.z,
        }
    }

    pub fn new(x: i64, y: i64, z: i64) -> (p: Point)
        ensures
            p == (Point { x, y, z }),
    {
        Point { x, y, z }
    }

    /// The projection of the point on the given axis.
    pub fn coord(&self, axis: Axis) -> (c: i64)
        ensures
            c == self.spec_coord(axis),
    {
        match axis {
            Axis::X => self.x,
            Axis::Y => self.y,
            Axis::Z => self.z,
        }
    }
}

impl Vector {
    /// All components within the grid bound.
    pub open spec fn wf(self) -> bool {
        &&& -COORD_LIMIT <= self.x <= COORD_LIMIT
        &&& -COORD_LIMIT <= self.y <= COORD_LIMIT
        &&& -COORD_LIMIT <= self.z <= COORD_LIMIT
    }

    pub fn new(x: i64, y: i64, z: i64) -> (v: Vector)
        ensures
            v == (Vector { x, y, z }),
    {
        Vector { x, y, z }
    }
}

impl Ray {
    pub open spec fn wf(self) -> bool {
        self.origin.wf() && self.direction.wf()
    }

    pub fn new(origin: Point, direction: Vector) -> (r: Ray)
        ensures
            r == (Ray { origin, direction }),
    {
        Ray { origin, direction }
    }
}

/// `|a| <= m` and `|b| <= n` bound the product by `m * n`.
pub proof fn lemma_mul_bound(a: int, b: int, m: int, n: int)
    by (nonlinear_arith)
    requires
        -m <= a <= m,
        -n <= b <= n,
        0 <= m,
        0 <= n,
    ensures
        -(m * n) <= a * b <= m * n,
{
}

/// A square is never negative.
pub proof fn lemma_sq_nonneg(a: int)
    by (nonlinear_arith)
    ensures
        0 <= a * a,
{
}

/// Squaring is monotone on non-negative values.
pub proof fn lemma_sq_monotone(a: int, b: int)
    by (nonlinear_arith)
    requires
        0 <= a <= b,
    ensures
        a * a <= b * b,
{
}

/// A sum of three squares is zero exactly when every term is zero, and is
/// never negative.
pub proof fn lemma_sq_sum_zero(x: int, y: int, z: int)
    by (nonlinear_arith)
    ensures
        0 <= x * x + y * y + z * z,
        x * x + y * y + z * z == 0 ==> x == 0 && y == 0 && z == 0,
{
}

/// Factors at least one give a product at least one.
pub proof fn lemma_mul_ge_one(a: int, b: int)
    by (nonlinear_arith)
    requires
        1 <= a,
        1 <= b,
    ensures
        1 <= a * b,
{
}

/// The squared Euclidean distance between two points.
pub open spec fn spec_pdist2(a: Point, b: Point) -> int {
    (a.x - b.x) * (a.x - b.x) + (a.y - b.y) * (a.y - b.y) + (a.z - b.z) * (a.z - b.z)
}

/// The squared Euclidean distance between two well-formed points.
pub fn point_dist2(a: &Point, b: &Point) -> (d: u64)
    requires
        a.wf(),
        b.wf(),
    ensures
        d as int == spec_pdist2(*a, *b),
        d as int <= 12 * COORD_LIMIT as int * COORD_LIMIT as int,
{
    let dx: i64 = a.x - b.x;
    let dy: i64 = a.y - b.y;
    let dz: i64 = a.z - b.z;
    proof {
        let two = 2 * COORD_LIMIT as int;
        lemma_mul_bound(dx as int, dx as int, two, two);
        lemma_mul_bound(dy as int, dy as int, two, two);
        lemma_mul_bound(dz as int, dz as int, two, two);
        lemma_sq_nonneg(dx as int);
        lemma_sq_nonneg(dy as int);
        lemma_sq_nonneg(dz as int);
    }
    ((dx * dx) as u64) + ((dy * dy) as u64) + ((dz * dz) as u64)
}

/// The spec-level dot product of two vectors.
pub open spec fn spec_dot(a: Vector, b: Vector) -> int {
    a.x * b.x + a.y * b.y + a.z * b.z
}

/// The dot product of two well-formed vectors.
pub fn dot(a: &Vector, b: &Vector) -> (d: i64)
    requires
        a.wf(),
        b.wf(),
    ensures
        d == spec_dot(*a, *b),
        -3 * COORD_LIMIT * COORD_LIMIT <= d <= 3 * COORD_LIMIT * COORD_LIMIT,
{
    proof {
        lemma_mul_bound(a.x as int, b.x as int, COORD_LIMIT as int, COORD_LIMIT as int);
        lemma_mul_bound(a.y as int, b.y as int, COORD_LIMIT as int, COORD_LIMIT as int);
        lemma_mul_bound(a.z as int, b.z as int, COORD_LIMIT as int, COORD_LIMIT as int);
    }
    a.x * b.x + a.y * b.y + a.z * b.z
}

/// The reflection of an incident direction about a surface normal:
/// `incident - 2 * (incident . normal) * normal`, computed exactly.
pub fn reflected(incident: Vector, normal: Vector) -> (r: Vector)
    requires
        incident.wf(),
        normal.wf(),
    ensures
        r.x == incident.x - 2 * spec_dot(incident, normal) * normal.x,
        r.y == incident.y - 2 * spec_dot(incident, normal) * normal.y,
        r.z == incident.z - 2 * spec_dot(incident, normal) * normal.z,
{
    let proj: i64 = dot(&incident, &normal);
    proof {
        lemma_mul_bound(2 * proj as int, normal.x as int, 6 * COORD_LIMIT * COORD_LIMIT, COORD_LIMIT as int);
        lemma_mul_bound(2 * proj as int, normal.y as int, 6 * COORD_LIMIT * COORD_LIMIT, COORD_LIMIT as int);
        lemma_mul_bound(2 * proj as int, normal.z as int, 6 * COORD_LIMIT * COORD_LIMIT, COORD_LIMIT as int);
    }
    Vector {
        x: incident.x - 2 * proj * normal.x,
        y: incident.y - 2 * proj * normal.y,
        z: incident.z - 2 * proj * normal.z,
    }
}

} // verus!
