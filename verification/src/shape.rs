//! The capability contract every object stored in a tree must satisfy, and
//! the concrete integer-grid shapes of this crate.

use vstd::prelude::*;

use crate::aabb::{spec_dist2, Aabb};
use crate::geometry::{lemma_mul_bound, Point, Ray, COORD_LIMIT};

verus! {

/// An object usable with the tree: it exposes a bounding box, a centroid
/// used only for split ordering, and a ray-intersection test returning the
/// squared distance to the nearest hit.
///
/// The one semantic demand, `lemma_hit_not_closer_than_box`, is what the
/// traversal's pruning rests on: a reported hit is never closer to the ray
/// origin than the object's own bounding box.
pub trait Intersected: Sized {
    /// Well-formedness of the object's geometry.
    spec fn inv(&self) -> bool;

    /// The object's bounding box, as a mathematical value.
    spec fn s_aabb(&self) -> Aabb;

    /// The object's representative point, as a mathematical value.
    spec fn s_centroid(&self) -> Point;

    /// The hit the object reports for a ray, as a mathematical value:
    /// the squared distance from the ray origin to the nearest hit point,
    /// or `None`.
    spec fn s_hit(&self, ray: Ray) -> Option<u64>;

    /// A well-formed object has a well-formed bounding box.
    proof fn lemma_box_wf(&self)
        requires
            self.inv(),
        ensures
            self.s_aabb().wf(),
    ;

    /// A hit lies inside the object's bounding box, so its squared distance
    /// is at least the squared distance from the ray origin to that box.
    proof fn lemma_hit_not_closer_than_box(&self, ray: Ray)
        requires
            self.inv(),
            ray.wf(),
        ensures
            self.s_hit(ray) matches Some(d) ==> spec_dist2(ray.origin, self.s_aabb()) <= d as int,
    ;

    /// A tight or conservative box enclosing the object.
    fn aabb(&self) -> (r: Aabb)
        requires
            self.inv(),
        ensures
            r == self.s_aabb(),
    ;

    /// A representative point, used only to order objects along a split axis.
    fn centroid(&self) -> (p: Point)
        requires
            self.inv(),
        ensures
            p == self.s_centroid(),
    ;

    /// The squared distance along the ray to the nearest hit, or `None`.
    fn intersect(&self, ray: &Ray) -> (r: Option<u64>)
        requires
            self.inv(),
            ray.wf(),
        ensures
            r == self.s_hit(*ray),
    ;
}

/// Every element of the collection is well-formed.
pub open spec fn all_inv<O: Intersected>(objs: Seq<O>) -> bool {
    forall|i: int| 0 <= i < objs.len() ==> (#[trigger] objs[i]).inv()
}

/// A point-sized target: a ray hits it exactly when its line passes through
/// the point in the forward direction, at the squared distance between the
/// ray origin and the point.
#[derive(Clone, Copy, Debug, PartialEq, Eq, Structural)]
pub struct Dot {
    pub pos: Point,
}

impl Dot {
    pub fn new(pos: Point) -> (d: Dot)
        ensures
            d == (Dot { pos }),
    {
        Dot { pos }
    }
}

/// The hit a `Dot` at `pos` reports for `ray`: the squared distance to the
/// point if the ray passes through it pointing forward, else `None`.
pub open spec fn spec_dot_hit(pos: Point, ray: Ray) -> Option<u64> {
    let dx = pos.x as int - ray.origin.x as int;
    let dy = pos.y as int - ray.origin.y as int;
    let dz = pos.z as int - ray.origin.z as int;
    let ux = ray.direction.x as int;
    let uy = ray.direction.y as int;
    let uz = ray.direction.z as int;
    let cx = uy * dz - uz * dy;
    let cy = uz * dx - ux * dz;
    let cz = ux * dy - uy * dx;
    let along = ux * dx + uy * dy + uz * dz;
    if cx == 0 && cy == 0 && cz == 0 && along >= 0 {
        Some((dx * dx + dy * dy + dz * dz) as u64)
    } else {
        None
    }
}

/// The square of an axis gap to a degenerate interval is the square of the
/// signed difference.
proof fn lemma_gap_to_point_sq(p: int, q: int)
    by (nonlinear_arith)
    ensures
        crate::aabb::spec_axis_gap(p, q, q) * crate::aabb::spec_axis_gap(p, q, q) == (q - p) * (q
            - p),
{
}

impl Intersected for Dot {
    open spec fn inv(&self) -> bool {
        self.pos.wf()
    }

    open spec fn s_aabb(&self) -> Aabb {
        Aabb::Bounds { lo: self.pos, hi: self.pos }
    }

    open spec fn s_centroid(&self) -> Point {
        self.pos
    }

    open spec fn s_hit(&self, ray: Ray) -> Option<u64> {
        spec_dot_hit(self.pos, ray)
    }

    proof fn lemma_box_wf(&self) {
    }

    proof fn lemma_hit_not_closer_than_box(&self, ray: Ray) {
        if self.s_hit(ray) is Some {
            let dx = self.pos.x as int - ray.origin.x as int;
            let dy = self.pos.y as int - ray.origin.y as int;
            let dz = self.pos.z as int - ray.origin.z as int;
            lemma_gap_to_point_sq(ray.origin.x as int, self.pos.x as int);
            lemma_gap_to_point_sq(ray.origin.y as int, self.pos.y as int);
            lemma_gap_to_point_sq(ray.origin.z as int, self.pos.z as int);
            lemma_mul_bound(dx, dx, 2 * COORD_LIMIT as int, 2 * COORD_LIMIT as int);
            lemma_mul_bound(dy, dy, 2 * COORD_LIMIT as int, 2 * COORD_LIMIT as int);
            lemma_mul_bound(dz, dz, 2 * COORD_LIMIT as int, 2 * COORD_LIMIT as int);
            crate::geometry::lemma_sq_nonneg(dx);
            crate::geometry::lemma_sq_nonneg(dy);
            crate::geometry::lemma_sq_nonneg(dz);
        }
    }

    fn aabb(&self) -> (r: Aabb) {
        Aabb::Bounds { lo: self.pos, hi: self.pos }
    }

    fn centroid(&self) -> (p: Point) {
        self.pos
    }

    fn intersect(&self, ray: &Ray) -> (r: Option<u64>) {
        let dx: i64 = self.pos.x - ray.origin.x;
        let dy: i64 = self.pos.y - ray.origin.y;
        let dz: i64 = self.pos.z - ray.origin.z;
        let ux: i64 = ray.direction.x;
        let uy: i64 = ray.direction.y;
        let uz: i64 = ray.direction.z;
        proof {
            let two = 2 * COORD_LIMIT as int;
            lemma_mul_bound(ux as int, dx as int, COORD_LIMIT as int, two);
            lemma_mul_bound(uy as int, dy as int, COORD_LIMIT as int, two);
            lemma_mul_bound(uz as int, dz as int, COORD_LIMIT as int, two);
            lemma_mul_bound(ux as int, dy as int, COORD_LIMIT as int, two);
            lemma_mul_bound(uy as int, dz as int, COORD_LIMIT as int, two);
            lemma_mul_bound(uz as int, dx as int, COORD_LIMIT as int, two);
            lemma_mul_bound(ux as int, dz as int, COORD_LIMIT as int, two);
            lemma_mul_bound(uy as int, dx as int, COORD_LIMIT as int, two);
            lemma_mul_bound(uz as int, dy as int, COORD_LIMIT as int, two);
            lemma_mul_bound(dx as int, dx as int, two, two);
            lemma_mul_bound(dy as int, dy as int, two, two);
            lemma_mul_bound(dz as int, dz as int, two, two);
            crate::geometry::lemma_sq_nonneg(dx as int);
            crate::geometry::lemma_sq_nonneg(dy as int);
            crate::geometry::lemma_sq_nonneg(dz as int);
        }
        let cx: i64 = uy * dz - uz * dy;
        let cy: i64 = uz * dx - ux * dz;
        let cz: i64 = ux * dy - uy * dx;
        let along: i64 = ux * dx + uy * dy + uz * dz;
        if cx == 0 && cy == 0 && cz == 0 && along >= 0 {
            Some(((dx * dx) as u64) + ((dy * dy) as u64) + ((dz * dz) as u64))
        } else {
            None
        }
    }
}

/// A solid box target that reports, for every ray, the squared distance from
/// the ray origin to its nearest point: a conservative, direction-agnostic
/// proximity shape, mainly useful to exercise degenerate builds.
#[derive(Clone, Copy, Debug, PartialEq, Eq, Structural)]
pub struct Brick {
    pub lo: Point,
    pub hi: Point,
}

impl Brick {
    pub fn new(lo: Point, hi: Point) -> (b: Brick)
        ensures
            b == (Brick { lo, hi }),
    {
        Brick { lo, hi }
    }
}

impl Intersected for Brick {
    open spec fn inv(&self) -> bool {
        &&& self.lo.wf()
        &&& self.hi.wf()
        &&& self.lo.x <= self.hi.x
        &&& self.lo.y <= self.hi.y
        &&& self.lo.z <= self.hi.z
    }

    open spec fn s_aabb(&self) -> Aabb {
        Aabb::Bounds { lo: self.lo, hi: self.hi }
    }

    open spec fn s_centroid(&self) -> Point {
        self.lo
    }

    open spec fn s_hit(&self, ray: Ray) -> Option<u64> {
        Some(spec_dist2(ray.origin, self.s_aabb()) as u64)
    }

    proof fn lemma_box_wf(&self) {
    }

    proof fn lemma_hit_not_closer_than_box(&self, ray: Ray) {
        crate::aabb::lemma_dist2_finite(ray.origin, self.s_aabb());
    }

    fn aabb(&self) -> (r: Aabb) {
        Aabb::Bounds { lo: self.lo, hi: self.hi }
    }

    fn centroid(&self) -> (p: Point) {
        self.lo
    }

    fn intersect(&self, ray: &Ray) -> (r: Option<u64>) {
        let b = Aabb::Bounds { lo: self.lo, hi: self.hi };
        proof {
            crate::aabb::lemma_dist2_finite(ray.origin, b);
        }
        Some(b.dist2_to_point(&ray.origin))
    }
}

/// The concrete shapes of this crate, usable heterogeneously in one tree.
#[derive(Clone, Copy, Debug, PartialEq, Eq, Structural)]
pub enum ShapeEnum {
    Dot(Dot),
    Brick(Brick),
}

impl Intersected for ShapeEnum {
    open spec fn inv(&self) -> bool {
        match self {
            ShapeEnum::Dot(d) => d.inv(),
            ShapeEnum::Brick(b) => b.inv(),
        }
    }

    open spec fn s_aabb(&self) -> Aabb {
        match self {
            ShapeEnum::Dot(d) => d.s_aabb(),
            ShapeEnum::Brick(b) => b.s_aabb(),
        }
    }

    open spec fn s_centroid(&self) -> Point {
        match self {
            ShapeEnum::Dot(d) => d.s_centroid(),
            ShapeEnum::Brick(b) => b.s_centroid(),
        }
    }

    open spec fn s_hit(&self, ray: Ray) -> Option<u64> {
        match self {
            ShapeEnum::Dot(d) => d.s_hit(ray),
            ShapeEnum::Brick(b) => b.s_hit(ray),
        }
    }

    proof fn lemma_box_wf(&self) {
        match self {
            ShapeEnum::Dot(d) => d.lemma_box_wf(),
            ShapeEnum::Brick(b) => b.lemma_box_wf(),
        }
    }

    proof fn lemma_hit_not_closer_than_box(&self, ray: Ray) {
        match self {
            ShapeEnum::Dot(d) => d.lemma_hit_not_closer_than_box(ray),
            ShapeEnum::Brick(b) => b.lemma_hit_not_closer_than_box(ray),
        }
    }

    fn aabb(&self) -> (r: Aabb) {
        match self {
            ShapeEnum::Dot(d) => d.aabb(),
            ShapeEnum::Brick(b) => b.aabb(),
        }
    }

    fn centroid(&self) -> (p: Point) {
        match self {
            ShapeEnum::Dot(d) => d.centroid(),
            ShapeEnum::Brick(b) => b.centroid(),
        }
    }

    fn intersect(&self, ray: &Ray) -> (r: Option<u64>) {
        match self {
            ShapeEnum::Dot(d) => d.intersect(ray),
            ShapeEnum::Brick(b) => b.intersect(ray),
        }
    }
}

} // verus!
