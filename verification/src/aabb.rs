//! Axis-aligned bounding boxes: union, growth, surface area and the squared
//! point distance used as the traversal's pruning lower bound.

use vstd::prelude::*;

use crate::geometry::{lemma_mul_bound, lemma_sq_monotone, Point, COORD_LIMIT};

verus! {

/// Surface areas of well-formed boxes never exceed this value
/// (`2 * 3 * (2 * COORD_LIMIT)^2`).
pub const SURFACE_LIMIT: u64 = 26388279066624;

/// Squared distances from a well-formed point to a well-formed non-empty box
/// never exceed this value (`3 * (2 * COORD_LIMIT)^2`).
pub const DIST2_LIMIT: u64 = 13194139533312;

/// An axis-aligned box, or the designated empty box, which is the identity
/// of `union`.
#[derive(Clone, Copy, Debug, PartialEq, Eq, Structural)]
pub enum Aabb {
    /// The union identity: contains nothing, contained in everything.
    Empty,
    /// The box spanning `[lo, hi]` componentwise.
    Bounds { lo: Point, hi: Point },
}

impl Aabb {
    /// A non-empty box has ordered, in-range corners.
    pub open spec fn wf(self) -> bool {
        match self {
            Aabb::Empty => true,
            Aabb::Bounds { lo, hi } => {
                &&& lo.wf()
                &&& hi.wf()
                &&& lo.x <= hi.x
                &&& lo.y <= hi.y
                &&& lo.z <= hi.z
            },
        }
    }

    /// The empty box.
    pub fn empty() -> (r: Aabb)
        ensures
            r == Aabb::Empty,
    {
        Aabb::Empty
    }

    /// The box with the given corners.
    pub fn with_bounds(lo: Point, hi: Point) -> (r: Aabb)
        ensures
            r == (Aabb::Bounds { lo, hi }),
    {
        Aabb::Bounds { lo, hi }
    }

    /// The smallest box containing both operands.
    pub fn union(&self, other: &Aabb) -> (r: Aabb)
        ensures
            r == spec_union(*self, *other),
    {
        match (*self, *other) {
            (Aabb::Empty, b) => b,
            (a, Aabb::Empty) => a,
            (Aabb::Bounds { lo: alo, hi: ahi }, Aabb::Bounds { lo: blo, hi: bhi }) => {
                Aabb::Bounds {
                    lo: Point {
                        x: if alo.x <= blo.x { alo.x } else { blo.x },
                        y: if alo.y <= blo.y { alo.y } else { blo.y },
                        z: if alo.z <= blo.z { alo.z } else { blo.z },
                    },
                    hi: Point {
                        x: if ahi.x >= bhi.x { ahi.x } else { bhi.x },
                        y: if ahi.y >= bhi.y { ahi.y } else { bhi.y },
                        z: if ahi.z >= bhi.z { ahi.z } else { bhi.z },
                    },
                }
            },
        }
    }

    /// The smallest box containing this box and the given point.
    pub fn grow(&self, p: &Point) -> (r: Aabb)
        ensures
            r == spec_union(*self, Aabb::Bounds { lo: *p, hi: *p }),
    {
        self.union(&Aabb::Bounds { lo: *p, hi: *p })
    }

    /// The total surface area of the box; zero for the empty box and for
    /// boxes degenerated to a line or a point.
    pub fn surface(&self) -> (r: u64)
        requires
            self.wf(),
        ensures
            r as int == spec_surface(*self),
            r <= SURFACE_LIMIT,
    {
        match *self {
            Aabb::Empty => 0u64,
            Aabb::Bounds { lo, hi } => {
                let ex: u64 = (hi.x - lo.x) as u64;
                let ey: u64 = (hi.y - lo.y) as u64;
                let ez: u64 = (hi.z - lo.z) as u64;
                proof {
                    lemma_mul_bound(ex as int, ey as int, 2 * COORD_LIMIT as int, 2 * COORD_LIMIT as int);
                    lemma_mul_bound(ey as int, ez as int, 2 * COORD_LIMIT as int, 2 * COORD_LIMIT as int);
                    lemma_mul_bound(ez as int, ex as int, 2 * COORD_LIMIT as int, 2 * COORD_LIMIT as int);
                    lemma_mul_nonneg(ex as int, ey as int);
                    lemma_mul_nonneg(ey as int, ez as int);
                    lemma_mul_nonneg(ez as int, ex as int);
                }
                2 * (ex * ey + ey * ez + ez * ex)
            },
        }
    }

    /// The squared Euclidean distance from `p` to the nearest point of the
    /// box: zero if `p` lies inside, `u64::MAX` (the infinite distance) for
    /// the empty box.
    pub fn dist2_to_point(&self, p: &Point) -> (r: u64)
        requires
            self.wf(),
            p.wf(),
        ensures
            r as int == spec_dist2(*p, *self),
            self is Bounds ==> r <= DIST2_LIMIT,
    {
        match *self {
            Aabb::Empty => u64::MAX,
            Aabb::Bounds { lo, hi } => {
                let gx: u64 = axis_gap_exec(p.x, lo.x, hi.x);
                let gy: u64 = axis_gap_exec(p.y, lo.y, hi.y);
                let gz: u64 = axis_gap_exec(p.z, lo.z, hi.z);
                proof {
                    lemma_mul_bound(gx as int, gy as int, 2 * COORD_LIMIT as int, 2 * COORD_LIMIT as int);
                    lemma_mul_nonneg(gx as int, gx as int);
                    lemma_mul_bound(gx as int, gx as int, 2 * COORD_LIMIT as int, 2 * COORD_LIMIT as int);
                    lemma_mul_bound(gy as int, gy as int, 2 * COORD_LIMIT as int, 2 * COORD_LIMIT as int);
                    lemma_mul_bound(gz as int, gz as int, 2 * COORD_LIMIT as int, 2 * COORD_LIMIT as int);
                }
                gx * gx + gy * gy + gz * gz
            },
        }
    }
}

/// Product of non-negative factors is non-negative.
pub proof fn lemma_mul_nonneg(a: int, b: int)
    by (nonlinear_arith)
    requires
        0 <= a,
        0 <= b,
    ensures
        0 <= a * b,
{
}

/// The distance of `v` to the interval `[lo, hi]` along one axis.
pub open spec fn spec_axis_gap(v: int, lo: int, hi: int) -> int {
    if v < lo {
        lo - v
    } else if v > hi {
        v - hi
    } else {
        0
    }
}

fn axis_gap_exec(v: i64, lo: i64, hi: i64) -> (g: u64)
    requires
        -COORD_LIMIT <= v <= COORD_LIMIT,
        -COORD_LIMIT <= lo <= COORD_LIMIT,
        -COORD_LIMIT <= hi <= COORD_LIMIT,
    ensures
        g as int == spec_axis_gap(v as int, lo as int, hi as int),
        g <= 2 * COORD_LIMIT as u64,
{
    if v < lo {
        (lo - v) as u64
    } else if v > hi {
        (v - hi) as u64
    } else {
        0u64
    }
}

/// The smallest box containing both operands; `Aabb::Empty` is its identity.
pub open spec fn spec_union(a: Aabb, b: Aabb) -> Aabb {
    match (a, b) {
        (Aabb::Empty, _) => b,
        (_, Aabb::Empty) => a,
        (Aabb::Bounds { lo: alo, hi: ahi }, Aabb::Bounds { lo: blo, hi: bhi }) => Aabb::Bounds {
            lo: Point {
                x: if alo.x <= blo.x { alo.x } else { blo.x },
                y: if alo.y <= blo.y { alo.y } else { blo.y },
                z: if alo.z <= blo.z { alo.z } else { blo.z },
            },
            hi: Point {
                x: if ahi.x >= bhi.x { ahi.x } else { bhi.x },
                y: if ahi.y >= bhi.y { ahi.y } else { bhi.y },
                z: if ahi.z >= bhi.z { ahi.z } else { bhi.z },
            },
        },
    }
}

/// Containment: `le(a, b)` means every point of `a` lies in `b`.
pub open spec fn le(a: Aabb, b: Aabb) -> bool {
    match a {
        Aabb::Empty => true,
        Aabb::Bounds { lo: alo, hi: ahi } => match b {
            Aabb::Empty => false,
            Aabb::Bounds { lo: blo, hi: bhi } => {
                &&& blo.x <= alo.x && ahi.x <= bhi.x
                &&& blo.y <= alo.y && ahi.y <= bhi.y
                &&& blo.z <= alo.z && ahi.z <= bhi.z
            },
        },
    }
}

/// The total surface area, `2 (ex ey + ey ez + ez ex)` over the extents.
pub open spec fn spec_surface(a: Aabb) -> int {
    match a {
        Aabb::Empty => 0,
        Aabb::Bounds { lo, hi } => {
            let ex = hi.x - lo.x;
            let ey = hi.y - lo.y;
            let ez = hi.z - lo.z;
            2 * (ex * ey + ey * ez + ez * ex)
        },
    }
}

/// Squared distance from a point to the nearest point of a box;
/// `u64::MAX` stands for the infinite distance to the empty box.
pub open spec fn spec_dist2(p: Point, a: Aabb) -> int {
    match a {
        Aabb::Empty => u64::MAX as int,
        Aabb::Bounds { lo, hi } => {
            let gx = spec_axis_gap(p.x as int, lo.x as int, hi.x as int);
            let gy = spec_axis_gap(p.y as int, lo.y as int, hi.y as int);
            let gz = spec_axis_gap(p.z as int, lo.z as int, hi.z as int);
            gx * gx + gy * gy + gz * gz
        },
    }
}

/// Containment is transitive.
pub proof fn lemma_le_trans(a: Aabb, b: Aabb, c: Aabb)
    requires
        le(a, b),
        le(b, c),
    ensures
        le(a, c),
{
}

/// Mutual containment is equality.
pub proof fn lemma_le_antisym(a: Aabb, b: Aabb)
    requires
        le(a, b),
        le(b, a),
    ensures
        a == b,
{
}

/// The union contains both operands and is well-formed.
pub proof fn lemma_union_upper(a: Aabb, b: Aabb)
    requires
        a.wf(),
        b.wf(),
    ensures
        le(a, spec_union(a, b)),
        le(b, spec_union(a, b)),
        spec_union(a, b).wf(),
{
}

/// The union is the least box containing both operands.
pub proof fn lemma_union_least(a: Aabb, b: Aabb, c: Aabb)
    requires
        le(a, c),
        le(b, c),
    ensures
        le(spec_union(a, b), c),
{
}

/// Absorption: unioning a contained box changes nothing, and conversely.
pub proof fn lemma_union_absorb(a: Aabb, b: Aabb)
    ensures
        spec_union(a, b) == a <==> le(b, a) && (a is Bounds || b is Empty),
{
}

/// Boxes inside a bigger box are no closer to any point than the bigger box:
/// the pruning bound of the traversal is monotone with nesting.
pub proof fn lemma_dist2_monotone(p: Point, a: Aabb, b: Aabb)
    requires
        p.wf(),
        a.wf(),
        b.wf(),
        le(a, b),
    ensures
        spec_dist2(p, b) <= spec_dist2(p, a),
{
    match a {
        Aabb::Empty => {
            lemma_dist2_finite(p, b);
        },
        Aabb::Bounds { lo: alo, hi: ahi } => {
            match b {
                Aabb::Empty => {
                    assert(false);
                },
                Aabb::Bounds { lo: blo, hi: bhi } => {
                    let gax = spec_axis_gap(p.x as int, alo.x as int, ahi.x as int);
                    let gbx = spec_axis_gap(p.x as int, blo.x as int, bhi.x as int);
                    let gay = spec_axis_gap(p.y as int, alo.y as int, ahi.y as int);
                    let gby = spec_axis_gap(p.y as int, blo.y as int, bhi.y as int);
                    let gaz = spec_axis_gap(p.z as int, alo.z as int, ahi.z as int);
                    let gbz = spec_axis_gap(p.z as int, blo.z as int, bhi.z as int);
                    lemma_sq_monotone(gbx, gax);
                    lemma_sq_monotone(gby, gay);
                    lemma_sq_monotone(gbz, gaz);
                },
            }
        },
    }
}

/// The distance to a well-formed non-empty box is below the infinite
/// distance `u64::MAX`.
pub proof fn lemma_dist2_finite(p: Point, b: Aabb)
    requires
        p.wf(),
        b.wf(),
    ensures
        b is Bounds ==> 0 <= spec_dist2(p, b) <= DIST2_LIMIT as int,
        0 <= spec_dist2(p, b) <= u64::MAX as int,
{
    match b {
        Aabb::Empty => {
        },
        Aabb::Bounds { lo, hi } => {
            let gx = spec_axis_gap(p.x as int, lo.x as int, hi.x as int);
            let gy = spec_axis_gap(p.y as int, lo.y as int, hi.y as int);
            let gz = spec_axis_gap(p.z as int, lo.z as int, hi.z as int);
            lemma_mul_bound(gx, gx, 2 * COORD_LIMIT as int, 2 * COORD_LIMIT as int);
            lemma_mul_bound(gy, gy, 2 * COORD_LIMIT as int, 2 * COORD_LIMIT as int);
            lemma_mul_bound(gz, gz, 2 * COORD_LIMIT as int, 2 * COORD_LIMIT as int);
            lemma_mul_nonneg(gx, gx);
            lemma_mul_nonneg(gy, gy);
            lemma_mul_nonneg(gz, gz);
        },
    }
}

} // verus!
