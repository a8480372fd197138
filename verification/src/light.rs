//! Point lights with exact rational colors, following the square
//! distance law.

use vstd::prelude::*;

use crate::geometry::{lemma_mul_bound, point_dist2, spec_pdist2, Point, COORD_LIMIT};

verus! {

/// The largest denominator `illumination` accepts, so that scaling by a
/// squared distance stays exact.
pub const COLOR_DEN_LIMIT: i128 = 18446744073709551616;

/// An RGB color with exact rational channels `r/den`, `g/den`, `b/den`.
#[derive(Clone, Copy, Debug, PartialEq, Eq, Structural)]
pub struct LinearColor {
    pub r: i64,
    pub g: i64,
    pub b: i64,
    pub den: i128,
}

impl LinearColor {
    /// A positive denominator.
    pub open spec fn wf(self) -> bool {
        self.den >= 1
    }

    /// The color with the given whole-number channels.
    pub fn new(r: i64, g: i64, b: i64) -> (c: LinearColor)
        ensures
            c == (LinearColor { r, g, b, den: 1 }),
            c.wf(),
    {
        LinearColor { r, g, b, den: 1 }
    }

    /// The black color.
    pub fn black() -> (c: LinearColor)
        ensures
            c == (LinearColor { r: 0, g: 0, b: 0, den: 1 }),
            c.wf(),
    {
        LinearColor { r: 0, g: 0, b: 0, den: 1 }
    }
}

/// A light emanating from a point in space, following the square distance
/// law.
#[derive(Clone, Copy, Debug, PartialEq, Eq, Structural)]
pub struct PointLight {
    pub position: Point,
    pub color: LinearColor,
}

impl PointLight {
    /// Creates a new point light.
    pub fn new(position: Point, color: LinearColor) -> (l: PointLight)
        ensures
            l == (PointLight { position, color }),
    {
        PointLight { position, color }
    }

    /// The light's color as received at `point`: every channel divided,
    /// exactly, by the squared distance between the light and the point.
    pub fn illumination(&self, point: &Point) -> (c: LinearColor)
        requires
            self.position.wf(),
            self.color.wf(),
            point.wf(),
            *point != self.position,
            self.color.den <= COLOR_DEN_LIMIT,
        ensures
            c.r == self.color.r,
            c.g == self.color.g,
            c.b == self.color.b,
            c.den == self.color.den * spec_pdist2(self.position, *point),
            c.wf(),
    {
        let d2 = point_dist2(&self.position, point);
        proof {
            crate::geometry::lemma_sq_sum_zero(
                self.position.x - point.x,
                self.position.y - point.y,
                self.position.z - point.z,
            );
            assert(d2 >= 1);
            lemma_mul_bound(
                self.color.den as int,
                d2 as int,
                COLOR_DEN_LIMIT as int,
                12 * COORD_LIMIT as int * COORD_LIMIT as int,
            );
            crate::geometry::lemma_mul_ge_one(self.color.den as int, d2 as int);
        }
        LinearColor {
            r: self.color.r,
            g: self.color.g,
            b: self.color.b,
            den: self.color.den * (d2 as i128),
        }
    }
}

} // verus!
