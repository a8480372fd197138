use beevee::aabb::Aabb;
use beevee::geometry::{point_dist2, reflected, Point, Vector};

#[test]
fn union_with_empty_is_identity() {
    let b = Aabb::with_bounds(Point::new(1, 2, 3), Point::new(4, 5, 6));
    assert_eq!(Aabb::empty().union(&b), b);
    assert_eq!(b.union(&Aabb::empty()), b);
    assert_eq!(Aabb::empty().union(&Aabb::empty()), Aabb::empty());
}

#[test]
fn union_takes_componentwise_extremes() {
    let a = Aabb::with_bounds(Point::new(0, 5, -2), Point::new(3, 9, 0));
    let b = Aabb::with_bounds(Point::new(-1, 6, -1), Point::new(2, 11, 4));
    assert_eq!(
        a.union(&b),
        Aabb::with_bounds(Point::new(-1, 5, -2), Point::new(3, 11, 4))
    );
}

#[test]
fn grow_encloses_the_point() {
    let b = Aabb::with_bounds(Point::new(0, 0, 0), Point::new(1, 1, 1));
    assert_eq!(
        b.grow(&Point::new(-2, 5, 1)),
        Aabb::with_bounds(Point::new(-2, 0, 0), Point::new(1, 5, 1))
    );
}

#[test]
fn surface_of_unit_cube_is_six() {
    let b = Aabb::with_bounds(Point::new(0, 0, 0), Point::new(1, 1, 1));
    assert_eq!(b.surface(), 6);
    // A box degenerated to a segment has no surface.
    let segment = Aabb::with_bounds(Point::new(0, 0, 0), Point::new(7, 0, 0));
    assert_eq!(segment.surface(), 0);
    assert_eq!(Aabb::empty().surface(), 0);
}

#[test]
fn dist2_to_point_clamps_per_axis() {
    let b = Aabb::with_bounds(Point::new(2, 2, 2), Point::new(4, 4, 4));
    // Inside: zero.
    assert_eq!(b.dist2_to_point(&Point::new(3, 3, 3)), 0);
    // Outside along one axis.
    assert_eq!(b.dist2_to_point(&Point::new(7, 3, 3)), 9);
    // Outside along all axes.
    assert_eq!(b.dist2_to_point(&Point::new(0, 0, 0)), 12);
    // The empty box is infinitely far.
    assert_eq!(Aabb::empty().dist2_to_point(&Point::new(0, 0, 0)), u64::MAX);
}

#[test]
fn point_dist2_is_squared_euclidean() {
    assert_eq!(point_dist2(&Point::new(0, 0, 0), &Point::new(3, 4, 0)), 25);
    assert_eq!(point_dist2(&Point::new(1, 1, 1), &Point::new(1, 1, 1)), 0);
}

#[test]
fn reflected_bounces_off_the_normal() {
    let r = reflected(Vector::new(1, -1, 0), Vector::new(0, 1, 0));
    assert_eq!(r, Vector::new(1, 1, 0));
    // A vector along the normal comes straight back.
    let r2 = reflected(Vector::new(0, -2, 0), Vector::new(0, 1, 0));
    assert_eq!(r2, Vector::new(0, 2, 0));
}
