use beevee::aabb::Aabb;
use beevee::geometry::Point;
use beevee::triangle::Triangle;

fn simple_triangle() -> Triangle {
    Triangle::new(Point::new(0, 0, 0), Point::new(0, 1, 1), Point::new(0, 1, 0))
}

#[test]
fn project_texel_works_1() {
    let triangle = simple_triangle();
    let ans = triangle.project_texel(&Point::new(0, 0, 0));
    assert!(ans.represents(0, 1, 0, 1));
}

#[test]
fn project_texel_works_2() {
    let triangle = simple_triangle();
    let ans = triangle.project_texel(&Point::new(0, 1, 1));
    assert!(ans.represents(1, 1, 0, 1));
}

#[test]
fn project_texel_works_3() {
    let triangle = simple_triangle();
    let ans = triangle.project_texel(&Point::new(0, 1, 0));
    assert!(ans.represents(0, 1, 1, 1));
}

#[test]
fn project_texel_at_midpoint() {
    // The midpoint of the edge between the second and third corners has
    // barycentric coordinates (1/2, 1/2); doubled, (1, 1) against (2, 2).
    let triangle = Triangle::new(
        Point::new(0, 0, 0),
        Point::new(0, 2, 2),
        Point::new(0, 2, 0),
    );
    let ans = triangle.project_texel(&Point::new(0, 2, 1));
    assert!(ans.represents(1, 2, 1, 2));
}

#[test]
fn triangle_aabb_is_corner_box() {
    let triangle = simple_triangle();
    let aabb = triangle.aabb();
    assert_eq!(
        aabb,
        Aabb::Bounds { lo: Point::new(0, 0, 0), hi: Point::new(0, 1, 1) }
    );
}
