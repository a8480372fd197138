use beevee::geometry::Point;
use beevee::light::{LinearColor, PointLight};

#[test]
fn new_works() {
    let position = Point::new(0, 0, 0);
    let color = LinearColor::black();
    let light = PointLight::new(position, color.clone());
    let res = PointLight { position, color };
    assert_eq!(light, res)
}

fn simple_light() -> PointLight {
    let position = Point::new(0, 0, 0);
    let color = LinearColor::new(1, 1, 1);
    PointLight::new(position, color)
}

#[test]
fn illumination_is_correct() {
    let light = simple_light();
    let lum = light.illumination(&Point::new(1, 0, 0));
    assert_eq!(lum, LinearColor::new(1, 1, 1))
}

#[test]
fn illumination_follows_square_distance_law() {
    let light = simple_light();
    // Three units along each axis: squared distance 27.
    let lum = light.illumination(&Point::new(3, 3, 3));
    assert_eq!(lum.r, 1);
    assert_eq!(lum.g, 1);
    assert_eq!(lum.b, 1);
    assert_eq!(lum.den, 27);
}
