use bbecs::data_types::number::Float;
use bbecs::data_types::point::Point;

fn float(value: f32) -> Float {
    Float::from_bits(value.to_bits())
}

fn number(value: Float) -> f32 {
    f32::from_bits(value.to_bits())
}

fn point(x: f32, y: f32) -> Point {
    Point::new(float(x), float(y))
}

#[test]
fn point_to_array_has_x_first() {
    let location = point(15.0, 7.0);
    assert_eq!(location.to_array(), [float(15.0), float(7.0)]);
}

#[test]
#[allow(clippy::float_cmp)]
fn point_perpendicular_left() {
    let velocity = point(10.0, 25.0);
    let left_velocity = velocity.to_perpendicular_left();
    assert_eq!(left_velocity, point(25.0, -10.0));
    assert_eq!(number(left_velocity.y), -10.0);
}

#[test]
#[allow(clippy::float_cmp)]
fn point_perpendicular_right() {
    let velocity = point(10.0, 25.0);
    let right_velocity = velocity.to_perpendicular_right();
    assert_eq!(right_velocity, point(-25.0, 10.0));
    assert_eq!(number(right_velocity.x), -25.0);
}

#[test]
#[allow(clippy::float_cmp)]
fn negation_flips_the_sign_of_every_number() {
    for value in [0.0_f32, -0.0, 1.5, -2.25, f32::INFINITY, f32::MIN_POSITIVE] {
        assert_eq!(float(value).negated().to_bits(), (-value).to_bits());
    }
    assert_eq!(
        float(f32::NAN).negated().to_bits(),
        (-f32::NAN).to_bits()
    );
}

#[test]
fn default_point_is_the_origin() {
    assert_eq!(Point::default(), point(0.0, 0.0));
}
