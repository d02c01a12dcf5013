use raytrace::fixed::{Fixed, LIMIT, SCALE};
use raytrace::ray::Ray;
use raytrace::vec3::Vec3;

fn v(x: i64, y: i64, z: i64) -> Vec3 {
    Vec3::new(Fixed::from_raw(x), Fixed::from_raw(y), Fixed::from_raw(z))
}

fn raws(p: Vec3) -> (i64, i64, i64) {
    (p.x.raw(), p.y.raw(), p.z.raw())
}

#[test]
fn zero_has_zero_components() {
    assert_eq!(raws(Vec3::zero()), (0, 0, 0));
}

#[test]
fn add_sub_neg_work_by_component() {
    let a = v(1_000_000, 2_000_000, 3_000_000);
    let b = v(500_000, -500_000, 250_000);
    assert_eq!(raws(a.add(b)), (1_500_000, 1_500_000, 3_250_000));
    assert_eq!(raws(a.sub(b)), (500_000, 2_500_000, 2_750_000));
    assert_eq!(raws(b.neg()), (-500_000, 500_000, -250_000));
}

#[test]
fn scale_div_mul_work_by_component() {
    let a = v(1_000_000, -2_000_000, 3_000_000);
    assert_eq!(raws(a.scale(Fixed::from_raw(500_000))), (500_000, -1_000_000, 1_500_000));
    assert_eq!(raws(a.div(Fixed::from_raw(2_000_000))), (500_000, -1_000_000, 1_500_000));
    let b = v(700_000, 300_000, 300_000);
    assert_eq!(raws(a.mul(b)), (700_000, -600_000, 900_000));
}

#[test]
fn dot_rounds_the_exact_sum_once() {
    let a = v(1_000_000, 2_000_000, 3_000_000);
    let b = v(4_000_000, -5_000_000, 6_000_000);
    // 4 - 10 + 18 = 12
    assert_eq!(a.dot(b).raw(), 12_000_000);
    // three products of 0.0000005 each sum to 0.0000015; rounded one by one they would vanish
    let c = v(1, 1, 1);
    let d = v(500_000, 500_000, 500_000);
    assert_eq!(c.dot(d).raw(), 1);
}

#[test]
fn dot_saturates() {
    let a = v(LIMIT, LIMIT, LIMIT);
    assert_eq!(a.dot(a).raw(), LIMIT);
    assert_eq!(a.dot(a.neg()).raw(), -LIMIT);
}

#[test]
fn length_of_three_four_is_five() {
    let a = v(3_000_000, 4_000_000, 0);
    assert_eq!(a.length_squared().raw(), 25_000_000);
    assert_eq!(a.length().raw(), 5_000_000);
}

#[test]
fn length_is_exact_for_tiny_vectors() {
    // The squared length rounds to zero, the length does not.
    let a = v(3, 4, 0);
    assert_eq!(a.length_squared().raw(), 0);
    assert_eq!(a.length().raw(), 5);
    assert!(a.is_degenerate());
}

#[test]
fn length_saturates() {
    let a = v(LIMIT, LIMIT, LIMIT);
    assert_eq!(a.length().raw(), LIMIT);
}

#[test]
fn unit_vector_of_axis_vectors() {
    assert_eq!(raws(v(0, -7_000_000, 0).unit_vector()), (0, -SCALE, 0));
    assert_eq!(raws(v(0, 0, 250_000).unit_vector()), (0, 0, SCALE));
    assert_eq!(raws(v(3_000_000, 4_000_000, 0).unit_vector()), (600_000, 800_000, 0));
}

#[test]
fn unit_vector_of_zero_is_zero() {
    assert_eq!(raws(Vec3::zero().unit_vector()), (0, 0, 0));
}

#[test]
fn degenerate_means_squared_length_zero() {
    assert!(Vec3::zero().is_degenerate());
    assert!(v(999, 0, 0).is_degenerate());
    assert!(!v(1_000, 0, 0).is_degenerate());
    assert!(!v(0, 0, -SCALE).is_degenerate());
}

#[test]
fn reflect_mirrors_about_the_normal() {
    // (1, -1, 0) reflected about the normal (0, 1, 0) is (1, 1, 0)
    let incoming = v(1_000_000, -1_000_000, 0);
    let normal = v(0, 1_000_000, 0);
    assert_eq!(raws(incoming.reflect(normal)), (1_000_000, 1_000_000, 0));
    // a vector along the surface is unchanged
    let along = v(0, 0, 2_000_000);
    assert_eq!(raws(along.reflect(normal)), (0, 0, 2_000_000));
}

#[test]
fn ray_at_walks_along_the_direction() {
    let r = Ray::new(v(1_000_000, 0, 0), v(0, 2_000_000, -1_000_000));
    assert_eq!(r.origin, v(1_000_000, 0, 0));
    assert_eq!(r.direction, v(0, 2_000_000, -1_000_000));
    assert_eq!(raws(r.at(Fixed::from_raw(0))), (1_000_000, 0, 0));
    assert_eq!(raws(r.at(Fixed::from_raw(1_500_000))), (1_000_000, 3_000_000, -1_500_000));
    assert_eq!(raws(r.at(Fixed::from_raw(-500_000))), (1_000_000, -1_000_000, 500_000));
}
