use bevy_math::Vec3;
use pathtracer::util::{near_zero, NEAR_ZERO};

#[test]
fn the_threshold_is_a_hundred_millionth() {
    assert_eq!(NEAR_ZERO, 1e-8f32.to_bits());
}

#[test]
fn the_null_vector_is_near_zero() {
    assert!(near_zero(Vec3::ZERO));
    assert!(near_zero(Vec3::new(-0.0, 0.0, -0.0)));
    assert!(near_zero(Vec3::new(9.0e-9, -9.0e-9, 1.0e-30)));
}

#[test]
fn one_lane_at_the_threshold_is_enough_to_give_a_direction() {
    assert!(!near_zero(Vec3::new(1.0e-8, 0.0, 0.0)));
    assert!(!near_zero(Vec3::new(0.0, -1.0e-8, 0.0)));
    assert!(!near_zero(Vec3::new(0.0, 0.0, 1.0)));
    assert!(!near_zero(Vec3::new(f32::NAN, 0.0, 0.0)));
    assert!(!near_zero(Vec3::new(0.0, f32::INFINITY, 0.0)));
}

#[test]
fn near_zero_is_what_the_comparisons_say() {
    let values = [0.0f32, -0.0, 5.0e-9, -5.0e-9, 1.0e-8, -1.0e-8, 2.0e-8, 1.0, f32::NAN];
    for &x in values.iter() {
        for &y in values.iter() {
            for &z in values.iter() {
                let expected = x.abs() < 1e-8 && y.abs() < 1e-8 && z.abs() < 1e-8;
                assert_eq!(near_zero(Vec3::new(x, y, z)), expected);
            }
        }
    }
}
