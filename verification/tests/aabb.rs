use bevy_math::Vec3;
use pathtracer::aabb::AABB;

fn holds(outer: &AABB, inner: &AABB) -> bool {
    outer.min.x <= inner.min.x
        && outer.min.y <= inner.min.y
        && outer.min.z <= inner.min.z
        && inner.max.x <= outer.max.x
        && inner.max.y <= outer.max.y
        && inner.max.z <= outer.max.z
}

#[test]
fn new_keeps_both_corners() {
    let b = AABB::new(Vec3::new(1.0, 2.0, 3.0), Vec3::new(4.0, 5.0, 6.0));
    assert_eq!(b.min, Vec3::new(1.0, 2.0, 3.0));
    assert_eq!(b.max, Vec3::new(4.0, 5.0, 6.0));
}

#[test]
fn union_takes_least_and_greatest_corner() {
    let a = AABB::new(Vec3::new(0.0, -1.0, 2.0), Vec3::new(1.0, 1.0, 3.0));
    let b = AABB::new(Vec3::new(-2.0, 0.0, 2.5), Vec3::new(0.5, 4.0, 2.75));
    let u = AABB::surrounding_box(a, b);
    assert_eq!(u.min, Vec3::new(-2.0, -1.0, 2.0));
    assert_eq!(u.max, Vec3::new(1.0, 4.0, 3.0));
}

#[test]
fn union_contains_both_boxes() {
    let corners = [-3.5f32, -1.0, -0.0, 0.0, 0.25, 2.0, 1.0e30, f32::INFINITY];
    for &a0 in corners.iter() {
        for &a1 in corners.iter() {
            for &b0 in corners.iter() {
                for &b1 in corners.iter() {
                    let a = AABB::new(Vec3::new(a0, b0, a1), Vec3::new(a1, b1, a0));
                    let b = AABB::new(Vec3::new(b0, a1, b1), Vec3::new(b1, a0, b0));
                    let u = AABB::surrounding_box(a, b);
                    assert!(holds(&u, &a));
                    assert!(holds(&u, &b));
                }
            }
        }
    }
}

#[test]
fn union_of_a_box_with_itself_is_the_box() {
    let a = AABB::new(Vec3::new(-1.0, 2.0, 0.5), Vec3::new(1.0, 3.0, 0.75));
    let u = AABB::surrounding_box(a, a);
    assert_eq!(u.min, a.min);
    assert_eq!(u.max, a.max);
}

#[test]
fn union_passes_over_a_nan_lane() {
    let a = AABB::new(Vec3::new(f32::NAN, 0.0, 0.0), Vec3::new(1.0, f32::NAN, 1.0));
    let b = AABB::new(Vec3::new(-1.0, 1.0, -1.0), Vec3::new(0.0, 2.0, 0.0));
    let u = AABB::surrounding_box(a, b);
    assert_eq!(u.min, Vec3::new(-1.0, 0.0, -1.0));
    assert_eq!(u.max, Vec3::new(1.0, 2.0, 1.0));
}

#[test]
fn axis_key_reads_the_least_corner() {
    let b = AABB::new(Vec3::new(1.0, -1.0, 0.0), Vec3::new(9.0, 9.0, 9.0));
    assert_eq!(b.axis_key(0), 0x3F80_0000);
    assert_eq!(b.axis_key(1), -1 - 0x3F80_0000);
    assert_eq!(b.axis_key(2), 0);
}

#[test]
fn axis_key_rises_with_the_coordinate() {
    let xs = [-10.0f32, -0.5, -0.0, 0.0, 0.5, 3.0, 1.0e9];
    for i in 0..xs.len() {
        for j in 0..xs.len() {
            let a = AABB::new(Vec3::splat(xs[i]), Vec3::splat(20.0));
            let b = AABB::new(Vec3::splat(xs[j]), Vec3::splat(20.0));
            for axis in 0..3 {
                assert_eq!(a.axis_key(axis) < b.axis_key(axis), i < j);
            }
        }
    }
}

#[test]
fn translated_moves_both_corners() {
    let b = AABB::new(Vec3::new(1.0, 2.0, 3.0), Vec3::new(4.0, 5.0, 6.0));
    let t = b.translated(Vec3::new(-1.0, 0.5, 10.0));
    assert_eq!(t.min, Vec3::new(0.0, 2.5, 13.0));
    assert_eq!(t.max, Vec3::new(3.0, 5.5, 16.0));
}

#[test]
fn enclosing_nothing_is_the_empty_box() {
    let b = AABB::enclosing(&[]);
    assert_eq!(b.min, Vec3::splat(f32::INFINITY));
    assert_eq!(b.max, Vec3::splat(f32::NEG_INFINITY));
}

#[test]
fn enclosing_takes_the_extremes_of_every_lane() {
    let points = [
        Vec3::new(1.0, -2.0, 3.0),
        Vec3::new(-1.0, 5.0, 3.5),
        Vec3::new(0.0, 0.0, -7.0),
    ];
    let b = AABB::enclosing(&points);
    assert_eq!(b.min, Vec3::new(-1.0, -2.0, -7.0));
    assert_eq!(b.max, Vec3::new(1.0, 5.0, 3.5));
    for p in points.iter() {
        assert!(b.min.x <= p.x && p.x <= b.max.x);
        assert!(b.min.y <= p.y && p.y <= b.max.y);
        assert!(b.min.z <= p.z && p.z <= b.max.z);
    }
}

#[test]
fn enclosing_one_point_is_that_point() {
    let b = AABB::enclosing(&[Vec3::new(2.0, 3.0, 4.0)]);
    assert_eq!(b.min, Vec3::new(2.0, 3.0, 4.0));
    assert_eq!(b.max, Vec3::new(2.0, 3.0, 4.0));
}
