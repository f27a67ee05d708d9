use bevy_math::{Vec3, Vec4};
use pathtracer::tracer::{Path, Surface};
use pathtracer::types::{multiply_add, Ray};

fn ray(k: f32) -> Ray {
    Ray::new(Vec3::new(k, 0.0, 0.0), Vec3::new(0.0, 0.0, -1.0))
}

fn white() -> Vec4 {
    Vec4::new(1.0, 1.0, 1.0, 1.0)
}

#[test]
fn ray_keeps_origin_and_direction() {
    let r = Ray::new(Vec3::new(1.0, 2.0, 3.0), Vec3::new(0.0, -1.0, 0.5));
    assert_eq!(r.origin, Vec3::new(1.0, 2.0, 3.0));
    assert_eq!(r.direction, Vec3::new(0.0, -1.0, 0.5));
}

#[test]
fn no_depth_is_black() {
    let path = Path::begin(ray(0.0), white(), 0);
    assert!(path.cast().is_none());
    assert_eq!(path.finish(), Some(Vec4::splat(0.0)));
}

#[test]
fn no_depth_stays_black_whatever_is_reported() {
    let mut path = Path::begin(ray(0.0), white(), 0);
    path.advance(Surface::Absorbed { emitted: Vec4::new(9.0, 9.0, 9.0, 1.0) });
    path.advance(Surface::Missed);
    assert_eq!(path.finish(), Some(Vec4::ZERO));
}

#[test]
fn path_names_its_first_ray() {
    let path = Path::begin(ray(4.0), white(), 3);
    let cast = path.cast().unwrap();
    assert_eq!(cast.origin, Vec3::new(4.0, 0.0, 0.0));
    assert_eq!(cast.direction, Vec3::new(0.0, 0.0, -1.0));
    assert!(path.finish().is_none());
}

#[test]
fn a_miss_gives_the_background() {
    let background = Vec4::new(0.25, 0.5, 0.75, 1.0);
    let mut path = Path::begin(ray(0.0), background, 8);
    path.advance(Surface::Missed);
    assert!(path.cast().is_none());
    assert_eq!(path.finish(), Some(background));
}

#[test]
fn a_light_gives_what_it_emits() {
    let emitted = Vec4::new(1.0, 1.0, 0.5, 8.0);
    let mut path = Path::begin(ray(0.0), white(), 8);
    path.advance(Surface::Absorbed { emitted });
    assert!(path.cast().is_none());
    assert_eq!(path.finish(), Some(emitted));
}

#[test]
fn a_bounce_lets_through_its_share_of_the_background() {
    let attenuation = Vec4::new(0.5, 0.25, 0.125, 1.0);
    let background = Vec4::new(1.0, 0.5, 0.25, 1.0);
    let mut path = Path::begin(ray(0.0), background, 8);
    path.advance(Surface::Scattered { emitted: Vec4::ZERO, attenuation, scattered: ray(1.0) });
    assert_eq!(path.cast().unwrap().origin, Vec3::new(1.0, 0.0, 0.0));
    path.advance(Surface::Missed);
    assert_eq!(path.finish(), Some(Vec4::new(0.5, 0.125, 0.03125, 1.0)));
}

#[test]
fn bounces_fold_from_the_last_to_the_first() {
    let e = [Vec4::new(0.1, 0.2, 0.3, 0.0), Vec4::new(0.0, 1.5, 0.0, 0.0), Vec4::splat(0.7)];
    let a = [Vec4::new(0.9, 0.8, 0.7, 1.0), Vec4::splat(0.3), Vec4::new(0.1, 0.0, 2.0, 1.0)];
    let last = Vec4::new(3.0, 0.5, 0.25, 1.0);
    let mut path = Path::begin(ray(0.0), white(), 50);
    for k in 0..3 {
        path.advance(Surface::Scattered {
            emitted: e[k],
            attenuation: a[k],
            scattered: ray(k as f32),
        });
    }
    path.advance(Surface::Absorbed { emitted: last });
    let expected = e[0] + a[0] * (e[1] + a[1] * (e[2] + a[2] * last));
    assert_eq!(path.finish(), Some(expected));
}

#[test]
fn the_last_bounce_is_followed_by_black() {
    let mut path = Path::begin(ray(0.0), white(), 2);
    path.advance(Surface::Scattered {
        emitted: Vec4::new(0.5, 0.0, 0.0, 0.0),
        attenuation: Vec4::splat(0.5),
        scattered: ray(1.0),
    });
    assert!(path.cast().is_some());
    path.advance(Surface::Scattered {
        emitted: Vec4::new(0.0, 0.25, 0.0, 0.0),
        attenuation: Vec4::splat(0.5),
        scattered: ray(2.0),
    });
    assert!(path.cast().is_none());
    path.advance(Surface::Missed);
    assert_eq!(path.finish(), Some(Vec4::new(0.5, 0.125, 0.0, 0.0)));
}

#[test]
fn an_ended_path_takes_no_more_reports() {
    let mut path = Path::begin(ray(0.0), white(), 8);
    path.advance(Surface::Missed);
    path.advance(Surface::Absorbed { emitted: Vec4::splat(5.0) });
    path.advance(Surface::Scattered {
        emitted: Vec4::splat(5.0),
        attenuation: Vec4::splat(5.0),
        scattered: ray(1.0),
    });
    assert_eq!(path.finish(), Some(white()));
}

#[test]
fn a_path_takes_as_many_bounces_as_its_depth() {
    for depth in [1u32, 2, 5, 480] {
        let mut path = Path::begin(ray(0.0), white(), depth);
        let mut bounces = 0;
        while path.cast().is_some() {
            path.advance(Surface::Scattered {
                emitted: Vec4::ZERO,
                attenuation: Vec4::ONE,
                scattered: ray(0.0),
            });
            bounces += 1;
        }
        assert_eq!(bounces, depth);
        assert_eq!(path.finish(), Some(Vec4::ZERO));
    }
}

#[test]
fn multiply_add_stays_between_zero_and_one() {
    let a = Vec4::new(0.25, 0.5, -3.0, 0.0);
    let b = Vec4::new(0.5, 2.0, 1.0, 0.5);
    let c = Vec4::new(0.5, 2.0, 1.0, 0.5);
    assert_eq!(multiply_add(a, b, c), Vec4::new(0.5, 1.0, 0.0, 0.25));
}

#[test]
fn multiply_add_of_black_is_black() {
    assert_eq!(multiply_add(Vec4::ZERO, Vec4::ZERO, Vec4::ONE), Vec4::ZERO);
    assert_eq!(multiply_add(Vec4::ONE, Vec4::ONE, Vec4::ONE), Vec4::ONE);
}

#[test]
fn rays_compare_by_origin_and_direction() {
    let a = Ray::new(Vec3::new(1.0, 2.0, 3.0), Vec3::new(0.0, 0.0, -1.0));
    let b = Ray::new(Vec3::new(1.0, 2.0, 3.0), Vec3::new(0.0, 0.0, -1.0));
    let c = Ray::new(Vec3::new(1.0, 2.0, 3.5), Vec3::new(0.0, 0.0, -1.0));
    let d = Ray::new(Vec3::new(1.0, 2.0, 3.0), Vec3::new(0.0, 1.0, -1.0));
    assert!(a == b);
    assert!(a != c);
    assert!(a != d);
}
