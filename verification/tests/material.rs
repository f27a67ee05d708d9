use pathtracer::material::{must_reflect, scatters_outward};

fn mirrored(ratio_sine: f32, reflectance: f32, draw: f32) -> bool {
    must_reflect(ratio_sine.to_bits(), reflectance.to_bits(), draw.to_bits())
}

#[test]
fn total_internal_reflection_whatever_is_drawn() {
    for &draw in [0.0f32, 0.25, 0.5, 0.999_999, 1.0].iter() {
        for &reflectance in [0.0f32, 0.04, 0.5, 1.0].iter() {
            assert!(mirrored(1.000_001, reflectance, draw));
            assert!(mirrored(1.5, reflectance, draw));
            assert!(mirrored(f32::INFINITY, reflectance, draw));
        }
    }
}

#[test]
fn a_ray_that_can_be_refracted_is_mirrored_by_the_draw() {
    assert!(mirrored(0.5, 0.04, 0.039));
    assert!(!mirrored(0.5, 0.04, 0.04));
    assert!(!mirrored(0.5, 0.04, 0.9));
    assert!(!mirrored(1.0, 0.04, 0.5));
    assert!(mirrored(1.0, 1.0, 0.5));
    assert!(!mirrored(0.0, 0.0, 0.0));
}

#[test]
fn must_reflect_is_what_the_comparisons_say() {
    let values = [0.0f32, 0.04, 0.5, 1.0, 1.5, f32::NAN];
    for &s in values.iter() {
        for &r in values.iter() {
            for &d in values.iter() {
                assert_eq!(mirrored(s, r, d), s > 1.0 || r > d);
            }
        }
    }
}

#[test]
fn metal_sends_on_only_what_leaves_the_surface() {
    assert!(scatters_outward(0.5f32.to_bits()));
    assert!(scatters_outward(f32::MIN_POSITIVE.to_bits()));
    assert!(!scatters_outward(0.0f32.to_bits()));
    assert!(!scatters_outward((-0.0f32).to_bits()));
    assert!(!scatters_outward((-0.5f32).to_bits()));
    assert!(!scatters_outward(f32::NAN.to_bits()));
}
