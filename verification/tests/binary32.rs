use pathtracer::binary32::order_key;

#[test]
fn order_key_of_named_patterns() {
    assert_eq!(order_key(0x0000_0000), 0);
    assert_eq!(order_key(0x8000_0000), -1);
    assert_eq!(order_key(1.0f32.to_bits()), 0x3F80_0000);
    assert_eq!(order_key((-1.0f32).to_bits()), -1 - 0x3F80_0000);
    assert_eq!(order_key(f32::INFINITY.to_bits()), 0x7F80_0000);
    assert_eq!(order_key(f32::NEG_INFINITY.to_bits()), -1 - 0x7F80_0000);
    assert_eq!(order_key(0x7FFF_FFFF), i32::MAX);
    assert_eq!(order_key(0xFFFF_FFFF), i32::MIN);
}

#[test]
fn order_key_orders_as_the_total_order_does() {
    let values = [
        f32::from_bits(0xFFFF_FFFF),
        f32::from_bits(0xFFC0_0000),
        f32::NEG_INFINITY,
        f32::MIN,
        -1.5,
        -1.0,
        -f32::MIN_POSITIVE,
        -f32::from_bits(1),
        -0.0,
        0.0,
        f32::from_bits(1),
        f32::MIN_POSITIVE,
        0.001,
        1.0,
        1.5,
        f32::MAX,
        f32::INFINITY,
        f32::NAN,
        f32::from_bits(0x7FFF_FFFF),
    ];
    for a in values.iter() {
        for b in values.iter() {
            let by_key = order_key(a.to_bits()).cmp(&order_key(b.to_bits()));
            assert_eq!(by_key, a.total_cmp(b), "{:?} against {:?}", a, b);
        }
    }
}

#[test]
fn order_key_puts_negative_zero_before_positive_zero() {
    assert!(order_key((-0.0f32).to_bits()) < order_key(0.0f32.to_bits()));
}

fn samples() -> Vec<f32> {
    vec![
        f32::from_bits(0xFFC0_0001),
        f32::NEG_INFINITY,
        f32::MIN,
        -2.5,
        -1.0,
        -f32::MIN_POSITIVE,
        -f32::from_bits(1),
        -0.0,
        0.0,
        f32::from_bits(1),
        f32::MIN_POSITIVE,
        1.0e-8,
        0.001,
        1.0,
        2.5,
        f32::MAX,
        f32::INFINITY,
        f32::NAN,
        f32::from_bits(0x7F80_0001),
    ]
}

fn same_value(a: f32, b: f32) -> bool {
    a == b || (a.is_nan() && b.is_nan())
}

#[test]
fn nan_is_told_from_numbers() {
    for x in samples() {
        assert_eq!(pathtracer::binary32::nan(x.to_bits()), x.is_nan());
    }
    assert!(!pathtracer::binary32::nan(0x7F80_0000));
    assert!(pathtracer::binary32::nan(0x7F80_0001));
    assert!(!pathtracer::binary32::nan(0xFF80_0000));
    assert!(pathtracer::binary32::nan(0xFFFF_FFFF));
}

#[test]
fn less_is_the_numeric_order() {
    for a in samples() {
        for b in samples() {
            assert_eq!(pathtracer::binary32::less(a.to_bits(), b.to_bits()), a < b, "{} {}", a, b);
        }
    }
}

#[test]
fn at_most_is_the_numeric_order() {
    for a in samples() {
        for b in samples() {
            assert_eq!(
                pathtracer::binary32::at_most(a.to_bits(), b.to_bits()),
                a <= b,
                "{} {}",
                a,
                b
            );
        }
    }
}

#[test]
fn the_two_zeros_are_equal_in_value() {
    let plus = 0.0f32.to_bits();
    let minus = (-0.0f32).to_bits();
    assert!(pathtracer::binary32::at_most(plus, minus));
    assert!(pathtracer::binary32::at_most(minus, plus));
    assert!(!pathtracer::binary32::less(minus, plus));
}

#[test]
fn greater_of_and_lesser_of_pass_over_nan() {
    for a in samples() {
        for b in samples() {
            let up = f32::from_bits(pathtracer::binary32::greater_of(a.to_bits(), b.to_bits()));
            let down = f32::from_bits(pathtracer::binary32::lesser_of(a.to_bits(), b.to_bits()));
            assert!(same_value(up, a.max(b)), "{} {}", a, b);
            assert!(same_value(down, a.min(b)), "{} {}", a, b);
        }
    }
}

#[test]
fn greater_of_keeps_the_first_of_two_equals() {
    let plus = 0.0f32.to_bits();
    let minus = (-0.0f32).to_bits();
    assert_eq!(pathtracer::binary32::greater_of(plus, minus), plus);
    assert_eq!(pathtracer::binary32::greater_of(minus, plus), minus);
    assert_eq!(pathtracer::binary32::lesser_of(plus, minus), plus);
    assert_eq!(pathtracer::binary32::lesser_of(minus, plus), minus);
}
