use topaz::number;

fn samples() -> Vec<f64> {
    vec![
        0.0,
        -0.0,
        1.0,
        -1.0,
        0.5,
        -0.5,
        1.5,
        -1.5,
        2.0,
        3.0,
        0.1,
        0.999_999_999_999_999_9,
        1.000_000_000_000_000_2,
        255.0,
        255.5,
        1e15,
        4_503_599_627_370_495.5,
        4_503_599_627_370_496.0,
        4_503_599_627_370_497.0,
        9_007_199_254_740_992.0,
        9_007_199_254_740_993.0,
        -9_007_199_254_740_992.0,
        1e300,
        -1e300,
        f64::MAX,
        f64::MIN,
        f64::MIN_POSITIVE,
        -f64::MIN_POSITIVE,
        f64::from_bits(1),
        f64::from_bits(0x8000_0000_0000_0001),
        f64::EPSILON,
        f64::INFINITY,
        f64::NEG_INFINITY,
        f64::NAN,
        -f64::NAN,
        f64::from_bits(0x7ff0_0000_0000_0001),
        f64::from_bits(0xfff8_0000_0000_0001),
    ]
}

#[test]
fn constants_are_the_patterns_they_name() {
    assert_eq!(number::ONE, 1.0f64.to_bits());
    assert_eq!(number::ZERO, 0.0f64.to_bits());
    assert_eq!(number::INFINITY, f64::INFINITY.to_bits());
    assert_eq!(number::SIGN, (-0.0f64).to_bits());
}

#[test]
fn is_nan_agrees_with_the_hardware() {
    for x in samples() {
        assert_eq!(number::is_nan(x.to_bits()), x.is_nan(), "{:?}", x);
    }
}

#[test]
fn is_zero_agrees_with_the_hardware() {
    for x in samples() {
        assert_eq!(number::is_zero(x.to_bits()), x == 0.0, "{:?}", x);
    }
}

#[test]
fn negate_agrees_with_the_hardware() {
    for x in samples() {
        assert_eq!(number::negate(x.to_bits()), (-x).to_bits(), "{:?}", x);
    }
}

#[test]
fn abs_agrees_with_the_hardware() {
    for x in samples() {
        assert_eq!(number::abs(x.to_bits()), x.abs().to_bits(), "{:?}", x);
    }
}

#[test]
fn eq_agrees_with_the_hardware() {
    for x in samples() {
        for y in samples() {
            assert_eq!(number::eq(x.to_bits(), y.to_bits()), x == y, "{:?} {:?}", x, y);
        }
    }
}

#[test]
fn lt_agrees_with_the_hardware() {
    for x in samples() {
        for y in samples() {
            assert_eq!(number::lt(x.to_bits(), y.to_bits()), x < y, "{:?} {:?}", x, y);
        }
    }
}

#[test]
fn gt_agrees_with_the_hardware() {
    for x in samples() {
        for y in samples() {
            assert_eq!(number::gt(x.to_bits(), y.to_bits()), x > y, "{:?} {:?}", x, y);
        }
    }
}

#[test]
fn has_fraction_agrees_with_the_hardware() {
    for x in samples() {
        let expected = (x - x.round()).abs() > 0f64;
        assert_eq!(number::has_fraction(x.to_bits()), expected, "{:?}", x);
    }
}

#[test]
fn has_fraction_on_every_exponent() {
    let fractions = [0u64, 1, 2, 0x8_0000_0000_0000, 0x8_0000_0000_0001, 0xf_ffff_ffff_ffff];
    for exponent in 0..2048u64 {
        for fraction in fractions {
            let pattern = (exponent << 52) | fraction;
            let x = f64::from_bits(pattern);
            let expected = (x - x.round()).abs() > 0f64;
            assert_eq!(number::has_fraction(pattern), expected, "{:?}", x);
            assert_eq!(number::has_fraction(pattern | number::SIGN), expected, "-{:?}", x);
        }
    }
}

#[test]
fn whole_numbers_have_no_fraction() {
    assert!(!number::has_fraction(0.0f64.to_bits()));
    assert!(!number::has_fraction(7.0f64.to_bits()));
    assert!(!number::has_fraction((-12.0f64).to_bits()));
    assert!(number::has_fraction(7.5f64.to_bits()));
    assert!(number::has_fraction(0.25f64.to_bits()));
    assert!(!number::has_fraction(f64::INFINITY.to_bits()));
    assert!(!number::has_fraction(f64::NAN.to_bits()));
}
