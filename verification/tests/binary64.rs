//! Double-precision arithmetic, against the machine's.

use draug::binary64::Binary64;

fn f(x: f64) -> Binary64 {
    Binary64::from_bits(x.to_bits())
}

fn samples() -> Vec<f64> {
    let mut v = vec![
        0.0,
        -0.0,
        1.0,
        -1.0,
        0.85,
        3.0,
        1e300,
        1e-300,
        5e-324,
        -5e-324,
        2.2250738585072014e-308,
        2.225073858507201e-308,
        1.7976931348623157e308,
        f64::INFINITY,
        f64::NEG_INFINITY,
        f64::NAN,
        1.5,
        9007199254740991.0,
        9007199254740993.0,
    ];
    let mut seed: u64 = 0x9e37_79b9_7f4a_7c15;
    for _ in 0..400 {
        seed ^= seed << 13;
        seed ^= seed >> 7;
        seed ^= seed << 17;
        v.push(f64::from_bits(seed));
    }
    v
}

#[test]
fn comparison_is_that_of_the_machine() {
    let v = samples();
    for &a in &v {
        for &b in &v {
            assert_eq!(f(a).ge(f(b)), a >= b, "{a:e} {b:e}");
        }
        assert_eq!(f(a).is_finite(), a.is_finite());
    }
}

#[test]
fn division_is_that_of_the_machine() {
    let v = samples();
    for &a in &v {
        for &b in &v {
            let mine = f64::from_bits(f(a).div(f(b)).bits);
            let theirs = a / b;
            if theirs.is_nan() {
                assert!(mine.is_nan(), "{a:e} {b:e}");
            } else {
                assert_eq!(mine.to_bits(), theirs.to_bits(), "{a:e} {b:e}");
            }
        }
    }
}

#[test]
fn whole_numbers_convert_like_the_machine() {
    let mut seed: u64 = 0x2545_f491_4f6c_dd1d;
    for shift in 0..64 {
        for _ in 0..40 {
            seed ^= seed << 13;
            seed ^= seed >> 7;
            seed ^= seed << 17;
            let n = seed >> shift;
            assert_eq!(Binary64::from_u64(n), f(n as f64), "{n}");
        }
    }
    for n in [
        0,
        1,
        9_007_199_254_740_992,
        9_007_199_254_740_993,
        9_007_199_254_740_995,
        u64::MAX,
        u64::MAX - 1024,
        u64::MAX - 1023,
    ] {
        assert_eq!(Binary64::from_u64(n), f(n as f64), "{n}");
    }
}

#[test]
fn hundredfold_is_that_of_the_machine() {
    for a in samples() {
        if a.is_finite() && a.is_sign_positive() {
            assert_eq!(f(a).times_hundred(), f(100.0 * a), "{a:e}");
        }
    }
}

#[test]
fn named_numbers() {
    assert_eq!(Binary64::zero(), f(0.0));
    assert_eq!(Binary64::one(), f(1.0));
    assert_eq!(Binary64::infinity(), f(f64::INFINITY));
}
