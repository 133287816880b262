use bvh_core::scalar::{Scalar, INFINITY_KEY, NEG_INFINITY_KEY, ONE_KEY};

fn s(x: f64) -> Scalar {
    Scalar::from_bits(x.to_bits())
}

fn f(x: Scalar) -> f64 {
    f64::from_bits(x.to_bits())
}

#[test]
fn keys_of_landmarks() {
    assert_eq!(s(0.0).key, 0);
    assert_eq!(s(-0.0).key, 0);
    assert_eq!(s(1.0).key, ONE_KEY);
    assert_eq!(s(1.0).key, 4607182418800017408);
    assert_eq!(s(-1.0).key, -4607182418800017408);
    assert_eq!(s(f64::INFINITY).key, INFINITY_KEY);
    assert_eq!(s(f64::NEG_INFINITY).key, NEG_INFINITY_KEY);
    assert_eq!(Scalar::zero(), s(0.0));
    assert_eq!(Scalar::one(), s(1.0));
    assert_eq!(Scalar::infinity(), s(f64::INFINITY));
    assert_eq!(Scalar::neg_infinity(), s(f64::NEG_INFINITY));
}

#[test]
fn bits_round_trip() {
    for x in [0.0, 1.0, -1.0, 1e-4, -5e-5, 3.25, -1e300, f64::INFINITY, f64::NEG_INFINITY, f64::MIN_POSITIVE] {
        assert_eq!(f(s(x)), x);
        assert_eq!(s(x).to_bits(), if x == 0.0 { 0 } else { x.to_bits() });
    }
    assert_eq!(s(-0.0).to_bits(), 0);
}

#[test]
fn key_order_is_the_order_of_the_doubles() {
    let xs = [
        f64::NEG_INFINITY,
        f64::MIN,
        -1e300,
        -2.5,
        -1.0,
        -1e-300,
        -5e-324,
        -0.0,
        0.0,
        5e-324,
        1e-300,
        0.5,
        1.0,
        4.0,
        1e300,
        f64::MAX,
        f64::INFINITY,
    ];
    for a in xs {
        for b in xs {
            assert_eq!(s(a).lt(s(b)), a < b);
            assert_eq!(s(a).le(s(b)), a <= b);
            assert_eq!(s(a).key < s(b).key, a < b);
        }
    }
}

#[test]
fn comparisons_with_a_non_number_are_false() {
    let nan = s(f64::NAN);
    assert!(!nan.numeric());
    assert!(s(1.0).numeric());
    assert!(s(f64::INFINITY).numeric());
    for x in [f64::NEG_INFINITY, -1.0, 0.0, 1.0, f64::INFINITY, f64::NAN] {
        assert!(!nan.lt(s(x)));
        assert!(!s(x).lt(nan));
        assert!(!nan.le(s(x)));
        assert!(!s(x).le(nan));
    }
}

#[test]
fn min_max_and_neg() {
    assert_eq!(s(1.0).min(s(2.0)), s(1.0));
    assert_eq!(s(2.0).min(s(1.0)), s(1.0));
    assert_eq!(s(1.0).max(s(2.0)), s(2.0));
    assert_eq!(s(-3.0).max(s(-4.0)), s(-3.0));
    assert_eq!(s(1.0).min(s(f64::NAN)), s(1.0));
    assert_eq!(s(1.0).max(s(f64::NAN)), s(1.0));
    assert_eq!(s(2.5).neg(), s(-2.5));
    assert_eq!(s(-2.5).neg(), s(2.5));
    assert_eq!(s(0.0).neg(), s(0.0));
    assert_eq!(Scalar { key: i64::MIN }.neg(), Scalar { key: i64::MIN });
}

#[test]
fn every_key_has_a_pattern() {
    assert_eq!(Scalar { key: i64::MIN }.to_bits(), u64::MAX);
    assert_eq!(Scalar { key: i64::MIN + 1 }.to_bits(), u64::MAX);
    assert_eq!(Scalar { key: i64::MAX }.to_bits(), 0x7FFF_FFFF_FFFF_FFFF);
    assert_eq!(Scalar { key: -1 }.to_bits(), 0x8000_0000_0000_0001);
    assert_eq!(Scalar::from_bits(u64::MAX).key, i64::MIN + 1);
    assert_eq!(Scalar::from_bits(0x8000_0000_0000_0001).key, -1);
    assert!(!Scalar { key: i64::MIN }.numeric());
    assert_eq!(Scalar { key: 5 }.abs(), Scalar { key: 5 });
    assert_eq!(Scalar { key: -5 }.abs(), Scalar { key: 5 });
}
