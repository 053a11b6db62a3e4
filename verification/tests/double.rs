use resonate::double::{double, double_of, Double, Fraction};
use resonate::scalar::Scalar;

fn native(d: Double) -> f64 {
    d.m as f64 * 2f64.powi(d.x)
}

#[test]
fn quotients_round_as_doubles_do() {
    let mut x: u64 = 11;
    let mut next = || {
        x = x.wrapping_mul(6_364_136_223_846_793_005).wrapping_add(1_442_695_040_888_963_407);
        x
    };
    for _ in 0..20_000 {
        let a = next() >> (next() % 60);
        let b = (next() >> 11) >> (next() % 50);
        assert_eq!(native(double_of(a)), a as f64);
        if b > 0 {
            assert_eq!(native(double_of(a).over(double_of(b))), a as f64 / b as f64);
            assert_eq!(native(double_of(a).times(double_of(b))), a as f64 * b as f64);
            let q = a as f64 / b as f64;
            let d = double_of(a).over(double_of(b));
            assert_eq!(d.floor(u64::MAX), q as u64);
            assert_eq!(d.ceil(u64::MAX), q.ceil() as u64);
            assert_eq!(d.round(u64::MAX), q.round() as u64);
            assert_eq!(f32::from_bits(d.fraction().bits), (q - q.floor()) as f32);
        }
    }
}

#[test]
fn halves_go_to_the_even_significand() {
    let top: u64 = 1 << 53;
    assert_eq!(double_of(top + 1), double_of(top));
    assert_eq!(native(double_of(top + 3)), (top + 4) as f64);
    assert_eq!(double(0, 3, 5), double_of(0));
    assert_eq!(double_of(3).over(double_of(2)).round(9), 2);
    assert_eq!(double_of(10).floor(9), 9);
}

#[test]
fn single_numbers_are_doubles() {
    for x in [0.0f32, 1.0, 0.1, 3.25e-41, f32::MAX, 1e-30] {
        assert_eq!(native(Scalar { bits: x.to_bits() }.widen()), x as f64);
    }
}

#[test]
fn fractions_are_pinned_and_narrowed() {
    let f = |x: f64| Fraction { bits: x.to_bits() };
    let mut x: u64 = 3;
    for i in 0..40_000u64 {
        x = x.wrapping_mul(6_364_136_223_846_793_005).wrapping_add(1_442_695_040_888_963_407);
        // Some patterns as they come, and some that lie between 0 and 1.
        let bits = if i % 2 == 0 { x } else { x % 0x3ff0_0000_0000_0001 };
        let native = f64::from_bits(bits).clamp(0.0, 1.0);
        let pinned = Fraction { bits }.pin();
        if native.is_nan() {
            assert!(f64::from_bits(pinned.bits).is_nan());
            assert!(f32::from_bits(pinned.narrow().bits).is_nan());
        } else {
            assert_eq!(pinned.bits, native.to_bits());
            assert_eq!(pinned.narrow().bits, (native as f32).to_bits());
        }
    }
    assert_eq!(f(-0.0).pin().narrow().bits, (-0.0f32).to_bits());
    assert_eq!(f(1e-40).narrow().bits, 1e-40f32.to_bits());
    assert_eq!(f(1e-200).narrow().bits, 0);
    assert!(f(0.5).is_above(0) && !f(0.0).is_above(0) && !f(-1.0).is_above(0));
}
