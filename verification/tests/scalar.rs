//! Single-precision arithmetic in integers, held against the machine's own.

use resonate::arithmetic::from_whole;
use resonate::rounding::{from_milli, is_close, percent, quotient};
use resonate::scalar::Scalar;

fn s(x: f32) -> Scalar {
    Scalar { bits: x.to_bits() }
}

fn f(x: Scalar) -> f32 {
    f32::from_bits(x.bits)
}

fn same(a: Scalar, b: f32) -> bool {
    (f(a).is_nan() && b.is_nan()) || a.bits == b.to_bits()
}

/// Numbers of every sort, and some that a simple generator gives.
fn samples() -> Vec<f32> {
    let mut v: Vec<f32> = vec![
        0.0, -0.0, 1.0, -1.0, 0.5, 0.1, 0.2, 0.3, 1.5, 2.0, 3.0, 7.0, 10.0, 100.0, 0.02, 0.05,
        0.89, 0.995, 1e-6, 1e-3, 1e-38, 1e-40, 1.4e-45, 3.4e38, -3.4e38, 1.1754944e-38,
        16777216.0, 16777217.0, 33554432.0, 48000.0, 96000.0, 4294967296.0, 1e20, -1e20,
        f32::MAX, f32::MIN, f32::MIN_POSITIVE, f32::EPSILON, f32::INFINITY, f32::NEG_INFINITY,
        f32::NAN,
    ];
    let mut state: u32 = 12345;
    for _ in 0..40 {
        state = state.wrapping_mul(1664525).wrapping_add(1013904223);
        v.push(f32::from_bits(state));
    }
    v
}

#[test]
fn sums_and_differences_round_like_the_machine() {
    let v = samples();
    for &a in &v {
        for &b in &v {
            assert!(same(s(a).plus(s(b)), a + b), "{a:e} + {b:e}");
            assert!(same(s(a).minus(s(b)), a - b), "{a:e} - {b:e}");
        }
    }
}

#[test]
fn products_and_quotients_round_like_the_machine() {
    let v = samples();
    for &a in &v {
        for &b in &v {
            assert!(same(s(a).times(s(b)), a * b), "{a:e} * {b:e}");
            assert!(same(s(a).over(s(b)), a / b), "{a:e} / {b:e}");
        }
    }
}

#[test]
fn order_is_that_of_the_machine() {
    let v = samples();
    for &a in &v {
        for &b in &v {
            assert_eq!(s(a).below(s(b)), a < b);
            assert_eq!(s(a).at_most(s(b)), a <= b);
            let larger = f(s(a).max_with(s(b)));
            let smaller = f(s(a).min_with(s(b)));
            assert!(larger == a.max(b) || (larger.is_nan() && a.max(b).is_nan()));
            assert!(smaller == a.min(b) || (smaller.is_nan() && a.min(b).is_nan()));
        }
        assert!(same(s(a).negate(), -a));
        assert!(same(s(a).abs(), a.abs()));
    }
}

#[test]
fn whole_parts_and_rounding() {
    for &a in &samples() {
        assert_eq!(s(a).floor_times(1, u64::MAX), a as u64, "{a:e}");
        assert_eq!(s(a).floor_times(96_000, u64::MAX), (a as f64 * 96_000.0) as u64, "{a:e}");
        assert!(same(s(a).round(), a.round()), "{a:e}");
    }
    for a in [0.4f32, 0.5, 0.6, 1.5, 2.5, -0.5, -1.5, 8388607.5, 8388608.0] {
        assert!(same(s(a).round(), a.round()), "{a}");
    }
    assert_eq!(s(1e9).floor_times(1, 255), 255);
    assert_eq!(s(-3.0).floor_times(1, 255), 0);
}

#[test]
fn whole_numbers_are_rounded() {
    for n in [0u64, 1, 2, 48_000, 16_777_217, 123_456_789, u32::MAX as u64, u64::MAX] {
        assert!(same(from_whole(n), n as f32), "{n}");
    }
}

#[test]
fn decimal_fractions_are_the_nearest_numbers() {
    for (n, x) in [
        (0, 0.0f32), (1, 0.001), (20, 0.02), (50, 0.05), (350, 0.35), (890, 0.89), (995, 0.995),
        (1000, 1.0), (1500, 1.5), (-20_000, -20.0), (-1, -0.001), (3_400_000, 3400.0),
        (2_147_483_647, 2147483.647),
    ] {
        assert_eq!(from_milli(n).bits, x.to_bits(), "{n}");
    }
}

#[test]
fn quotients_of_whole_numbers() {
    for n in [0u32, 1, 33, 50, 67, 100, 250, u32::MAX] {
        assert_eq!(percent(n).bits, (n as f32 / 100.0).to_bits(), "{n}");
        assert_eq!(quotient(n as u64, 48_000).bits, (n as f32 / 48_000.0).to_bits(), "{n}");
    }
}

#[test]
fn closeness_is_a_millionth_of_the_larger_scale() {
    let close = |a: f32, b: f32| (a - b).abs() <= 1e-6 * a.abs().max(1.0);
    for a in [0.0f32, 0.5, 1.0, 1.5, 100.0, 3400.0, -20.0, 1e-6] {
        for step in [-40i32, -3, -1, 0, 1, 2, 8, 9, 40] {
            let b = f32::from_bits((a.to_bits() as i64 + step as i64).max(0) as u32);
            assert_eq!(is_close(s(a), s(b)), close(a, b), "{a} {b}");
        }
        for b in [0.0f32, 0.5000004, 0.5000006, 1.0000011, 100.0002, 3400.01, -20.00001] {
            assert_eq!(is_close(s(a), s(b)), close(a, b), "{a} {b}");
        }
    }
}

#[test]
fn clamping_keeps_what_is_inside() {
    assert_eq!(s(0.5).clamp_to(s(0.0), s(1.0)), s(0.5));
    assert_eq!(s(1.5).clamp_to(s(0.0), s(1.0)), s(1.0));
    assert_eq!(s(-1.5).clamp_to(s(0.0), s(1.0)), s(0.0));
    assert!(s(f32::NAN).clamp_to(s(0.0), s(1.0)).not_a_number());
    assert_eq!(Scalar::zero(), s(0.0));
    assert_eq!(Scalar::one(), s(1.0));
}

#[test]
fn roots_are_those_of_the_machine() {
    let mut state: u32 = 3;
    for _ in 0..20_000 {
        state = state.wrapping_mul(1664525).wrapping_add(1013904223);
        let x = f32::from_bits(state & 0x7fff_ffff);
        if x.is_finite() {
            assert_eq!(f(s(x).sqrt()).to_bits(), x.sqrt().to_bits(), "{x}");
        }
    }
    for x in [0.0f32, -0.0, 1.0, 2.0, 4.0, 1e-45, 1e-40, f32::MIN_POSITIVE, f32::MAX, 0.25] {
        assert_eq!(f(s(x).sqrt()).to_bits(), x.sqrt().to_bits(), "{x}");
    }
    assert_eq!(f(s(f32::INFINITY).sqrt()), f32::INFINITY);
    assert!(f(s(-1.0).sqrt()).is_nan());
    assert!(f(s(f32::NAN).sqrt()).is_nan());
}
