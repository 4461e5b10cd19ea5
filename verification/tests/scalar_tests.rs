//! The numbers of the library against the hardware's.

use regui::scalar::{Scalar, Seconds};

fn s(x: f32) -> Scalar {
    Scalar::from_bits(x.to_bits())
}

fn f(x: Scalar) -> f32 {
    f32::from_bits(x.to_bits())
}

/// Same number: same bits, or both not a number.
fn same(a: Scalar, b: f32) -> bool {
    a.to_bits() == b.to_bits() || (f(a).is_nan() && b.is_nan())
}

/// Values at and around everything that rounds or overflows differently, and some noise.
fn samples() -> Vec<f32> {
    let mut all: Vec<f32> = Vec::new();
    for bits in [
        0u32, 1, 2, 3, 0x7fffff, 0x800000, 0x800001, 0xffffff, 0x1000000, 0x3f800000, 0x3f7fffff,
        0x3f800001, 0x34000000, 0x33ffffff, 0x7f7fffff, 0x7f7ffffe, 0x7f800000, 0x7fc00000,
        0x7f800001, 0x4b800000, 0x4b7fffff, 0x4b800001, 0x3eaaaaab, 0x40490fdb, 0x00400000,
        0x73000000, 0x0c000000,
    ] {
        all.push(f32::from_bits(bits));
        all.push(f32::from_bits(bits | 0x8000_0000));
    }
    let mut seed: u32 = 0x1234_5678;
    for i in 0..150u32 {
        seed ^= seed << 13;
        seed ^= seed >> 17;
        seed ^= seed << 5;
        all.push(f32::from_bits(seed));
        // Close exponents, where sums cancel.
        all.push(f32::from_bits(0x3f00_0000 + (seed >> 8) + i));
        all.push(-f32::from_bits(0x3f80_0000 + (seed >> 9)));
    }
    all
}

#[test]
fn sums_are_the_hardwares() {
    let all = samples();
    for &a in &all {
        for &b in &all {
            assert!(same(s(a).plus(s(b)), a + b), "{a:e} + {b:e}");
            assert!(same(s(a).minus(s(b)), a - b), "{a:e} - {b:e}");
        }
    }
}

#[test]
fn products_are_the_hardwares() {
    let all = samples();
    for &a in &all {
        for &b in &all {
            assert!(same(s(a).times(s(b)), a * b), "{a:e} * {b:e}");
        }
    }
}

#[test]
fn quotients_are_the_hardwares() {
    let all = samples();
    for &a in &all {
        for &b in &all {
            assert!(same(s(a).over(s(b)), a / b), "{a:e} / {b:e}");
        }
    }
}

#[test]
fn comparisons_are_the_hardwares() {
    let all = samples();
    for &a in &all {
        assert_eq!(s(a).is_finite(), a.is_finite());
        assert!(same(s(a).abs(), a.abs()));
        assert!(same(s(a).neg(), -a));
        for &b in &all {
            assert_eq!(s(a).lt(s(b)), a < b);
            assert_eq!(s(a).le(s(b)), a <= b);
            assert_eq!(s(a) == s(b), a == b);
            let (least, most) = (f(s(a).min(s(b))), f(s(a).max(s(b))));
            assert!(least == a.min(b) || (least.is_nan() && a.min(b).is_nan()));
            assert!(most == a.max(b) || (most.is_nan() && a.max(b).is_nan()));
        }
    }
}

#[test]
fn spans_are_what_the_standard_library_makes_of_them() {
    for (secs, nanos) in [
        (0u64, 0u32),
        (0, 1),
        (1, 500_000_000),
        (16, 666_667),
        (123_456_789, 987_654_321),
        (u64::MAX, 999_999_999),
        (9_007_199_254_740_993, 1),
    ] {
        let span = Seconds::from_span(secs, nanos);
        let expected = std::time::Duration::new(secs, nanos).as_secs_f64();
        assert_eq!(span.to_bits(), expected.to_bits());
        for now in [0.0f64, 0.1, 12.75, 1e9, -3.5, 1e300] {
            let sum = Seconds::from_bits(now.to_bits()).plus(span);
            assert_eq!(sum.to_bits(), (now + expected).to_bits());
            assert_eq!(span.lt(Seconds::from_bits(now.to_bits())), expected < now);
        }
    }
}
