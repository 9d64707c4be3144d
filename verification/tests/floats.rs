use libx::num::traits::binary32::Binary32;
use libx::num::traits::binary64::Binary64;
use libx::num::traits::FloatingPointClassification::{
    NegativeInfinity, NegativeNormal, NegativeSubnormal, NegativeZero, PositiveInfinity,
    PositiveNormal, PositiveSubnormal, PositiveZero, QuietNaN, SignalingNaN,
};
use libx::num::traits::{FloatingPoint, FloatingPointClassification, FloatingPointSign};
use std::num::FpCategory;

fn single(x: f32) -> Binary32 {
    Binary32::from_bits(x.to_bits())
}

fn double(x: f64) -> Binary64 {
    Binary64::from_bits(x.to_bits())
}

fn as_f32(x: Binary32) -> f32 {
    f32::from_bits(x.to_bits())
}

fn as_f64(x: Binary64) -> f64 {
    f64::from_bits(x.to_bits())
}

/// Encodings of every kind, and a walk through the rest of them.
fn single_samples() -> Vec<u32> {
    let mut samples = vec![
        0x0000_0000,
        0x8000_0000,
        0x0000_0001,
        0x8000_0001,
        0x007f_ffff,
        0x807f_ffff,
        0x0080_0000,
        0x8080_0000,
        0x3f00_0000,
        0x3f80_0000,
        0xbf80_0000,
        0x3fc0_0000,
        0x4020_0000,
        0x4b00_0000,
        0x4b7f_ffff,
        0x4f00_0000,
        0xcf00_0000,
        0x7f7f_ffff,
        0xff7f_ffff,
        0x7f80_0000,
        0xff80_0000,
        0x7f80_0001,
        0x7fc0_0000,
        0xffc0_0000,
        0xffff_ffff,
    ];
    let mut bits: u32 = 0;
    for _ in 0..200_000 {
        samples.push(bits);
        bits = bits.wrapping_add(0x0000_53e7);
    }
    samples
}

fn double_samples() -> Vec<u64> {
    let mut samples = vec![
        0x0000_0000_0000_0000,
        0x8000_0000_0000_0000,
        0x0000_0000_0000_0001,
        0x8000_0000_0000_0001,
        0x000f_ffff_ffff_ffff,
        0x0010_0000_0000_0000,
        0x3fe0_0000_0000_0000,
        0x3ff0_0000_0000_0000,
        0xbff0_0000_0000_0000,
        0x4004_0000_0000_0000,
        0x4330_0000_0000_0000,
        0x43e0_0000_0000_0000,
        0xc3e0_0000_0000_0000,
        0x7fef_ffff_ffff_ffff,
        0xffef_ffff_ffff_ffff,
        0x7ff0_0000_0000_0000,
        0xfff0_0000_0000_0000,
        0x7ff0_0000_0000_0001,
        0x7ff8_0000_0000_0000,
        0xffff_ffff_ffff_ffff,
    ];
    let mut bits: u64 = 0;
    for _ in 0..200_000 {
        samples.push(bits);
        bits = bits.wrapping_add(0x0000_5be7_1c3d_9a35);
    }
    samples
}

fn class_of_single(x: f32) -> FloatingPointClassification {
    let negative = x.is_sign_negative();
    match (x.classify(), negative) {
        (FpCategory::Nan, _) if x.to_bits() & 0x0040_0000 == 0 => {
            FloatingPointClassification::SignalingNaN
        }
        (FpCategory::Nan, _) => FloatingPointClassification::QuietNaN,
        (FpCategory::Infinite, true) => FloatingPointClassification::NegativeInfinity,
        (FpCategory::Infinite, false) => FloatingPointClassification::PositiveInfinity,
        (FpCategory::Zero, true) => FloatingPointClassification::NegativeZero,
        (FpCategory::Zero, false) => FloatingPointClassification::PositiveZero,
        (FpCategory::Normal, true) => FloatingPointClassification::NegativeNormal,
        (FpCategory::Normal, false) => FloatingPointClassification::PositiveNormal,
        (FpCategory::Subnormal, true) => FloatingPointClassification::NegativeSubnormal,
        (FpCategory::Subnormal, false) => FloatingPointClassification::PositiveSubnormal,
    }
}

fn class_of_double(x: f64) -> FloatingPointClassification {
    let negative = x.is_sign_negative();
    match (x.classify(), negative) {
        (FpCategory::Nan, _) if x.to_bits() & 0x0008_0000_0000_0000 == 0 => {
            FloatingPointClassification::SignalingNaN
        }
        (FpCategory::Nan, _) => FloatingPointClassification::QuietNaN,
        (FpCategory::Infinite, true) => FloatingPointClassification::NegativeInfinity,
        (FpCategory::Infinite, false) => FloatingPointClassification::PositiveInfinity,
        (FpCategory::Zero, true) => FloatingPointClassification::NegativeZero,
        (FpCategory::Zero, false) => FloatingPointClassification::PositiveZero,
        (FpCategory::Normal, true) => FloatingPointClassification::NegativeNormal,
        (FpCategory::Normal, false) => FloatingPointClassification::PositiveNormal,
        (FpCategory::Subnormal, true) => FloatingPointClassification::NegativeSubnormal,
        (FpCategory::Subnormal, false) => FloatingPointClassification::PositiveSubnormal,
    }
}

#[test]
fn classes_of_the_special_values() {
    assert_eq!(single(0.0).floating_point_class(), PositiveZero);
    assert_eq!(single(-0.0).floating_point_class(), NegativeZero);
    assert_eq!(single(f32::INFINITY).floating_point_class(), PositiveInfinity);
    assert_eq!(single(f32::NEG_INFINITY).floating_point_class(), NegativeInfinity);
    assert_eq!(single(f32::NAN).floating_point_class(), QuietNaN);
    assert_eq!(Binary32::from_bits(0x7f80_0001).floating_point_class(), SignalingNaN);
    assert_eq!(Binary32::from_bits(0x7fa0_0000).floating_point_class(), SignalingNaN);
    assert_eq!(Binary32::from_bits(0xffbf_ffff).floating_point_class(), SignalingNaN);
    assert_eq!(Binary32::from_bits(0x7fc0_0001).floating_point_class(), QuietNaN);
    assert!(Binary32::from_bits(0x7fa0_0000).is_signaling_nan());
    assert!(!Binary32::from_bits(0x7fc0_0000).is_signaling_nan());
    assert!(!Binary32::from_bits(0x7f80_0000).is_signaling_nan());
    assert!(!Binary32::from_bits(0x0020_0000).is_signaling_nan());
    assert_eq!(
        Binary64::from_bits(0x7ff4_0000_0000_0000).floating_point_class(),
        SignalingNaN
    );
    assert_eq!(
        Binary64::from_bits(0xfff0_0000_0000_0001).floating_point_class(),
        SignalingNaN
    );
    assert!(Binary64::from_bits(0x7ff0_0000_0000_0001).is_signaling_nan());
    assert!(!Binary64::from_bits(0x7ff8_0000_0000_0000).is_signaling_nan());
    assert_eq!(Binary32::from_bits(0xffc0_0000).floating_point_class(), QuietNaN);
    assert_eq!(single(1.5).floating_point_class(), PositiveNormal);
    assert_eq!(single(-1.5).floating_point_class(), NegativeNormal);
    assert_eq!(single(f32::MIN_POSITIVE).floating_point_class(), PositiveNormal);
    assert_eq!(single(1.0e-40).floating_point_class(), PositiveSubnormal);
    assert_eq!(single(-1.0e-40).floating_point_class(), NegativeSubnormal);
    assert_eq!(double(0.0).floating_point_class(), PositiveZero);
    assert_eq!(double(-0.0).floating_point_class(), NegativeZero);
    assert_eq!(double(f64::INFINITY).floating_point_class(), PositiveInfinity);
    assert_eq!(double(f64::NEG_INFINITY).floating_point_class(), NegativeInfinity);
    assert_eq!(double(f64::NAN).floating_point_class(), QuietNaN);
    assert_eq!(
        Binary64::from_bits(0x7ff8_0000_0000_0001).floating_point_class(),
        QuietNaN
    );
    assert_eq!(double(2.5).floating_point_class(), PositiveNormal);
    assert_eq!(double(-2.5).floating_point_class(), NegativeNormal);
    assert_eq!(double(1.0e-310).floating_point_class(), PositiveSubnormal);
    assert_eq!(double(-1.0e-310).floating_point_class(), NegativeSubnormal);
}

#[test]
fn classes_and_predicates_agree_with_the_standard_library() {
    for bits in single_samples() {
        let x = Binary32::from_bits(bits);
        let f = f32::from_bits(bits);
        assert_eq!(x.floating_point_class(), class_of_single(f));
        assert_eq!(x.is_nan(), f.is_nan());
        assert_eq!(x.is_infinite(), f.is_infinite());
        assert_eq!(x.is_normal(), f.is_normal());
        assert_eq!(x.is_subnormal(), f.is_subnormal());
        assert_eq!(x.is_zero(), f == 0.0);
        assert_eq!(x.is_canonical(), !f.is_nan());
        assert_eq!(x.is_finite(), f.is_normal() || f == 0.0);
        assert_eq!(x.is_signaling_nan(), f.is_nan() && bits & 0x0040_0000 == 0);
        let kinds = [x.is_nan(), x.is_infinite(), x.is_zero(), x.is_normal(), x.is_subnormal()];
        assert_eq!(kinds.iter().filter(|kind| **kind).count(), 1);
        let sign = if f.is_sign_negative() {
            FloatingPointSign::Minus
        } else {
            FloatingPointSign::Plus
        };
        assert_eq!(x.sign(), sign);
    }
    for bits in double_samples() {
        let x = Binary64::from_bits(bits);
        let f = f64::from_bits(bits);
        assert_eq!(x.floating_point_class(), class_of_double(f));
        assert_eq!(x.is_nan(), f.is_nan());
        assert_eq!(x.is_infinite(), f.is_infinite());
        assert_eq!(x.is_normal(), f.is_normal());
        assert_eq!(x.is_subnormal(), f.is_subnormal());
        assert_eq!(x.is_zero(), f == 0.0);
        assert_eq!(x.is_canonical(), !f.is_nan());
        assert_eq!(x.is_finite(), f.is_normal() || f == 0.0);
        assert_eq!(
            x.is_signaling_nan(),
            f.is_nan() && bits & 0x0008_0000_0000_0000 == 0
        );
        let kinds = [x.is_nan(), x.is_infinite(), x.is_zero(), x.is_normal(), x.is_subnormal()];
        assert_eq!(kinds.iter().filter(|kind| **kind).count(), 1);
        let sign = if f.is_sign_negative() {
            FloatingPointSign::Minus
        } else {
            FloatingPointSign::Plus
        };
        assert_eq!(x.sign(), sign);
    }
}

#[test]
fn subnormal_values_do_not_count_as_finite() {
    assert!(!single(1.0e-40).is_finite());
    assert!(!single(-1.0e-40).is_finite());
    assert!(!Binary32::from_bits(1).is_finite());
    assert!(!double(1.0e-310).is_finite());
    assert!(single(1.0).is_finite());
    assert!(single(0.0).is_finite());
    assert!(single(-0.0).is_finite());
    assert!(single(f32::MAX).is_finite());
    assert!(double(-3.0).is_finite());
    assert!(!single(f32::INFINITY).is_finite());
    assert!(!single(f32::NAN).is_finite());
    assert!(!double(f64::NEG_INFINITY).is_finite());
    assert!(single(1.0).is_totally_ordered_below_or_equal_to(single(-2.0)));
    assert!(single(2.0).is_totally_ordered_below_or_equal_to(single(1.0)));
    assert!(!single(1.0e-40).is_totally_ordered_below_or_equal_to(single(1.0)));
    assert!(!single(1.0).is_totally_ordered_below_or_equal_to(single(f32::NAN)));
    assert!(!double(1.0).is_totally_ordered_below_or_equal_to(double(f64::INFINITY)));
    assert!(double(0.0).is_totally_ordered_below_or_equal_to(double(5.0)));
}

fn stepped_up(x: f32) -> f32 {
    let mut bits = x.to_bits();
    if x.is_nan() {
        return x;
    } else if x.is_infinite() {
        return x;
    } else if x == 0.0 {
        return x;
    }
    if x.is_sign_negative() {
        bits -= 1;
    } else {
        bits += 1;
    }
    f32::from_bits(bits)
}

fn stepped_down(x: f32) -> f32 {
    let mut bits = x.to_bits();
    if x.is_nan() {
        return x;
    } else if x.is_infinite() {
        return x;
    } else if x == 0.0 {
        return x;
    }
    if x.is_sign_negative() {
        bits += 1;
    } else {
        bits -= 1;
    }
    f32::from_bits(bits)
}

#[test]
fn next_up_and_next_down_step_by_one_encoding() {
    assert_eq!(single(1.0).next_up().to_bits(), 0x3f80_0001);
    assert_eq!(single(1.0).next_down().to_bits(), 0x3f7f_ffff);
    assert_eq!(single(-1.0).next_up().to_bits(), 0xbf7f_ffff);
    assert_eq!(single(-1.0).next_down().to_bits(), 0xbf80_0001);
    assert_eq!(as_f32(single(f32::MAX).next_up()), f32::INFINITY);
    assert_eq!(as_f32(single(f32::MIN).next_down()), f32::NEG_INFINITY);
    assert_eq!(Binary32::from_bits(1).next_down().to_bits(), 0);
    assert_eq!(Binary32::from_bits(0x8000_0001).next_up().to_bits(), 0x8000_0000);
    assert_eq!(double(1.0).next_up().to_bits(), 0x3ff0_0000_0000_0001);
    assert_eq!(double(1.0).next_down().to_bits(), 0x3fef_ffff_ffff_ffff);
    assert_eq!(double(-1.0).next_up().to_bits(), 0xbfef_ffff_ffff_ffff);
    assert_eq!(as_f64(double(f64::MAX).next_up()), f64::INFINITY);
    for bits in single_samples() {
        let f = f32::from_bits(bits);
        assert_eq!(
            Binary32::from_bits(bits).next_up().to_bits(),
            stepped_up(f).to_bits()
        );
        assert_eq!(
            Binary32::from_bits(bits).next_down().to_bits(),
            stepped_down(f).to_bits()
        );
    }
}

#[test]
fn next_up_is_greater_and_next_down_is_less() {
    for bits in single_samples() {
        let f = f32::from_bits(bits);
        if f.is_nan() || f.is_infinite() || f == 0.0 {
            continue;
        }
        let x = Binary32::from_bits(bits);
        assert!(as_f32(x.next_up()) > f);
        assert!(as_f32(x.next_down()) < f);
        assert!(x.is_less_than(x.next_up()));
        assert!(x.next_down().is_less_than(x));
    }
    for bits in double_samples() {
        let f = f64::from_bits(bits);
        if f.is_nan() || f.is_infinite() || f == 0.0 {
            continue;
        }
        let x = Binary64::from_bits(bits);
        assert!(as_f64(x.next_up()) > f);
        assert!(as_f64(x.next_down()) < f);
    }
}

#[test]
fn stepping_leaves_zeros_infinities_and_nans_alone() {
    for bits in [
        0x0000_0000u32,
        0x8000_0000,
        0x7f80_0000,
        0xff80_0000,
        0x7fc0_0000,
        0xffc0_0001,
    ] {
        assert_eq!(Binary32::from_bits(bits).next_up().to_bits(), bits);
        assert_eq!(Binary32::from_bits(bits).next_down().to_bits(), bits);
    }
    for bits in [
        0x0000_0000_0000_0000u64,
        0x8000_0000_0000_0000,
        0x7ff0_0000_0000_0000,
        0xfff0_0000_0000_0000,
        0x7ff8_0000_0000_0000,
    ] {
        assert_eq!(Binary64::from_bits(bits).next_up().to_bits(), bits);
        assert_eq!(Binary64::from_bits(bits).next_down().to_bits(), bits);
    }
}

fn distance_to_next_single(x: f32) -> f32 {
    let bits = x.to_bits();
    if x.is_nan() || x.is_infinite() {
        return x;
    }
    let mut next_bits = bits;
    if x == 0.0 {
        next_bits = 1;
    } else if x > 0.0 {
        next_bits += 1;
    } else {
        next_bits = bits.wrapping_add(1);
    }
    let next_value = f32::from_bits(next_bits);
    (next_value - x).abs()
}

fn distance_to_next_double(x: f64) -> f64 {
    let bits = x.to_bits();
    if x.is_nan() || x.is_infinite() {
        return x;
    }
    let mut next_bits = bits;
    if x == 0.0 {
        next_bits = 1;
    } else if x > 0.0 {
        next_bits += 1;
    } else {
        next_bits = bits.wrapping_add(1);
    }
    let next_value = f64::from_bits(next_bits);
    (next_value - x).abs()
}

#[test]
fn ulp_is_the_distance_to_the_next_greater_magnitude() {
    assert_eq!(as_f32(single(1.0).ulp()), f32::EPSILON);
    assert_eq!(as_f32(single(2.0).ulp()), 2.0 * f32::EPSILON);
    assert_eq!(single(0.0).ulp().to_bits(), 1);
    assert_eq!(single(-0.0).ulp().to_bits(), 1);
    assert_eq!(Binary32::from_bits(0x007f_ffff).ulp().to_bits(), 1);
    assert_eq!(single(f32::MIN_POSITIVE).ulp().to_bits(), 1);
    assert_eq!(as_f32(single(f32::MAX).ulp()), f32::INFINITY);
    assert_eq!(as_f32(single(f32::MIN).ulp()), f32::INFINITY);
    assert_eq!(as_f32(single(f32::NEG_INFINITY).ulp()), f32::NEG_INFINITY);
    assert_eq!(as_f64(double(1.0).ulp()), f64::EPSILON);
    assert_eq!(double(0.0).ulp().to_bits(), 1);
    assert_eq!(as_f64(double(f64::MAX).ulp()), f64::INFINITY);
    for bits in single_samples() {
        let f = f32::from_bits(bits);
        let expected = distance_to_next_single(f);
        let got = Binary32::from_bits(bits).ulp();
        if expected.is_nan() {
            assert!(got.is_nan());
        } else {
            assert_eq!(got.to_bits(), expected.to_bits());
        }
    }
    for bits in double_samples() {
        let f = f64::from_bits(bits);
        let expected = distance_to_next_double(f);
        let got = Binary64::from_bits(bits).ulp();
        if expected.is_nan() {
            assert!(got.is_nan());
        } else {
            assert_eq!(got.to_bits(), expected.to_bits());
        }
    }
}

#[test]
fn constants_are_those_of_the_formats() {
    assert_eq!(as_f32(Binary32::greatest_finite_magnitude()), f32::MAX);
    assert_eq!(as_f32(Binary32::infinity()), f32::INFINITY);
    assert_eq!(as_f32(Binary32::least_nonzero_magnitude()), f32::EPSILON);
    assert_eq!(as_f32(Binary32::least_normal_magnitude()), f32::MIN_POSITIVE);
    assert!(as_f32(Binary32::nan()).is_nan());
    assert!(as_f32(Binary32::signaling_nan()).is_nan());
    assert_eq!(as_f32(Binary32::pi()), core::f32::consts::PI);
    assert_eq!(as_f32(Binary32::radix()), 2.0);
    assert_eq!(as_f32(Binary32::ulp_of_one()), f32::EPSILON);
    assert_eq!(as_f64(Binary64::greatest_finite_magnitude()), f64::MAX);
    assert_eq!(as_f64(Binary64::infinity()), f64::INFINITY);
    assert_eq!(as_f64(Binary64::least_nonzero_magnitude()), f64::EPSILON);
    assert_eq!(as_f64(Binary64::least_normal_magnitude()), f64::MIN_POSITIVE);
    assert!(as_f64(Binary64::nan()).is_nan());
    assert!(as_f64(Binary64::signaling_nan()).is_nan());
    assert_eq!(as_f64(Binary64::pi()), core::f64::consts::PI);
    assert_eq!(as_f64(Binary64::radix()), 2.0);
    assert_eq!(as_f64(Binary64::ulp_of_one()), f64::EPSILON);
}

#[test]
fn exponent_and_significand_read_the_fields() {
    assert_eq!(single(1.0).exponent(), 127);
    assert_eq!(single(-2.0).exponent(), 128);
    assert_eq!(single(0.0).exponent(), 0);
    assert_eq!(single(f32::INFINITY).exponent(), 255);
    assert_eq!(single(1.0e-40).exponent(), 0);
    for bits in single_samples() {
        let expected = (bits as i32) >> 23 & 0xFF;
        assert_eq!(Binary32::from_bits(bits).exponent(), expected);
    }
    for bits in double_samples() {
        let expected = (bits as i64) >> 23 & 0xFF;
        assert_eq!(Binary64::from_bits(bits).exponent(), expected);
    }
    assert_eq!(single(0.0).significand().to_bits(), 0);
    assert_eq!(single(-0.0).significand().to_bits(), 0);
    assert_eq!(single(1.0).significand().to_bits(), 0x0080_0000);
    assert_eq!(single(-1.5).significand().to_bits(), 0x00c0_0000);
    assert_eq!(Binary32::from_bits(0x0000_0123).significand().to_bits(), 0x0000_0123);
    assert_eq!(Binary32::from_bits(0x8000_0123).significand().to_bits(), 0x0000_0123);
    assert_eq!(single(f32::INFINITY).significand().to_bits(), 0x0080_0000);
}

#[test]
fn negate_flips_the_sign() {
    let mut x = single(3.5);
    x.negate();
    assert_eq!(as_f32(x), -3.5);
    x.negate();
    assert_eq!(as_f32(x), 3.5);
    let mut zero = single(0.0);
    zero.negate();
    assert_eq!(zero.to_bits(), 0x8000_0000);
    let mut infinity = double(f64::INFINITY);
    infinity.negate();
    assert_eq!(as_f64(infinity), f64::NEG_INFINITY);
    for bits in single_samples() {
        let mut x = Binary32::from_bits(bits);
        x.negate();
        assert_eq!(x.to_bits(), (-f32::from_bits(bits)).to_bits());
    }
    for bits in double_samples() {
        let mut x = Binary64::from_bits(bits);
        x.negate();
        assert_eq!(x.to_bits(), (-f64::from_bits(bits)).to_bits());
    }
}

#[test]
fn comparisons_agree_with_the_hardware() {
    let all = single_samples();
    let picked: Vec<u32> = all.iter().copied().step_by(211).chain(all[..25].iter().copied()).collect();
    for a in &picked {
        for b in &picked {
            let (x, y) = (Binary32::from_bits(*a), Binary32::from_bits(*b));
            let (f, g) = (f32::from_bits(*a), f32::from_bits(*b));
            assert_eq!(x.is_less_than(y), f < g);
            assert_eq!(x.is_less_than_or_equal_to(y), f <= g);
            let expected = if f.abs() > g.abs() { f.to_bits() } else { g.to_bits() };
            assert_eq!(Binary32::maximum_magnitude(x, y).to_bits(), expected);
            let expected = if f.abs() < g.abs() { f.to_bits() } else { g.to_bits() };
            assert_eq!(Binary32::minimum_magnitude(x, y).to_bits(), expected);
            let greater = Binary32::maximum(x, y);
            let lesser = Binary32::minimum(x, y);
            if f.is_nan() || g.is_nan() || f == g {
                assert_eq!(greater.is_nan(), f.max(g).is_nan());
                assert_eq!(lesser.is_nan(), f.min(g).is_nan());
                if !greater.is_nan() {
                    assert_eq!(as_f32(greater), f.max(g));
                    assert_eq!(as_f32(lesser), f.min(g));
                }
            } else {
                assert_eq!(greater.to_bits(), f.max(g).to_bits());
                assert_eq!(lesser.to_bits(), f.min(g).to_bits());
            }
        }
    }
    let all = double_samples();
    let picked: Vec<u64> = all.iter().copied().step_by(211).chain(all[..20].iter().copied()).collect();
    for a in &picked {
        for b in &picked {
            let (x, y) = (Binary64::from_bits(*a), Binary64::from_bits(*b));
            let (f, g) = (f64::from_bits(*a), f64::from_bits(*b));
            assert_eq!(x.is_less_than(y), f < g);
            assert_eq!(x.is_less_than_or_equal_to(y), f <= g);
            let expected = if f.abs() > g.abs() { f.to_bits() } else { g.to_bits() };
            assert_eq!(Binary64::maximum_magnitude(x, y).to_bits(), expected);
            let expected = if f.abs() < g.abs() { f.to_bits() } else { g.to_bits() };
            assert_eq!(Binary64::minimum_magnitude(x, y).to_bits(), expected);
            if !(f.is_nan() || g.is_nan() || f == g) {
                assert_eq!(Binary64::maximum(x, y).to_bits(), f.max(g).to_bits());
                assert_eq!(Binary64::minimum(x, y).to_bits(), f.min(g).to_bits());
            }
        }
    }
}

#[test]
fn maximum_and_minimum_of_examples() {
    assert_eq!(as_f32(Binary32::maximum(single(3.0), single(4.0))), 4.0);
    assert_eq!(as_f32(Binary32::minimum(single(3.0), single(4.0))), 3.0);
    assert_eq!(as_f32(Binary32::maximum_magnitude(single(-3.0), single(2.0))), -3.0);
    assert_eq!(as_f32(Binary32::minimum_magnitude(single(3.0), single(-2.0))), -2.0);
    assert_eq!(as_f32(Binary32::maximum(single(f32::NAN), single(1.0))), 1.0);
    assert_eq!(as_f32(Binary32::maximum(single(1.0), single(f32::NAN))), 1.0);
    assert_eq!(as_f32(Binary32::minimum(single(f32::NAN), single(1.0))), 1.0);
    assert!(Binary32::maximum(single(f32::NAN), single(f32::NAN)).is_nan());
    assert!(Binary32::maximum_magnitude(single(1.0), single(f32::NAN)).is_nan());
    assert_eq!(as_f32(Binary32::maximum_magnitude(single(f32::NAN), single(1.0))), 1.0);
    assert_eq!(as_f64(Binary64::maximum(double(-1.0), double(-2.0))), -1.0);
    assert_eq!(as_f64(Binary64::minimum(double(-1.0), double(-2.0))), -2.0);
    assert_eq!(Binary32::maximum(single(0.0), single(-0.0)).to_bits(), 0);
    assert_eq!(Binary32::maximum(single(-0.0), single(0.0)).to_bits(), 0x8000_0000);
}

#[test]
fn zero_and_one_are_the_identities() {
    assert_eq!(Binary32::zero().to_bits(), 0.0f32.to_bits());
    assert_eq!(Binary32::one().to_bits(), 1.0f32.to_bits());
    assert_eq!(Binary64::zero().to_bits(), 0.0f64.to_bits());
    assert_eq!(Binary64::one().to_bits(), 1.0f64.to_bits());
    let x = Binary32::from_bits(2.75f32.to_bits());
    assert_eq!(x.adding(Binary32::zero()).to_bits(), x.to_bits());
    assert_eq!(x.multiplying(Binary32::one()).to_bits(), x.to_bits());
    let y = Binary64::from_bits((-0.1f64).to_bits());
    assert_eq!(y.adding(Binary64::zero()).to_bits(), y.to_bits());
    assert_eq!(y.multiplying(Binary64::one()).to_bits(), y.to_bits());
}

#[test]
fn pi_is_the_nearest_value_of_each_format() {
    assert_eq!(Binary32::pi().to_bits(), core::f32::consts::PI.to_bits());
    assert_eq!(Binary64::pi().to_bits(), core::f64::consts::PI.to_bits());
    assert_eq!(Binary32::pi().to_bits() & 0x007f_ffff, 0x0049_0fdb);
    assert_eq!(
        Binary64::pi().to_bits() & 0x000f_ffff_ffff_ffff,
        0x0009_21fb_5444_2d18
    );
}

#[test]
fn the_signaling_nan_is_signaling_and_the_other_is_quiet() {
    assert_eq!(Binary32::signaling_nan().to_bits(), 0x7fa0_0000);
    assert!(Binary32::signaling_nan().is_signaling_nan());
    assert_eq!(Binary32::signaling_nan().floating_point_class(), SignalingNaN);
    assert!(!Binary32::nan().is_signaling_nan());
    assert_eq!(Binary32::nan().floating_point_class(), QuietNaN);
    assert_eq!(Binary64::signaling_nan().to_bits(), 0x7ff4_0000_0000_0000);
    assert!(Binary64::signaling_nan().is_signaling_nan());
    assert_eq!(Binary64::signaling_nan().floating_point_class(), SignalingNaN);
    assert!(!Binary64::nan().is_signaling_nan());
    assert_eq!(Binary64::nan().floating_point_class(), QuietNaN);
}
