use libx::num::traits::binary32::Binary32;
use libx::num::traits::binary64::Binary64;
use libx::num::traits::FloatingPointRoundingRule::{
    AwayFromZero, Down, ToNearestOrAwayFromZero, ToNearestOrEven, TowardZero, Up,
};
use libx::num::traits::{FloatingPoint, FloatingPointRoundingRule};

fn single(x: f32) -> Binary32 {
    Binary32::from_bits(x.to_bits())
}

fn double(x: f64) -> Binary64 {
    Binary64::from_bits(x.to_bits())
}

fn as_f32(x: Binary32) -> f32 {
    f32::from_bits(x.to_bits())
}

fn as_f64(x: Binary64) -> f64 {
    f64::from_bits(x.to_bits())
}

struct Random(u64);

impl Random {
    fn next(&mut self) -> u64 {
        self.0 ^= self.0 << 13;
        self.0 ^= self.0 >> 7;
        self.0 ^= self.0 << 17;
        self.0
    }
}

fn singles() -> Vec<u32> {
    let mut samples = vec![
        0x0000_0000,
        0x8000_0000,
        0x0000_0001,
        0x8000_0001,
        0x007f_ffff,
        0x0080_0000,
        0x3280_0000,
        0xb280_0000,
        0xb300_0000,
        0xb300_0001,
        0xb380_0000,
        0x3e80_0000,
        0x3f00_0000,
        0xbf00_0000,
        0x3f7f_ffff,
        0xbf7f_ffff,
        0x3f80_0000,
        0xbf80_0000,
        0x3fc0_0000,
        0xbfc0_0000,
        0x4020_0000,
        0xc020_0000,
        0x4060_0000,
        0xc060_0000,
        0x4b00_0000,
        0x4b00_0001,
        0xcb00_0001,
        0x4b7f_ffff,
        0x4eff_ffff,
        0x4f00_0000,
        0xcf00_0000,
        0xcf00_0001,
        0x4f80_0000,
        0x5f00_0000,
        0x7f7f_ffff,
        0xff7f_ffff,
        0x7f80_0000,
        0xff80_0000,
        0x7fc0_0000,
    ];
    let mut random = Random(0x853c_49e6_748f_ea9b);
    for _ in 0..200_000 {
        samples.push(random.next() as u32);
    }
    for exponent in 90..170u32 {
        for _ in 0..300 {
            samples.push((random.next() as u32 & 0x807f_ffff) | (exponent << 23));
        }
    }
    for whole in -70..70 {
        for quarter in 0..4 {
            samples.push((whole as f32 + 0.25 * quarter as f32).to_bits());
            samples.push((whole as f32 + 0.25 * quarter as f32 + 0.05).to_bits());
            samples.push((whole as f32 + 0.25 * quarter as f32 - 0.05).to_bits());
        }
    }
    samples
}

fn doubles() -> Vec<u64> {
    let mut samples = vec![
        0x0000_0000_0000_0000,
        0x8000_0000_0000_0000,
        0x0000_0000_0000_0001,
        0x8000_0000_0000_0001,
        0x0010_0000_0000_0000,
        0xbc90_0000_0000_0000,
        0xbca0_0000_0000_0000,
        0xbca0_0000_0000_0001,
        0x3fe0_0000_0000_0000,
        0xbfe0_0000_0000_0000,
        0x3fef_ffff_ffff_ffff,
        0x3ff0_0000_0000_0000,
        0xbff0_0000_0000_0000,
        0x4004_0000_0000_0000,
        0xc004_0000_0000_0000,
        0x4330_0000_0000_0000,
        0x4330_0000_0000_0001,
        0x43e0_0000_0000_0000,
        0xc3e0_0000_0000_0000,
        0xc3e0_0000_0000_0001,
        0x43f0_0000_0000_0000,
        0x7fef_ffff_ffff_ffff,
        0x7ff0_0000_0000_0000,
        0xfff0_0000_0000_0000,
        0x7ff8_0000_0000_0000,
    ];
    let mut random = Random(0xda94_2042_e4dd_58b5);
    for _ in 0..200_000 {
        samples.push(random.next());
    }
    for exponent in 960..1100u64 {
        for _ in 0..200 {
            samples.push((random.next() & 0x800f_ffff_ffff_ffff) | (exponent << 52));
        }
    }
    for whole in -70..70 {
        for quarter in 0..4 {
            samples.push((whole as f64 + 0.25 * quarter as f64).to_bits());
            samples.push((whole as f64 + 0.25 * quarter as f64 + 0.05).to_bits());
            samples.push((whole as f64 + 0.25 * quarter as f64 - 0.05).to_bits());
        }
    }
    samples
}

fn same_single(got: Binary32, expected: f32) -> bool {
    if expected.is_nan() {
        got.is_nan()
    } else {
        got.to_bits() == expected.to_bits()
    }
}

fn same_double(got: Binary64, expected: f64) -> bool {
    if expected.is_nan() {
        got.is_nan()
    } else {
        got.to_bits() == expected.to_bits()
    }
}

/// A zero with the positive sign, which is the sign of every zero result.
fn positive_single(x: f32) -> f32 {
    if x == 0.0 {
        0.0
    } else {
        x
    }
}

fn ceil_single(x: f32) -> f32 {
    positive_single(x.ceil())
}

fn floor_single(x: f32) -> f32 {
    positive_single(x.floor())
}

fn trunc_single(x: f32) -> f32 {
    positive_single(x.trunc())
}

fn fract_single(x: f32) -> f32 {
    x - trunc_single(x)
}

/// Round half away from zero, from the whole part and what is left beside it.
fn rounded_single(x: f32) -> f32 {
    let whole = trunc_single(x);
    let rest = fract_single(x);
    if rest.is_nan() || rest.abs() < 0.5 {
        whole
    } else if x.is_sign_negative() {
        whole - 1.0
    } else {
        whole + 1.0
    }
}

fn away_single(x: f32) -> f32 {
    if x > 0.0 {
        ceil_single(x)
    } else if x < 0.0 {
        floor_single(x)
    } else {
        x
    }
}

fn rounded_with_single(x: f32, rule: FloatingPointRoundingRule) -> f32 {
    match rule {
        AwayFromZero => away_single(x),
        Down => floor_single(x),
        ToNearestOrAwayFromZero => {
            if (fract_single(x) - 0.5).abs() < 0.1 || (fract_single(x) + 0.5).abs() < 0.1 {
                away_single(x)
            } else {
                rounded_single(x)
            }
        }
        ToNearestOrEven => rounded_single(x),
        TowardZero => trunc_single(x),
        Up => ceil_single(x),
    }
}

/// A zero with the positive sign, which is the sign of every zero result.
fn positive_double(x: f64) -> f64 {
    if x == 0.0 {
        0.0
    } else {
        x
    }
}

fn ceil_double(x: f64) -> f64 {
    positive_double(x.ceil())
}

fn floor_double(x: f64) -> f64 {
    positive_double(x.floor())
}

fn trunc_double(x: f64) -> f64 {
    positive_double(x.trunc())
}

fn fract_double(x: f64) -> f64 {
    x - trunc_double(x)
}

/// Round half away from zero, from the whole part and what is left beside it.
fn rounded_double(x: f64) -> f64 {
    let whole = trunc_double(x);
    let rest = fract_double(x);
    if rest.is_nan() || rest.abs() < 0.5 {
        whole
    } else if x.is_sign_negative() {
        whole - 1.0
    } else {
        whole + 1.0
    }
}

fn away_double(x: f64) -> f64 {
    if x > 0.0 {
        ceil_double(x)
    } else if x < 0.0 {
        floor_double(x)
    } else {
        x
    }
}

fn rounded_with_double(x: f64, rule: FloatingPointRoundingRule) -> f64 {
    match rule {
        AwayFromZero => away_double(x),
        Down => floor_double(x),
        ToNearestOrAwayFromZero => {
            if (fract_double(x) - 0.5).abs() < 0.1 || (fract_double(x) + 0.5).abs() < 0.1 {
                away_double(x)
            } else {
                rounded_double(x)
            }
        }
        ToNearestOrEven => rounded_double(x),
        TowardZero => trunc_double(x),
        Up => ceil_double(x),
    }
}

#[test]
fn fract_and_trunc_of_examples() {
    assert_eq!(as_f32(single(3.5).fract()), 0.5);
    assert_eq!(as_f32(single(3.5).trunc()), 3.0);
    assert_eq!(as_f32(single(-3.25).fract()), -0.25);
    assert_eq!(as_f32(single(-3.25).trunc()), -3.0);
    assert_eq!(as_f32(single(-3.5).trunc()), -3.0);
    assert_eq!(as_f32(single(-3.5).fract()), -0.5);
    assert_eq!(single(-0.75).trunc().to_bits(), 0);
    assert_eq!(as_f32(single(-0.75).fract()), -0.75);
    assert_eq!(as_f32(single(1.0e10).trunc()), 1.0e10);
    assert_eq!(as_f32(single(-1.0e10).trunc()), -1.0e10);
    assert_eq!(single(1.0e10).fract().to_bits(), 0);
    assert_eq!(as_f64(double(-1.0e300).trunc()), -1.0e300);
    assert_eq!(as_f32(single(7.0).fract()), 0.0);
    assert_eq!(as_f32(single(7.0).trunc()), 7.0);
    assert_eq!(as_f64(double(5.5).fract()), 0.5);
    assert_eq!(as_f64(double(5.5).trunc()), 5.0);
    assert!(single(f32::INFINITY).fract().is_nan());
    assert!(single(f32::NAN).trunc().is_nan());
}

#[test]
fn fract_and_trunc_are_the_differences_they_are_defined_as() {
    for bits in singles() {
        let f = f32::from_bits(bits);
        let x = Binary32::from_bits(bits);
        assert!(same_single(x.fract(), fract_single(f)), "fract {bits:#x}");
        assert!(same_single(x.trunc(), trunc_single(f)), "trunc {bits:#x}");
    }
    for bits in doubles() {
        let f = f64::from_bits(bits);
        let x = Binary64::from_bits(bits);
        assert!(same_double(x.fract(), fract_double(f)), "fract {bits:#x}");
        assert!(same_double(x.trunc(), trunc_double(f)), "trunc {bits:#x}");
    }
}

#[test]
fn trunc_and_fract_add_up_to_the_value() {
    for bits in singles() {
        let f = f32::from_bits(bits);
        if !f.is_finite() {
            continue;
        }
        let x = Binary32::from_bits(bits);
        let whole = as_f32(x.trunc());
        assert_eq!(whole.fract(), 0.0, "{bits:#x}");
        assert!(whole.abs() <= f.abs() && f.abs() - whole.abs() < 1.0, "{bits:#x}");
        assert_eq!(as_f32(x.trunc().adding(x.fract())), f, "{bits:#x}");
    }
    for bits in doubles() {
        let f = f64::from_bits(bits);
        if !f.is_finite() {
            continue;
        }
        let x = Binary64::from_bits(bits);
        let whole = as_f64(x.trunc());
        assert_eq!(whole.fract(), 0.0, "{bits:#x}");
        assert!(whole.abs() <= f.abs() && f.abs() - whole.abs() < 1.0, "{bits:#x}");
        assert_eq!(as_f64(x.trunc().adding(x.fract())), f, "{bits:#x}");
    }
}

#[test]
fn rounded_rounds_half_away_from_zero() {
    assert_eq!(as_f32(single(2.5).rounded()), 3.0);
    assert_eq!(as_f32(single(3.5).rounded()), 4.0);
    assert_eq!(as_f32(single(2.4).rounded()), 2.0);
    assert_eq!(as_f32(single(2.6).rounded()), 3.0);
    assert_eq!(as_f32(single(0.5).rounded()), 1.0);
    assert_eq!(as_f32(single(-2.5).rounded()), -3.0);
    assert_eq!(as_f32(single(-3.5).rounded()), -4.0);
    assert_eq!(as_f32(single(-0.5).rounded()), -1.0);
    assert_eq!(as_f32(single(-2.4).rounded()), -2.0);
    assert_eq!(as_f32(single(-2.6).rounded()), -3.0);
    assert_eq!(as_f32(single(7.0).rounded()), 7.0);
    assert_eq!(as_f32(single(0.0).rounded()), 0.0);
    assert!(single(f32::NAN).rounded().is_nan());
    assert_eq!(as_f64(double(2.5).rounded()), 3.0);
    assert_eq!(as_f64(double(-2.5).rounded()), -3.0);
    assert_eq!(as_f64(double(1.0e15 + 0.5).rounded()), 1.0e15 + 1.0);
    let mut x = single(2.5);
    x.round();
    assert_eq!(as_f32(x), 3.0);
    let mut y = double(-7.25);
    y.round();
    assert_eq!(as_f64(y), -7.0);
}

#[test]
fn rounded_agrees_with_its_definition_on_the_hardware() {
    for bits in singles() {
        let f = f32::from_bits(bits);
        let x = Binary32::from_bits(bits);
        assert!(same_single(x.rounded(), rounded_single(f)), "rounded {bits:#x}");
        assert!(same_single(x.rounded(), positive_single(f.round())), "round {bits:#x}");
    }
    for bits in doubles() {
        let f = f64::from_bits(bits);
        let x = Binary64::from_bits(bits);
        assert!(same_double(x.rounded(), rounded_double(f)), "rounded {bits:#x}");
        assert!(same_double(x.rounded(), positive_double(f.round())), "round {bits:#x}");
    }
}

#[test]
fn rounded_with_each_rule() {
    assert_eq!(as_f32(single(2.5).rounded_with(Down)), 2.0);
    assert_eq!(as_f32(single(2.5).rounded_with(Up)), 3.0);
    assert_eq!(as_f32(single(-2.5).rounded_with(Down)), -3.0);
    assert_eq!(as_f32(single(-2.5).rounded_with(Up)), -2.0);
    assert_eq!(as_f32(single(2.5).rounded_with(TowardZero)), 2.0);
    assert_eq!(as_f32(single(-3.5).rounded_with(TowardZero)), -3.0);
    assert_eq!(as_f32(single(-2.5).rounded_with(TowardZero)), -2.0);
    assert_eq!(as_f64(double(-3.5).rounded_with(TowardZero)), -3.0);
    let beyond = 1_099_511_627_776.0f32;
    assert_eq!(as_f32(single(-beyond).rounded_with(Down)), -beyond);
    assert_eq!(as_f32(single(beyond).rounded_with(Up)), beyond);
    assert_eq!(as_f32(single(beyond).rounded_with(ToNearestOrEven)), beyond);
    let mut far = single(beyond);
    far.round_with(Up);
    assert_eq!(as_f32(far), beyond);
    assert_eq!(as_f32(single(2.2).rounded_with(AwayFromZero)), 3.0);
    assert_eq!(as_f32(single(-2.2).rounded_with(AwayFromZero)), -3.0);
    assert_eq!(single(0.0).rounded_with(AwayFromZero).to_bits(), 0);
    assert_eq!(single(-0.0).rounded_with(AwayFromZero).to_bits(), 0x8000_0000);
    assert_eq!(as_f32(single(2.5).rounded_with(ToNearestOrEven)), 3.0);
    assert_eq!(as_f32(single(3.5).rounded_with(ToNearestOrEven)), 4.0);
    assert_eq!(as_f32(single(2.5).rounded_with(ToNearestOrAwayFromZero)), 3.0);
    assert_eq!(as_f32(single(2.45).rounded_with(ToNearestOrAwayFromZero)), 3.0);
    assert_eq!(as_f32(single(2.3).rounded_with(ToNearestOrAwayFromZero)), 2.0);
    assert_eq!(as_f32(single(-2.5).rounded_with(ToNearestOrAwayFromZero)), -3.0);
    assert_eq!(as_f32(single(-2.45).rounded_with(ToNearestOrAwayFromZero)), -3.0);
    assert_eq!(as_f64(double(2.5).rounded_with(Down)), 2.0);
    assert_eq!(as_f64(double(2.5).rounded_with(ToNearestOrEven)), 3.0);
    for rule in [AwayFromZero, Down, ToNearestOrAwayFromZero, ToNearestOrEven, TowardZero, Up] {
        assert_eq!(
            Binary32::from_bits(0x7fc0_0000).rounded_with(rule).to_bits(),
            0x7fc0_0000
        );
        assert_eq!(
            Binary64::from_bits(0x7ff8_0000_0000_0000).rounded_with(rule).to_bits(),
            0x7ff8_0000_0000_0000
        );
        let mut x = single(-7.5);
        x.round_with(rule);
        assert_eq!(x.to_bits(), single(-7.5).rounded_with(rule).to_bits());
    }
}

#[test]
fn rounded_with_agrees_with_its_definition_on_the_hardware() {
    for rule in [AwayFromZero, Down, ToNearestOrAwayFromZero, ToNearestOrEven, TowardZero, Up] {
        for bits in singles() {
            let f = f32::from_bits(bits);
            let x = Binary32::from_bits(bits);
            assert!(
                same_single(x.rounded_with(rule), rounded_with_single(f, rule)),
                "{rule:?} {bits:#x}"
            );
        }
        for bits in doubles() {
            let f = f64::from_bits(bits);
            let x = Binary64::from_bits(bits);
            assert!(
                same_double(x.rounded_with(rule), rounded_with_double(f, rule)),
                "{rule:?} {bits:#x}"
            );
        }
    }
}

#[test]
fn is_equal_to_allows_a_tenth() {
    assert!(single(1.0).is_equal_to(single(1.05)));
    assert!(single(1.0).is_equal_to(single(0.95)));
    assert!(!single(1.0).is_equal_to(single(1.2)));
    assert!(!single(1.0).is_equal_to(single(f32::NAN)));
    assert!(!single(f32::INFINITY).is_equal_to(single(f32::INFINITY)));
    assert!(double(-3.0).is_equal_to(double(-3.09)));
    assert!(!double(-3.0).is_equal_to(double(-3.11)));
    let samples = singles();
    for pair in samples.chunks(2) {
        if pair.len() == 2 {
            let (f, g) = (f32::from_bits(pair[0]), f32::from_bits(pair[1]));
            let (x, y) = (Binary32::from_bits(pair[0]), Binary32::from_bits(pair[1]));
            assert_eq!(x.is_equal_to(y), (f - g).abs() < 0.1);
            let near = f + 0.099;
            assert_eq!(x.is_equal_to(single(near)), (f - near).abs() < 0.1);
        }
    }
    let samples = doubles();
    for pair in samples.chunks(2) {
        if pair.len() == 2 {
            let (f, g) = (f64::from_bits(pair[0]), f64::from_bits(pair[1]));
            let (x, y) = (Binary64::from_bits(pair[0]), Binary64::from_bits(pair[1]));
            assert_eq!(x.is_equal_to(y), (f - g).abs() < 0.1);
            let near = f - 0.1;
            assert_eq!(x.is_equal_to(double(near)), (f - near).abs() < 0.1);
        }
    }
}
