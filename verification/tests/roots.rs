use libx::num::traits::binary32::Binary32;
use libx::num::traits::binary64::Binary64;
use libx::num::traits::FloatingPoint;

fn single(x: f32) -> Binary32 {
    Binary32::from_bits(x.to_bits())
}

fn double(x: f64) -> Binary64 {
    Binary64::from_bits(x.to_bits())
}

fn as_f32(x: Binary32) -> f32 {
    f32::from_bits(x.to_bits())
}

fn as_f64(x: Binary64) -> f64 {
    f64::from_bits(x.to_bits())
}

struct Random(u64);

impl Random {
    fn next(&mut self) -> u64 {
        self.0 ^= self.0 << 13;
        self.0 ^= self.0 >> 7;
        self.0 ^= self.0 << 17;
        self.0
    }
}

fn same_single(got: Binary32, expected: f32) -> bool {
    if expected.is_nan() {
        got.is_nan()
    } else {
        got.to_bits() == expected.to_bits()
    }
}

fn same_double(got: Binary64, expected: f64) -> bool {
    if expected.is_nan() {
        got.is_nan()
    } else {
        got.to_bits() == expected.to_bits()
    }
}

/// A zero with the positive sign, which is the sign of every zero result.
fn positive_single(x: f32) -> f32 {
    if x == 0.0 {
        0.0
    } else {
        x
    }
}

fn ceil_single(x: f32) -> f32 {
    positive_single(x.ceil())
}

fn floor_single(x: f32) -> f32 {
    positive_single(x.floor())
}

fn trunc_single(x: f32) -> f32 {
    positive_single(x.trunc())
}

fn fract_single(x: f32) -> f32 {
    x - trunc_single(x)
}

/// Round half away from zero, from the whole part and what is left beside it.
fn rounded_single(x: f32) -> f32 {
    let whole = trunc_single(x);
    let rest = fract_single(x);
    if rest.is_nan() || rest.abs() < 0.5 {
        whole
    } else if x.is_sign_negative() {
        whole - 1.0
    } else {
        whole + 1.0
    }
}

/// A zero with the positive sign, which is the sign of every zero result.
fn positive_double(x: f64) -> f64 {
    if x == 0.0 {
        0.0
    } else {
        x
    }
}

fn ceil_double(x: f64) -> f64 {
    positive_double(x.ceil())
}

fn floor_double(x: f64) -> f64 {
    positive_double(x.floor())
}

fn trunc_double(x: f64) -> f64 {
    positive_double(x.trunc())
}

fn fract_double(x: f64) -> f64 {
    x - trunc_double(x)
}

/// Round half away from zero, from the whole part and what is left beside it.
fn rounded_double(x: f64) -> f64 {
    let whole = trunc_double(x);
    let rest = fract_double(x);
    if rest.is_nan() || rest.abs() < 0.5 {
        whole
    } else if x.is_sign_negative() {
        whole - 1.0
    } else {
        whole + 1.0
    }
}

/// Newton's method on the hardware: the first guess after at least one step that
/// is within the tolerance of the guess before it.
fn square_root_single(x: f32, limit: usize) -> Option<f32> {
    if x < 0.0 {
        return Some(f32::NAN);
    }
    if x == 0.0 {
        return Some(0.0);
    }
    let mut guess = x / 2.0;
    let mut steps = 0;
    loop {
        if steps == limit {
            return None;
        }
        let last_guess = guess;
        guess = (guess + x / guess) / 2.0;
        steps += 1;
        if !((guess - last_guess).abs() > 1e-6) {
            return Some(guess);
        }
    }
}

fn square_root_double(x: f64, limit: usize) -> Option<f64> {
    if x < 0.0 {
        return Some(f64::NAN);
    }
    if x == 0.0 {
        return Some(0.0);
    }
    let mut guess = x / 2.0;
    let mut steps = 0;
    loop {
        if steps == limit {
            return None;
        }
        let last_guess = guess;
        guess = (guess + x / guess) / 2.0;
        steps += 1;
        if !((guess - last_guess).abs() > 0.0001) {
            return Some(guess);
        }
    }
}

#[test]
fn square_root_of_four_is_two() {
    let root = as_f32(single(4.0).square_root());
    assert!((root - 2.0).abs() < 1.0e-5);
    assert_eq!(root, 2.0);
    let root = as_f64(double(4.0).square_root());
    assert!((root - 2.0).abs() < 1.0e-4);
    let mut x = single(4.0);
    x.form_square_root();
    assert_eq!(as_f32(x), 2.0);
    assert_eq!(
        single(4.0).square_root_within(100).map(as_f32),
        Some(2.0)
    );
}

#[test]
fn square_root_of_a_negative_value_is_nan() {
    assert!(single(-1.0).square_root().is_nan());
    assert!(double(-1.0).square_root().is_nan());
    assert!(single(f32::NEG_INFINITY).square_root().is_nan());
    assert!(single(-1.0).square_root_within(0).unwrap().is_nan());
}

#[test]
fn square_root_of_zero_is_zero() {
    assert_eq!(single(0.0).square_root().to_bits(), 0);
    assert_eq!(single(-0.0).square_root().to_bits(), 0);
    assert_eq!(double(0.0).square_root().to_bits(), 0);
    assert_eq!(double(-0.0).square_root_within(0).unwrap().to_bits(), 0);
}

#[test]
fn square_root_of_examples() {
    for (value, root) in [(1.0f32, 1.0f32), (9.0, 3.0), (2.25, 1.5), (100.0, 10.0), (0.25, 0.5)] {
        let found = as_f32(single(value).square_root());
        assert!((found - root).abs() < 1.0e-5, "{value}");
    }
    for (value, root) in [(1.0f64, 1.0f64), (9.0, 3.0), (2.0, 1.414_213_562), (1.0e6, 1000.0)] {
        let found = as_f64(double(value).square_root());
        assert!((found - root).abs() < 1.0e-4, "{value}");
    }
    assert!(single(f32::NAN).square_root().is_nan());
    assert!(single(f32::INFINITY).square_root().is_nan());
}

#[test]
fn square_root_within_gives_up_at_the_limit() {
    assert_eq!(single(1.0e10).square_root_within(2).map(as_f32), None);
    assert_eq!(single(1.0e10).square_root_within(0).map(as_f32), None);
    assert!(single(1.0e10).square_root_within(200).is_some());
    assert_eq!(double(1.0e10).square_root_within(3).map(as_f64), None);
    assert_eq!(
        single(16.0).square_root_within(1000).map(as_f32),
        square_root_single(16.0, 1000)
    );
}

#[test]
fn square_root_within_agrees_with_the_method_on_the_hardware() {
    let mut random = Random(0xbb67_ae85_84ca_a73b);
    for round in 0..40_000 {
        let mut bits = random.next() as u32;
        if round % 2 == 0 {
            bits = (bits & 0x007f_ffff) | ((100 + round as u32 % 60) << 23);
        }
        let f = f32::from_bits(bits);
        let expected = square_root_single(f, 300);
        let got = Binary32::from_bits(bits).square_root_within(300);
        match (got, expected) {
            (Some(x), Some(y)) => assert!(same_single(x, y), "{bits:#x}"),
            (None, None) => {}
            _ => panic!("{bits:#x}"),
        }
    }
    for round in 0..20_000 {
        let mut bits = random.next();
        if round % 2 == 0 {
            bits = (bits & 0x000f_ffff_ffff_ffff) | ((1000 + round as u64 % 60) << 52);
        }
        let f = f64::from_bits(bits);
        let expected = square_root_double(f, 1200);
        let got = Binary64::from_bits(bits).square_root_within(1200);
        match (got, expected) {
            (Some(x), Some(y)) => assert!(same_double(x, y), "{bits:#x}"),
            (None, None) => {}
            _ => panic!("{bits:#x}"),
        }
    }
}

#[test]
fn remainders_of_examples() {
    assert_eq!(as_f64(double(8.625).remainder(double(0.75))), -0.375);
    assert_eq!(as_f64(double(5.5).truncating_remainder(double(2.0))), 1.5);
    assert_eq!(as_f32(single(7.0).remainder(single(2.0))), -1.0);
    assert_eq!(as_f32(single(7.0).truncating_remainder(single(2.0))), 1.0);
    assert_eq!(as_f32(single(6.0).remainder(single(3.0))), 0.0);
    assert!(single(1.0).remainder(single(0.0)).is_nan());
    assert!(single(f32::NAN).truncating_remainder(single(2.0)).is_nan());
    let mut x = double(8.625);
    x.form_remainder(double(0.75));
    assert_eq!(as_f64(x), -0.375);
    let mut y = double(5.5);
    y.form_truncating_remainder(double(2.0));
    assert_eq!(as_f64(y), 1.5);
}

#[test]
fn remainders_agree_with_their_definitions_on_the_hardware() {
    let mut random = Random(0x3c6e_f372_fe94_f82b);
    for round in 0..200_000 {
        let mut a = random.next() as u32;
        let mut b = random.next() as u32;
        if round % 2 == 0 {
            a = (a & 0x807f_ffff) | ((120 + round as u32 % 20) << 23);
            b = (b & 0x807f_ffff) | ((118 + round as u32 % 17) << 23);
        }
        let (f, g) = (f32::from_bits(a), f32::from_bits(b));
        let (x, y) = (Binary32::from_bits(a), Binary32::from_bits(b));
        assert!(
            same_single(x.remainder(y), f - rounded_single(f / g) * g),
            "{a:#x} {b:#x}"
        );
        assert!(
            same_single(x.truncating_remainder(y), f - (g * trunc_single(f / g))),
            "{a:#x} {b:#x}"
        );
    }
    for round in 0..200_000 {
        let mut a = random.next();
        let mut b = random.next();
        if round % 2 == 0 {
            a = (a & 0x800f_ffff_ffff_ffff) | ((1015 + round as u64 % 20) << 52);
            b = (b & 0x800f_ffff_ffff_ffff) | ((1013 + round as u64 % 17) << 52);
        }
        let (f, g) = (f64::from_bits(a), f64::from_bits(b));
        let (x, y) = (Binary64::from_bits(a), Binary64::from_bits(b));
        assert!(
            same_double(x.remainder(y), f - rounded_double(f / g) * g),
            "{a:#x} {b:#x}"
        );
        assert!(
            same_double(x.truncating_remainder(y), f - (g * trunc_double(f / g))),
            "{a:#x} {b:#x}"
        );
    }
}

#[test]
fn adding_product_of_each_format() {
    assert_eq!(as_f32(single(1.0).adding_product(single(2.0), single(3.0))), 7.0);
    assert_eq!(as_f64(double(1.0).adding_product(double(2.0), double(3.0))), 6.0);
    let mut x = single(0.5);
    x.add_product(single(4.0), single(0.25));
    assert_eq!(as_f32(x), 1.5);
    let mut y = double(0.5);
    y.add_product(double(4.0), double(0.25));
    assert_eq!(as_f64(y), 1.0);
    let mut random = Random(0xa54f_f53a_5f1d_36f1);
    for _ in 0..100_000 {
        let (a, b, c) = (random.next() as u32, random.next() as u32, random.next() as u32);
        let (f, g, h) = (f32::from_bits(a), f32::from_bits(b), f32::from_bits(c));
        let got = Binary32::from_bits(a).adding_product(Binary32::from_bits(b), Binary32::from_bits(c));
        assert!(same_single(got, f + g * h), "{a:#x} {b:#x} {c:#x}");
    }
    for _ in 0..100_000 {
        let (a, b, c) = (random.next(), random.next(), random.next());
        let (g, h) = (f64::from_bits(b), f64::from_bits(c));
        let got = Binary64::from_bits(a).adding_product(Binary64::from_bits(b), Binary64::from_bits(c));
        assert!(same_double(got, g * h), "{a:#x} {b:#x} {c:#x}");
    }
}

#[test]
fn significand_of_the_wider_format_is_the_fraction() {
    assert_eq!(as_f64(double(3.5).significand()), 0.5);
    assert_eq!(as_f64(double(-3.25).significand()), -0.25);
    assert_eq!(as_f64(double(8.0).significand()), 0.0);
    assert!(double(f64::NAN).significand().is_nan());
}

#[test]
fn square_root_of_a_small_value_is_not_half_the_value() {
    let root = as_f32(single(0.000_001).square_root());
    assert!((root - 0.001).abs() < 1.0e-6, "{root}");
    let root = as_f64(double(0.0001).square_root());
    assert!((root - 0.01).abs() < 1.0e-4, "{root}");
    let root = as_f32(single(1.0e-30).square_root());
    assert!(root > 0.0 && root < 2.0e-6, "{root}");
    assert_eq!(single(0.000_001).square_root_within(0).map(as_f32), None);
    assert_eq!(single(4.0).square_root_within(0).map(as_f32), None);
    assert_eq!(single(4.0).square_root_within(1).map(as_f32), Some(2.0));
}

#[test]
fn square_root_is_within_the_tolerance_of_the_root() {
    let mut random = Random(0x3c6e_f372_fe94_f82b);
    let mut found = 0;
    for _ in 0..30_000 {
        let bits = (random.next() as u32) & 0x7fff_ffff;
        let f = f32::from_bits(bits);
        if !f.is_finite() || f == 0.0 {
            continue;
        }
        if let Some(root) = Binary32::from_bits(bits).square_root_within(400) {
            let (root, exact) = (f64::from(as_f32(root)), f64::from(f).sqrt());
            assert!(root > 0.0, "{bits:#x}");
            assert!(
                (root - exact).abs() <= 2.0e-6 + 4.0 * exact * f64::from(f32::EPSILON),
                "{bits:#x}: {root} and {exact}"
            );
            found += 1;
        }
    }
    assert!(found > 10_000);
    let mut found = 0;
    for _ in 0..15_000 {
        let bits = random.next() & 0x7fff_ffff_ffff_ffff;
        let f = f64::from_bits(bits);
        if !f.is_finite() || f == 0.0 {
            continue;
        }
        if let Some(root) = Binary64::from_bits(bits).square_root_within(2400) {
            let (root, exact) = (as_f64(root), f.sqrt());
            assert!(root > 0.0, "{bits:#x}");
            assert!(
                (root - exact).abs() <= 2.0e-4 + 4.0 * exact * f64::EPSILON,
                "{bits:#x}: {root} and {exact}"
            );
            found += 1;
        }
    }
    assert!(found > 5_000);
}
