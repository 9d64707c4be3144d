use libx::num::traits::binary32::Binary32;
use libx::num::traits::binary64::Binary64;
use libx::num::traits::FloatingPoint;

fn single(x: f32) -> Binary32 {
    Binary32::from_bits(x.to_bits())
}

fn double(x: f64) -> Binary64 {
    Binary64::from_bits(x.to_bits())
}

fn as_f32(x: Binary32) -> f32 {
    f32::from_bits(x.to_bits())
}

fn as_f64(x: Binary64) -> f64 {
    f64::from_bits(x.to_bits())
}

struct Random(u64);

impl Random {
    fn next(&mut self) -> u64 {
        self.0 ^= self.0 << 13;
        self.0 ^= self.0 >> 7;
        self.0 ^= self.0 << 17;
        self.0
    }
}

fn special_singles() -> Vec<u32> {
    vec![
        0x0000_0000,
        0x8000_0000,
        0x0000_0001,
        0x8000_0001,
        0x0000_0002,
        0x007f_ffff,
        0x807f_ffff,
        0x0080_0000,
        0x8080_0000,
        0x0080_0001,
        0x00ff_ffff,
        0x3300_0000,
        0x3380_0000,
        0x3400_0000,
        0x3e80_0000,
        0x3f00_0000,
        0xbf00_0000,
        0x3f7f_ffff,
        0x3f80_0000,
        0xbf80_0000,
        0x3f80_0001,
        0x3fc0_0000,
        0x4000_0000,
        0x4020_0000,
        0xc020_0000,
        0x4b00_0000,
        0x4b00_0001,
        0x4b7f_ffff,
        0x4b80_0000,
        0x4e80_0000,
        0x4eff_ffff,
        0x4f00_0000,
        0xcf00_0000,
        0xcf00_0001,
        0x4f80_0000,
        0x5f00_0000,
        0x7f00_0000,
        0x7f7f_ffff,
        0xff7f_ffff,
        0x7f80_0000,
        0xff80_0000,
        0x7fc0_0000,
    ]
}

fn special_doubles() -> Vec<u64> {
    vec![
        0x0000_0000_0000_0000,
        0x8000_0000_0000_0000,
        0x0000_0000_0000_0001,
        0x8000_0000_0000_0001,
        0x000f_ffff_ffff_ffff,
        0x0010_0000_0000_0000,
        0x8010_0000_0000_0000,
        0x3ca0_0000_0000_0000,
        0x3cb0_0000_0000_0000,
        0x3fe0_0000_0000_0000,
        0xbfe0_0000_0000_0000,
        0x3fef_ffff_ffff_ffff,
        0x3ff0_0000_0000_0000,
        0xbff0_0000_0000_0000,
        0x3ff0_0000_0000_0001,
        0x4004_0000_0000_0000,
        0xc004_0000_0000_0000,
        0x4330_0000_0000_0000,
        0x433f_ffff_ffff_ffff,
        0x43d0_0000_0000_0000,
        0x43e0_0000_0000_0000,
        0xc3e0_0000_0000_0000,
        0xc3e0_0000_0000_0001,
        0x43f0_0000_0000_0000,
        0x7fe0_0000_0000_0000,
        0x7fef_ffff_ffff_ffff,
        0xffef_ffff_ffff_ffff,
        0x7ff0_0000_0000_0000,
        0xfff0_0000_0000_0000,
        0x7ff8_0000_0000_0000,
    ]
}

fn same_single(got: Binary32, expected: f32) -> bool {
    if expected.is_nan() {
        got.is_nan()
    } else {
        got.to_bits() == expected.to_bits()
    }
}

fn same_double(got: Binary64, expected: f64) -> bool {
    if expected.is_nan() {
        got.is_nan()
    } else {
        got.to_bits() == expected.to_bits()
    }
}

#[test]
fn sums_and_differences_of_examples() {
    assert_eq!(as_f32(single(3.5).adding(single(2.0))), 5.5);
    assert_eq!(as_f32(single(3.5).subtracting(single(2.0))), 1.5);
    assert_eq!(as_f32(single(1.0).adding(single(f32::EPSILON / 2.0))), 1.0);
    assert_eq!(
        as_f32(single(1.0).adding(single(f32::EPSILON))),
        1.0 + f32::EPSILON
    );
    assert_eq!(as_f32(single(f32::MAX).adding(single(f32::MAX))), f32::INFINITY);
    assert_eq!(single(1.0).subtracting(single(1.0)).to_bits(), 0);
    assert_eq!(single(-0.0).adding(single(-0.0)).to_bits(), 0x8000_0000);
    assert_eq!(single(-0.0).adding(single(0.0)).to_bits(), 0);
    assert_eq!(single(-0.0).subtracting(single(0.0)).to_bits(), 0x8000_0000);
    assert!(single(f32::INFINITY).subtracting(single(f32::INFINITY)).is_nan());
    assert_eq!(
        as_f32(single(f32::INFINITY).adding(single(f32::INFINITY))),
        f32::INFINITY
    );
    assert_eq!(
        as_f32(single(1.0).subtracting(single(f32::INFINITY))),
        f32::NEG_INFINITY
    );
    assert_eq!(Binary32::from_bits(0x7fc0_1234).adding(single(1.0)).to_bits(), 0x7fc0_1234);
    assert_eq!(single(1.0).subtracting(Binary32::from_bits(0xffc0_0001)).to_bits(), 0xffc0_0001);
    assert_eq!(as_f64(double(0.1).adding(double(0.2))), 0.1 + 0.2);
    assert_eq!(as_f64(double(1.0e300).adding(double(1.0e300))), 2.0e300);
    assert_eq!(as_f64(double(f64::MAX).adding(double(f64::MAX))), f64::INFINITY);
    assert_eq!(as_f64(double(1.0).subtracting(double(1.0e-20))), 1.0);
}

#[test]
fn sums_and_differences_agree_with_the_hardware() {
    let specials = special_singles();
    for a in &specials {
        for b in &specials {
            let (f, g) = (f32::from_bits(*a), f32::from_bits(*b));
            let (x, y) = (Binary32::from_bits(*a), Binary32::from_bits(*b));
            assert!(same_single(x.adding(y), f + g), "{a:#x} + {b:#x}");
            assert!(same_single(x.subtracting(y), f - g), "{a:#x} - {b:#x}");
        }
    }
    let mut random = Random(0x2545_f491_4f6c_dd1d);
    for round in 0..400_000 {
        let a = random.next() as u32;
        let mut b = random.next() as u32;
        if round % 2 == 0 {
            // exponents near each other, where the rounding is decided
            let exponent = ((a >> 23) & 0xff) as i32 + (round % 61) as i32 - 30;
            let exponent = exponent.clamp(0, 254) as u32;
            b = (b & 0x807f_ffff) | (exponent << 23);
        }
        let (f, g) = (f32::from_bits(a), f32::from_bits(b));
        let (x, y) = (Binary32::from_bits(a), Binary32::from_bits(b));
        assert!(same_single(x.adding(y), f + g), "{a:#x} + {b:#x}");
        assert!(same_single(x.subtracting(y), f - g), "{a:#x} - {b:#x}");
    }
    let specials = special_doubles();
    for a in &specials {
        for b in &specials {
            let (f, g) = (f64::from_bits(*a), f64::from_bits(*b));
            let (x, y) = (Binary64::from_bits(*a), Binary64::from_bits(*b));
            assert!(same_double(x.adding(y), f + g), "{a:#x} + {b:#x}");
            assert!(same_double(x.subtracting(y), f - g), "{a:#x} - {b:#x}");
        }
    }
    for round in 0..400_000 {
        let a = random.next();
        let mut b = random.next();
        if round % 2 == 0 {
            let exponent = ((a >> 52) & 0x7ff) as i64 + (round % 121) as i64 - 60;
            let exponent = exponent.clamp(0, 2046) as u64;
            b = (b & 0x800f_ffff_ffff_ffff) | (exponent << 52);
        }
        let (f, g) = (f64::from_bits(a), f64::from_bits(b));
        let (x, y) = (Binary64::from_bits(a), Binary64::from_bits(b));
        assert!(same_double(x.adding(y), f + g), "{a:#x} + {b:#x}");
        assert!(same_double(x.subtracting(y), f - g), "{a:#x} - {b:#x}");
    }
}

#[test]
fn products_and_quotients_of_examples() {
    assert_eq!(as_f32(single(3.5).multiplying(single(2.0))), 7.0);
    assert_eq!(as_f32(single(7.0).dividing(single(2.0))), 3.5);
    assert_eq!(as_f32(single(1.0).dividing(single(3.0))), 1.0 / 3.0);
    assert_eq!(as_f32(single(-1.0).dividing(single(0.0))), f32::NEG_INFINITY);
    assert_eq!(single(0.0).dividing(single(-1.0)).to_bits(), 0x8000_0000);
    assert!(single(0.0).dividing(single(0.0)).is_nan());
    assert!(single(f32::INFINITY).dividing(single(f32::INFINITY)).is_nan());
    assert!(single(f32::INFINITY).multiplying(single(0.0)).is_nan());
    assert_eq!(as_f32(single(f32::MAX).multiplying(single(2.0))), f32::INFINITY);
    assert_eq!(
        as_f32(single(f32::MIN_POSITIVE).multiplying(single(0.5))),
        f32::MIN_POSITIVE * 0.5
    );
    assert_eq!(single(1.0e-30).multiplying(single(1.0e-30)).to_bits(), 0);
    assert_eq!(as_f32(single(1.0).dividing(single(f32::INFINITY))), 0.0);
    assert_eq!(as_f64(double(0.1).multiplying(double(3.0))), 0.1 * 3.0);
    assert_eq!(as_f64(double(1.0).dividing(double(10.0))), 0.1);
    assert_eq!(as_f64(double(2.0).dividing(double(3.0))), 2.0 / 3.0);
}

#[test]
fn products_and_quotients_agree_with_the_hardware() {
    let specials = special_singles();
    for a in &specials {
        for b in &specials {
            let (f, g) = (f32::from_bits(*a), f32::from_bits(*b));
            let (x, y) = (Binary32::from_bits(*a), Binary32::from_bits(*b));
            assert!(same_single(x.multiplying(y), f * g), "{a:#x} * {b:#x}");
            assert!(same_single(x.dividing(y), f / g), "{a:#x} / {b:#x}");
        }
    }
    let mut random = Random(0x6a09_e667_f3bc_c908);
    for round in 0..400_000 {
        let mut a = random.next() as u32;
        let mut b = random.next() as u32;
        if round % 4 == 0 {
            // products and quotients near the least values, where digits are lost
            a = (a & 0x807f_ffff) | ((round as u32 % 80) << 23);
            b = (b & 0x807f_ffff) | ((100 + round as u32 % 60) << 23);
        }
        if round % 4 == 1 {
            a &= 0x807f_ffff;
        }
        let (f, g) = (f32::from_bits(a), f32::from_bits(b));
        let (x, y) = (Binary32::from_bits(a), Binary32::from_bits(b));
        assert!(same_single(x.multiplying(y), f * g), "{a:#x} * {b:#x}");
        assert!(same_single(x.dividing(y), f / g), "{a:#x} / {b:#x}");
        assert!(same_single(y.dividing(x), g / f), "{b:#x} / {a:#x}");
    }
    let specials = special_doubles();
    for a in &specials {
        for b in &specials {
            let (f, g) = (f64::from_bits(*a), f64::from_bits(*b));
            let (x, y) = (Binary64::from_bits(*a), Binary64::from_bits(*b));
            assert!(same_double(x.multiplying(y), f * g), "{a:#x} * {b:#x}");
            assert!(same_double(x.dividing(y), f / g), "{a:#x} / {b:#x}");
        }
    }
    for round in 0..400_000 {
        let mut a = random.next();
        let mut b = random.next();
        if round % 4 == 0 {
            a = (a & 0x800f_ffff_ffff_ffff) | ((round as u64 % 600) << 52);
            b = (b & 0x800f_ffff_ffff_ffff) | ((700 + round as u64 % 400) << 52);
        }
        if round % 4 == 1 {
            a &= 0x800f_ffff_ffff_ffff;
        }
        let (f, g) = (f64::from_bits(a), f64::from_bits(b));
        let (x, y) = (Binary64::from_bits(a), Binary64::from_bits(b));
        assert!(same_double(x.multiplying(y), f * g), "{a:#x} * {b:#x}");
        assert!(same_double(x.dividing(y), f / g), "{a:#x} / {b:#x}");
        assert!(same_double(y.dividing(x), g / f), "{b:#x} / {a:#x}");
    }
}

/// A zero with the positive sign, which is the sign of every zero result.
fn positive_single(x: f32) -> f32 {
    if x == 0.0 {
        0.0
    } else {
        x
    }
}

fn positive_double(x: f64) -> f64 {
    if x == 0.0 {
        0.0
    } else {
        x
    }
}

#[test]
fn floor_and_ceil_of_examples() {
    assert_eq!(as_f32(single(3.5).ceil()), 4.0);
    assert_eq!(as_f32(single(3.5).floor()), 3.0);
    assert_eq!(as_f32(single(-3.5).ceil()), -3.0);
    assert_eq!(as_f32(single(-3.5).floor()), -4.0);
    assert_eq!(as_f32(single(7.0).ceil()), 7.0);
    assert_eq!(as_f32(single(7.0).floor()), 7.0);
    assert_eq!(single(0.5).floor().to_bits(), 0);
    assert_eq!(as_f32(single(0.5).ceil()), 1.0);
    assert_eq!(single(-0.5).ceil().to_bits(), 0);
    assert_eq!(as_f32(single(-0.5).floor()), -1.0);
    assert_eq!(single(-0.0).floor().to_bits(), 0);
    assert_eq!(single(-0.0).ceil().to_bits(), 0);
    assert_eq!(as_f32(single(1.0e10).floor()), 1.0e10);
    assert_eq!(as_f32(single(1.0e10).ceil()), 1.0e10);
    assert_eq!(as_f32(single(-1.0e10).floor()), -1.0e10);
    assert_eq!(single(-1_099_511_627_776.0).floor().to_bits(), 0xd380_0000);
    assert_eq!(single(1_099_511_627_776.0).ceil().to_bits(), 0x5380_0000);
    assert_eq!(as_f32(single(8_388_607.5).floor()), 8_388_607.0);
    assert_eq!(as_f32(single(8_388_607.5).ceil()), 8_388_608.0);
    assert_eq!(as_f32(single(f32::MAX).ceil()), f32::MAX);
    assert_eq!(as_f32(single(f32::MIN).floor()), f32::MIN);
    assert_eq!(as_f32(single(f32::from_bits(1)).ceil()), 1.0);
    assert_eq!(as_f32(single(f32::from_bits(0x8000_0001)).floor()), -1.0);
    assert_eq!(as_f32(single(f32::INFINITY).floor()), f32::INFINITY);
    assert!(single(f32::NAN).ceil().is_nan());
    assert_eq!(as_f64(double(2.5).ceil()), 3.0);
    assert_eq!(as_f64(double(2.5).floor()), 2.0);
    assert_eq!(as_f64(double(-2.5).ceil()), -2.0);
    assert_eq!(as_f64(double(-2.5).floor()), -3.0);
    assert_eq!(as_f64(double(1.0e300).floor()), 1.0e300);
    assert_eq!(as_f64(double(-1_180_591_620_717_411_303_424.0).floor()), -1_180_591_620_717_411_303_424.0);
}

#[test]
fn floor_and_ceil_agree_with_the_hardware() {
    let mut random = Random(0x9e37_79b9_7f4a_7c15);
    let mut singles = special_singles();
    for _ in 0..400_000 {
        singles.push(random.next() as u32);
    }
    for exponent in 100..170u32 {
        for _ in 0..200 {
            singles.push((random.next() as u32 & 0x807f_ffff) | (exponent << 23));
        }
    }
    for bits in singles {
        let f = f32::from_bits(bits);
        let x = Binary32::from_bits(bits);
        assert!(same_single(x.floor(), positive_single(f.floor())), "floor {bits:#x}");
        assert!(same_single(x.ceil(), positive_single(f.ceil())), "ceil {bits:#x}");
    }
    let mut doubles = special_doubles();
    for _ in 0..400_000 {
        doubles.push(random.next());
    }
    for exponent in 1000..1100u64 {
        for _ in 0..200 {
            doubles.push((random.next() & 0x800f_ffff_ffff_ffff) | (exponent << 52));
        }
    }
    for bits in doubles {
        let f = f64::from_bits(bits);
        let x = Binary64::from_bits(bits);
        assert!(same_double(x.floor(), positive_double(f.floor())), "floor {bits:#x}");
        assert!(same_double(x.ceil(), positive_double(f.ceil())), "ceil {bits:#x}");
    }
}

#[test]
fn floor_is_below_and_ceil_is_above() {
    let mut random = Random(0x1234_5678_9abc_def1);
    for _ in 0..200_000 {
        let bits = random.next() as u32;
        let f = f32::from_bits(bits);
        if !f.is_finite() {
            continue;
        }
        let x = Binary32::from_bits(bits);
        let (low, high) = (as_f32(x.floor()), as_f32(x.ceil()));
        assert!(low <= f && f <= high);
        assert!(high - low == 0.0 || high - low == 1.0);
    }
}
