use libx::num::traits::binary32::{self, Binary32};
use libx::num::traits::binary64::{self, Binary64};
use libx::num::traits::ratio::nearest_to_ratio;

struct Sequence(u64);

impl Sequence {
    fn next(&mut self) -> u64 {
        self.0 ^= self.0 << 13;
        self.0 ^= self.0 >> 7;
        self.0 ^= self.0 << 17;
        self.0
    }
}

fn single_nearest(n: u128, m: u128) -> f32 {
    f32::from_bits(Binary32::encoded(nearest_to_ratio(n, m, binary32::format())).to_bits())
}

fn double_nearest(n: u128, m: u128) -> f64 {
    f64::from_bits(Binary64::encoded(nearest_to_ratio(n, m, binary64::format())).to_bits())
}

#[test]
fn ratios_of_small_numbers_are_their_quotients() {
    assert_eq!(double_nearest(0, 7), 0.0);
    assert_eq!(double_nearest(1, 1), 1.0);
    assert_eq!(double_nearest(1, 2), 0.5);
    assert_eq!(double_nearest(1, 3), 1.0 / 3.0);
    assert_eq!(double_nearest(2, 3), 2.0 / 3.0);
    assert_eq!(double_nearest(1, 10), 0.1);
    assert_eq!(double_nearest(22, 7), 22.0 / 7.0);
    assert_eq!(single_nearest(1, 3), 1.0f32 / 3.0);
    assert_eq!(single_nearest(1, 10), 0.1f32);
    assert_eq!(single_nearest(16_777_217, 1), 16_777_216.0);
    assert_eq!(single_nearest(16_777_219, 1), 16_777_220.0);
    assert_eq!(double_nearest(9_007_199_254_740_993, 1), 9_007_199_254_740_992.0);
    assert_eq!(double_nearest(9_007_199_254_740_995, 1), 9_007_199_254_740_996.0);
    assert_eq!(double_nearest(u128::from(u64::MAX), 1), 18_446_744_073_709_551_616.0);
}

#[test]
fn ratios_of_exact_numbers_are_divided_as_the_machine_divides() {
    let mut sequence = Sequence(0x1357_9bdf_0246_8ace);
    for _ in 0..60_000 {
        let n = sequence.next() >> (11 + sequence.next() % 53);
        let m = 1 + (sequence.next() >> (11 + sequence.next() % 53));
        assert_eq!(
            double_nearest(u128::from(n), u128::from(m)).to_bits(),
            (n as f64 / m as f64).to_bits(),
            "{n} / {m}"
        );
        let n = n >> 29;
        let m = 1 + (m >> 29);
        assert_eq!(
            single_nearest(u128::from(n), u128::from(m)).to_bits(),
            (n as f32 / m as f32).to_bits(),
            "{n} / {m}"
        );
    }
}

#[test]
fn ratios_by_powers_of_two_reach_the_least_values() {
    for shift in 0..127u32 {
        let m = 1u128 << shift;
        for n in [1u128, 2, 3, 5, 7, 0xff_ffff, 0x100_0001, 0x1ff_ffff, 0x20_0000_0000_0001] {
            let single = n as f32 * (0.5f32).powi(shift as i32);
            assert_eq!(single_nearest(n, m).to_bits(), single.to_bits(), "{n} / 2^{shift}");
            let double = n as f64 * (0.5f64).powi(shift as i32);
            assert_eq!(double_nearest(n, m).to_bits(), double.to_bits(), "{n} / 2^{shift}");
        }
    }
    let greatest = (1u128 << 127) - 1;
    assert_eq!(single_nearest(1, greatest), (0.5f32).powi(127));
    assert_eq!(single_nearest(3, 1 << 126), 3.0 * (0.5f32).powi(126));
    assert_eq!(double_nearest(1, greatest), (0.5f64).powi(127));
}

#[test]
fn decimal_fractions_are_read_as_the_machine_reads_them() {
    let mut sequence = Sequence(0x0bad_cafe_dead_beef);
    for _ in 0..40_000 {
        let places = (sequence.next() % 38) as u32;
        let scale = 10u128.pow(places);
        let number = (u128::from(sequence.next()) << 64 | u128::from(sequence.next()))
            % (scale * 10);
        let text = format!("{number}e-{places}");
        let double: f64 = text.parse().unwrap();
        assert_eq!(double_nearest(number, scale).to_bits(), double.to_bits(), "{text}");
        let single: f32 = text.parse().unwrap();
        assert_eq!(single_nearest(number, scale).to_bits(), single.to_bits(), "{text}");
    }
}
