use liblrs::binary64::Binary64;

fn number(value: f64) -> Binary64 {
    Binary64 {
        bits: value.to_bits(),
    }
}

/// A fixed sequence of scattered 64-bit patterns.
struct Scatter(u64);

impl Scatter {
    fn next(&mut self) -> u64 {
        self.0 ^= self.0 << 13;
        self.0 ^= self.0 >> 7;
        self.0 ^= self.0 << 17;
        self.0
    }

    /// A number that is not negative, with an exponent between `low` and
    /// `high` and scattered digits.
    fn within(&mut self, low: i32, high: i32) -> f64 {
        let span = (high - low + 1) as u64;
        let exponent = (low + (self.next() % span) as i32 + 1023) as u64;
        let fraction = match self.next() % 4 {
            0 => 0,
            1 => (1 << 52) - 1,
            2 => self.next() & ((1 << 52) - 1) & !0xfff,
            _ => self.next() & ((1 << 52) - 1),
        };
        f64::from_bits((exponent << 52) | fraction)
    }
}

const SPECIAL: [f64; 27] = [
    0.0,
    -0.0,
    0.5,
    0.999_999_999_999_999_9,
    1.0,
    1.000_000_000_000_000_2,
    1.5,
    1.9,
    2.0,
    2.5,
    -1.0,
    -2.5,
    0.1,
    0.3,
    10.0,
    4_503_599_627_370_496.0,
    9_007_199_254_740_992.0,
    9_007_199_254_740_993.0,
    18_446_744_073_709_549_568.0,
    18_446_744_073_709_551_616.0,
    1e300,
    f64::MAX,
    f64::MIN_POSITIVE,
    5e-324,
    f64::INFINITY,
    f64::NEG_INFINITY,
    f64::NAN,
];

#[test]
fn truncate_drops_what_comes_after_the_point() {
    assert_eq!(0, number(0.0).truncate());
    assert_eq!(0, number(0.999).truncate());
    assert_eq!(1, number(1.0).truncate());
    assert_eq!(1, number(1.999).truncate());
    assert_eq!(2, number(2.0).truncate());
    assert_eq!(2, number(2.83).truncate());
    assert_eq!(7, number(7.5).truncate());
    assert_eq!(1_000_000, number(1_000_000.75).truncate());
    assert_eq!(1 << 52, number(4_503_599_627_370_496.0).truncate());
    assert_eq!((1 << 53) + 2, number(9_007_199_254_740_994.0).truncate());
}

#[test]
fn truncate_gives_zero_for_what_is_negative_or_no_number() {
    assert_eq!(0, number(-0.0).truncate());
    assert_eq!(0, number(-0.5).truncate());
    assert_eq!(0, number(-1.0).truncate());
    assert_eq!(0, number(-1e300).truncate());
    assert_eq!(0, number(f64::NEG_INFINITY).truncate());
    assert_eq!(0, number(f64::NAN).truncate());
    assert_eq!(0, number(-f64::NAN).truncate());
    assert_eq!(
        0,
        Binary64 {
            bits: 0x7ff0_0000_0000_0001
        }
        .truncate()
    );
}

#[test]
fn truncate_stops_at_the_largest_usize() {
    assert_eq!(usize::MAX, number(f64::INFINITY).truncate());
    assert_eq!(usize::MAX, number(f64::MAX).truncate());
    assert_eq!(usize::MAX, number(1e300).truncate());
    assert_eq!(usize::MAX, number(18_446_744_073_709_551_616.0).truncate());
    assert_eq!(
        18_446_744_073_709_549_568.0 as usize,
        number(18_446_744_073_709_549_568.0).truncate()
    );
}

#[test]
fn truncate_agrees_with_the_conversion_of_the_machine() {
    for value in SPECIAL {
        assert_eq!(value as usize, number(value).truncate(), "{value:e}");
    }
    let mut scatter = Scatter(0x9e37_79b9_7f4a_7c15);
    for _ in 0..200_000 {
        let bits = scatter.next();
        let value = f64::from_bits(bits);
        assert_eq!(value as usize, Binary64 { bits }.truncate(), "{bits:#x}");
        let value = scatter.within(-3, 66);
        assert_eq!(value as usize, number(value).truncate(), "{value:e}");
    }
}

#[test]
fn product_is_rounded_before_it_is_cut_down() {
    // 0.3 is a little under three tenths, and ten times it is rounded to 3.
    assert_eq!(3, number(0.3).truncate_times(number(10.0)));
    assert_eq!(1, number(0.1).truncate_times(number(10.0)));
    assert_eq!(1, number(0.5).truncate_times(number(2.0)));
    assert_eq!(0, number(0.49).truncate_times(number(2.0)));
    assert_eq!(2, number(1.0).truncate_times(number(2.9)));
    assert_eq!(6, number(2.5).truncate_times(number(2.5)));
    assert_eq!(0, number(0.0).truncate_times(number(1e300)));
    assert_eq!(35, number(0.7).truncate_times(number(50.0)));
}

#[test]
fn product_with_no_number_is_zero() {
    assert_eq!(0, number(f64::NAN).truncate_times(number(1.0)));
    assert_eq!(0, number(1.0).truncate_times(number(f64::NAN)));
    assert_eq!(0, number(f64::INFINITY).truncate_times(number(0.0)));
    assert_eq!(0, number(0.0).truncate_times(number(f64::INFINITY)));
    assert_eq!(0, number(-0.0).truncate_times(number(f64::INFINITY)));
}

#[test]
fn product_follows_the_signs() {
    assert_eq!(0, number(-1.0).truncate_times(number(5.0)));
    assert_eq!(0, number(1.0).truncate_times(number(-5.0)));
    assert_eq!(5, number(-1.0).truncate_times(number(-5.0)));
    assert_eq!(0, number(-1.0).truncate_times(number(f64::INFINITY)));
    assert_eq!(
        usize::MAX,
        number(-1.0).truncate_times(number(f64::NEG_INFINITY))
    );
    assert_eq!(
        usize::MAX,
        number(0.5).truncate_times(number(f64::INFINITY))
    );
    assert_eq!(usize::MAX, number(1e200).truncate_times(number(1e200)));
}

#[test]
fn product_agrees_with_the_multiplication_of_the_machine() {
    for a in SPECIAL {
        for b in SPECIAL {
            assert_eq!(
                (a * b) as usize,
                number(a).truncate_times(number(b)),
                "{a:e} * {b:e}"
            );
        }
    }
    let mut scatter = Scatter(0x2545_f491_4f6c_dd1d);
    for _ in 0..150_000 {
        // Any two patterns.
        let (a, b) = (
            f64::from_bits(scatter.next()),
            f64::from_bits(scatter.next()),
        );
        assert_eq!(
            (a * b) as usize,
            number(a).truncate_times(number(b)),
            "{a:e} * {b:e}"
        );
        // A location between zero and one by a length.
        let (a, b) = (scatter.within(-60, -1), scatter.within(0, 70));
        assert_eq!(
            (a * b) as usize,
            number(a).truncate_times(number(b)),
            "{a:e} * {b:e}"
        );
        // Products around the whole numbers up to the largest usize.
        let (a, b) = (scatter.within(-40, 40), scatter.within(-10, 30));
        assert_eq!(
            (a * b) as usize,
            number(a).truncate_times(number(b)),
            "{a:e} * {b:e}"
        );
        // The smallest numbers by the largest.
        let (a, b) = (
            f64::from_bits(scatter.next() & ((1 << 52) - 1)),
            scatter.within(960, 1023),
        );
        assert_eq!(
            (a * b) as usize,
            number(a).truncate_times(number(b)),
            "{a:e} * {b:e}"
        );
    }
}

#[test]
fn product_of_small_whole_numbers_is_exact() {
    for a in 0..60u32 {
        for b in 0..60u32 {
            assert_eq!(
                (a * b) as usize,
                number(a as f64).truncate_times(number(b as f64))
            );
            assert_eq!(
                ((a as f64 / 8.0) * (b as f64 / 4.0)) as usize,
                number(a as f64 / 8.0).truncate_times(number(b as f64 / 4.0))
            );
        }
    }
}

#[test]
fn ceiling_divide_counts_the_pieces() {
    assert_eq!(2, number(2.0).ceiling_divide(1));
    assert_eq!(3, number(2.5).ceiling_divide(1));
    assert_eq!(3, number(9.0).ceiling_divide(3));
    assert_eq!(4, number(9.000_000_000_000_002).ceiling_divide(3));
    assert_eq!(1, number(0.25).ceiling_divide(1));
    assert_eq!(1, number(0.25).ceiling_divide(1000));
    assert_eq!(1, number(1000.0).ceiling_divide(1000));
    assert_eq!(2, number(1000.5).ceiling_divide(1000));
    assert_eq!(1, number(5.0).ceiling_divide(usize::MAX));
    assert_eq!(1 << 60, number(1_152_921_504_606_846_976.0).ceiling_divide(1));
}

#[test]
fn ceiling_divide_is_exact_where_the_machine_rounds() {
    // The quotient lies a little above a whole number; the quotient of the
    // machine is rounded down to it.
    let length = 616_126_817_364_520_704.0;
    assert_eq!(28_786_937_222_097, number(length).ceiling_divide(21_403));
    assert_eq!(28_786_937_222_096, (length / 21_403.).ceil() as usize);
    let length = 1_152_921_504_606_846_976.0;
    assert_eq!(384_307_168_202_282_326, number(length).ceiling_divide(3));
    assert_eq!(384_307_168_202_282_304, (length / 3.).ceil() as usize);
    // The smallest number there is still takes one piece.
    assert_eq!(1, number(5e-324).ceiling_divide(10));
}

#[test]
fn ceiling_divide_of_what_cannot_be_covered() {
    assert_eq!(0, number(0.0).ceiling_divide(1));
    assert_eq!(0, number(0.0).ceiling_divide(0));
    assert_eq!(0, number(-0.0).ceiling_divide(0));
    assert_eq!(0, number(-3.0).ceiling_divide(2));
    assert_eq!(0, number(-3.0).ceiling_divide(0));
    assert_eq!(0, number(f64::NAN).ceiling_divide(2));
    assert_eq!(0, number(f64::NEG_INFINITY).ceiling_divide(2));
    assert_eq!(usize::MAX, number(3.0).ceiling_divide(0));
    assert_eq!(usize::MAX, number(f64::INFINITY).ceiling_divide(7));
    assert_eq!(usize::MAX, number(f64::INFINITY).ceiling_divide(0));
    assert_eq!(usize::MAX, number(1e300).ceiling_divide(usize::MAX));
    assert_eq!(usize::MAX, number(1e30).ceiling_divide(3));
}

#[test]
fn ceiling_divide_agrees_with_the_division_of_the_machine() {
    let limit = 9_007_199_254_740_992.0;
    for length in SPECIAL {
        for size in [0usize, 1, 2, 3, 7, 10, 1000, 1 << 20, (1 << 53) - 1] {
            let quotient = length / size as f64;
            if length < limit && !(quotient == 0. && length > 0.) {
                assert_eq!(
                    quotient.ceil() as usize,
                    number(length).ceiling_divide(size),
                    "{length:e} / {size}"
                );
            }
        }
    }
    let mut scatter = Scatter(0x1234_5678_9abc_def1);
    for _ in 0..200_000 {
        let length = scatter.within(-30, 52);
        let size = (scatter.next() >> (11 + scatter.next() % 53)) as usize;
        let quotient = length / size as f64;
        if length < limit {
            assert_eq!(
                quotient.ceil() as usize,
                number(length).ceiling_divide(size),
                "{length:e} / {size}"
            );
        }
        // Lengths just above a multiple of the size.
        let pieces = 1 + scatter.next() % 1000;
        let size = 1 + (scatter.next() % 100_000) as usize;
        let exact = (pieces * size as u64) as f64;
        for length in [
            exact,
            f64::from_bits(exact.to_bits() + 1),
            f64::from_bits(exact.to_bits() - 1),
        ] {
            assert_eq!(
                (length / size as f64).ceil() as usize,
                number(length).ceiling_divide(size),
                "{length:e} / {size}"
            );
        }
    }
}

#[test]
fn sign_and_magnitude() {
    assert!(!number(0.0).negative());
    assert!(number(-0.0).negative());
    assert!(number(-2.5).negative());
    assert!(!number(2.5).negative());
    assert!(number(f64::NEG_INFINITY).negative());
    assert_eq!(number(2.5), number(-2.5).abs());
    assert_eq!(number(2.5), number(2.5).abs());
    assert_eq!(number(0.0), number(-0.0).abs());
    assert_eq!(number(f64::INFINITY), number(f64::NEG_INFINITY).abs());
    assert_eq!(2, number(-2.5).abs().truncate());
}
