//! Numbers in the binary64 interchange format, taken by their bits.
//!
//! The geometry measures in floating point. A measure enters the library as
//! the 64 bits that hold it, and the library reads off the whole number that
//! it stands for: the number cut down, the number of pieces of a given size
//! that cover it, or its product by another measure, cut down. The product,
//! of a location along a polyline by the length of the polyline, is formed in
//! whole-number arithmetic and rounded as the format rounds it.

use vstd::arithmetic::div_mod::{lemma_div_by_multiple, lemma_div_denominator};
use vstd::arithmetic::power2::{
    lemma2_to64, lemma2_to64_rest, lemma_pow2_adds, lemma_pow2_pos,
    lemma_pow2_strictly_increases, lemma_pow2_unfold, pow2,
};
use vstd::prelude::*;

verus! {

/// A number in the binary64 format: one bit for the sign, eleven for the
/// exponent and fifty-two for the fraction.
#[derive(Clone, Copy, Debug, PartialEq, Eq, Structural)]
pub struct Binary64 {
    pub bits: u64,
}

/// How many binary digits a whole number has.
pub open spec fn bit_length(n: nat) -> nat
    decreases n,
{
    if n == 0 {
        0
    } else {
        1 + bit_length(n / 2)
    }
}

/// `n / 2^drop`, rounded to the nearest whole number and, halfway between
/// two of them, to the even one.
pub open spec fn rounded_quotient(n: nat, drop: nat) -> nat {
    let quotient = n / pow2(drop);
    let rest = n % pow2(drop);
    if 2 * rest > pow2(drop) || (2 * rest == pow2(drop) && quotient % 2 == 1) {
        quotient + 1
    } else {
        quotient
    }
}

/// `n * 2^scale` without what comes after the point.
pub open spec fn whole_of(n: nat, scale: int) -> nat {
    if scale >= 0 {
        n * pow2(scale as nat)
    } else {
        n / pow2((-scale) as nat)
    }
}

/// The least whole number that is not below `n / d`.
pub open spec fn ceiling_quotient(n: nat, d: nat) -> nat
    recommends
        d > 0,
{
    if n % d == 0 {
        n / d
    } else {
        n / d + 1
    }
}

/// A whole number as a `usize`, the largest `usize` standing for every
/// number above it.
pub open spec fn saturated(n: nat) -> usize {
    if n > usize::MAX {
        usize::MAX
    } else {
        n as usize
    }
}

/// A whole number below `2^k` has at most `k` binary digits.
proof fn lemma_bit_length_bound(n: nat, k: nat)
    requires
        n < pow2(k),
    ensures
        bit_length(n) <= k,
    decreases k,
{
    if n > 0 {
        if k == 0 {
            lemma2_to64();
        } else {
            lemma_pow2_unfold(k);
            lemma_bit_length_bound(n / 2, (k - 1) as nat);
        }
    }
}

/// `2^127` is the largest power of two that a `u128` holds.
proof fn lemma_pow2_127()
    ensures
        pow2(127) == 0x8000_0000_0000_0000_0000_0000_0000_0000,
        pow2(128) == 0x1_0000_0000_0000_0000_0000_0000_0000_0000,
{
    lemma2_to64();
    lemma2_to64_rest();
    lemma_pow2_adds(64, 63);
    lemma_pow2_adds(64, 64);
}

/// The power of two with the exponent `k`.
fn power_of_two(k: u32) -> (power: u128)
    requires
        k <= 127,
    ensures
        power == pow2(k as nat),
        power > 0,
{
    let mut power: u128 = 1;
    let mut i: u32 = 0;
    proof {
        lemma2_to64();
    }
    while i < k
        invariant
            i <= k <= 127,
            power == pow2(i as nat),
        decreases k - i,
    {
        proof {
            lemma_pow2_unfold((i + 1) as nat);
            lemma_pow2_127();
            if i + 1 < 127 {
                lemma_pow2_strictly_increases((i + 1) as nat, 127);
            }
        }
        power = power * 2;
        i += 1;
    }
    proof {
        lemma_pow2_pos(k as nat);
    }
    power
}

/// The number of binary digits of `n`.
fn binary_digits(n: u128) -> (length: u32)
    ensures
        length == bit_length(n as nat),
        length <= 128,
{
    let mut rest = n;
    let mut length: u32 = 0;
    proof {
        lemma_pow2_127();
        lemma_bit_length_bound(n as nat, 128);
    }
    while rest > 0
        invariant
            bit_length(n as nat) == length + bit_length(rest as nat),
            bit_length(n as nat) <= 128,
        decreases rest,
    {
        rest = rest / 2;
        length += 1;
    }
    length
}

/// `n * 2^scale` without what comes after the point, kept within `usize`.
fn whole_number(n: u128, scale: i32) -> (whole: usize)
    ensures
        whole == saturated(whole_of(n as nat, scale as int)),
{
    if n == 0 {
        proof {
            if scale >= 0 {
                assert(0 * pow2(scale as nat) == 0) by (nonlinear_arith);
            } else {
                lemma_pow2_pos((-scale) as nat);
            }
        }
        return 0;
    }
    if scale >= 0 {
        if scale >= 64 || n > u64::MAX as u128 {
            proof {
                lemma2_to64();
                lemma_pow2_pos(scale as nat);
                if scale > 64 {
                    lemma_pow2_strictly_increases(64, scale as nat);
                }
                let power = pow2(scale as nat) as int;
                assert(n as int * power > 0xffff_ffff_ffff_ffff) by (nonlinear_arith)
                    requires
                        n >= 1,
                        power >= 1,
                        n > 0xffff_ffff_ffff_ffff || power > 0xffff_ffff_ffff_ffff,
                ;
            }
            return usize::MAX;
        }
        let power = power_of_two(scale as u32);
        proof {
            lemma2_to64();
            lemma_pow2_strictly_increases(scale as nat, 64);
            assert(n * power <= 0xffff_ffff_ffff_ffff * 0xffff_ffff_ffff_ffff) by (nonlinear_arith)
                requires
                    0 <= n <= 0xffff_ffff_ffff_ffff,
                    0 <= power <= 0xffff_ffff_ffff_ffff,
            ;
        }
        let product = n * power;
        if product > usize::MAX as u128 {
            usize::MAX
        } else {
            product as usize
        }
    } else {
        if scale <= -128 {
            proof {
                lemma_pow2_127();
                if scale < -128 {
                    lemma_pow2_strictly_increases(128, (-scale) as nat);
                }
                let power = pow2((-scale) as nat) as int;
                assert(n as int / power == 0) by (nonlinear_arith)
                    requires
                        0 <= n < power,
                ;
            }
            return 0;
        }
        let power = power_of_two((-scale) as u32);
        let quotient = n / power;
        if quotient > usize::MAX as u128 {
            usize::MAX
        } else {
            quotient as usize
        }
    }
}

impl Binary64 {
    /// Whether the sign bit is set.
    pub open spec fn is_negative(self) -> bool {
        self.bits >= 0x8000_0000_0000_0000
    }

    /// The exponent as it is stored, with its bias of 1023.
    pub open spec fn biased_exponent(self) -> nat {
        (self.bits as nat / 0x10_0000_0000_0000) % 0x800
    }

    /// The fraction as it is stored.
    pub open spec fn fraction(self) -> nat {
        self.bits as nat % 0x10_0000_0000_0000
    }

    /// The number without its sign.
    pub open spec fn magnitude(self) -> Binary64 {
        Binary64 { bits: (self.bits % 0x8000_0000_0000_0000) as u64 }
    }

    /// Whether the bits hold no number.
    pub open spec fn is_nan(self) -> bool {
        self.biased_exponent() == 0x7ff && self.fraction() != 0
    }

    /// Whether the bits hold an infinity.
    pub open spec fn is_infinite(self) -> bool {
        self.biased_exponent() == 0x7ff && self.fraction() == 0
    }

    /// Whether the bits hold a zero.
    pub open spec fn is_zero(self) -> bool {
        self.biased_exponent() == 0 && self.fraction() == 0
    }

    /// Whether the number lies between zero and one, both included. Among
    /// the numbers that are not negative the bits grow with the number, and
    /// one has the bits `0x3ff0_0000_0000_0000`.
    pub open spec fn is_fraction(self) -> bool {
        !self.is_negative() && self.bits <= 0x3ff0_0000_0000_0000
    }

    /// The binary digits of the magnitude of a finite number, as a whole
    /// number: the fraction, with a leading one unless the exponent is the
    /// smallest.
    pub open spec fn significand(self) -> nat {
        if self.biased_exponent() == 0 {
            self.fraction()
        } else {
            0x10_0000_0000_0000 + self.fraction()
        }
    }

    /// The power of two that the last digit of the significand counts: the
    /// magnitude of a finite number is `significand * 2^scale`.
    pub open spec fn scale(self) -> int {
        if self.biased_exponent() == 0 {
            -1074
        } else {
            self.biased_exponent() - 1075
        }
    }

    /// The largest whole number that is not above the magnitude of a finite
    /// number.
    pub open spec fn whole_part(self) -> nat {
        whole_of(self.significand(), self.scale())
    }

    /// The number cut down to a whole number: what comes after the point is
    /// dropped, never rounded. A negative number, and bits that hold no
    /// number, give zero; a number too large for `usize` gives the largest
    /// `usize`.
    pub open spec fn truncated(self) -> usize {
        if self.is_negative() || self.is_nan() {
            0
        } else if self.is_infinite() {
            usize::MAX
        } else {
            saturated(self.whole_part())
        }
    }

    /// The largest whole number that is not above the magnitude of the
    /// product of two finite numbers, as the format holds that product: the
    /// digits of the exact product beyond the fifty-third are rounded away,
    /// to the nearest and, halfway, to the even.
    pub open spec fn product_whole_part(self, other: Binary64) -> nat {
        let digits = self.significand() * other.significand();
        let drop = if bit_length(digits) > 53 {
            (bit_length(digits) - 53) as nat
        } else {
            0
        };
        whole_of(rounded_quotient(digits, drop), self.scale() + other.scale() + drop)
    }

    /// The product of two numbers cut down to a whole number. Where the
    /// product is no number (one of the two is none, or one is zero and the
    /// other infinite) or is negative, that is zero; where it is too large
    /// for `usize`, the largest `usize`.
    pub open spec fn truncated_times(self, other: Binary64) -> usize {
        if self.is_nan() || other.is_nan() {
            0
        } else if (self.is_infinite() && other.is_zero()) || (self.is_zero()
            && other.is_infinite()) {
            0
        } else if self.is_negative() != other.is_negative() {
            0
        } else if self.is_infinite() || other.is_infinite() {
            usize::MAX
        } else {
            saturated(self.product_whole_part(other))
        }
    }

    /// How many pieces of the size `divisor` it takes to cover the number:
    /// the quotient, taken exactly, and the least whole number that is not
    /// below it. Nothing covers what is negative, zero or no number; a
    /// number that is infinite, or any at all where the size is zero, takes
    /// the largest `usize`, as does a count too large for `usize`.
    pub open spec fn ceiling_divided(self, divisor: usize) -> usize {
        if self.is_negative() || self.is_nan() || self.is_zero() {
            0
        } else if self.is_infinite() || divisor == 0 {
            usize::MAX
        } else if self.scale() >= 0 {
            saturated(
                ceiling_quotient(self.significand() * pow2(self.scale() as nat), divisor as nat),
            )
        } else {
            saturated(
                ceiling_quotient(
                    self.significand(),
                    divisor as nat * pow2((-self.scale()) as nat),
                ),
            )
        }
    }

    /// The sign, the stored exponent and the stored fraction.
    fn fields(self) -> (fields: (bool, u64, u64))
        ensures
            fields.0 == self.is_negative(),
            fields.1 == self.biased_exponent(),
            fields.2 == self.fraction(),
            fields.1 < 0x800,
            fields.2 < 0x10_0000_0000_0000,
    {
        let bits = self.bits;
        (bits >= 0x8000_0000_0000_0000, (bits / 0x10_0000_0000_0000) % 0x800, bits % 0x10_0000_0000_0000)
    }

    /// Whether the sign bit is set.
    pub fn negative(self) -> (negative: bool)
        ensures
            negative == self.is_negative(),
    {
        self.bits >= 0x8000_0000_0000_0000
    }

    /// The number without its sign.
    pub fn abs(self) -> (magnitude: Binary64)
        ensures
            magnitude == self.magnitude(),
            !magnitude.is_negative(),
    {
        Binary64 { bits: self.bits % 0x8000_0000_0000_0000 }
    }

    /// Cuts the number down to a whole number.
    pub fn truncate(self) -> (whole: usize)
        ensures
            whole == self.truncated(),
    {
        let (negative, exponent, fraction) = self.fields();
        if negative {
            return 0;
        }
        if exponent == 0x7ff {
            return if fraction == 0 {
                usize::MAX
            } else {
                0
            };
        }
        if exponent == 0 {
            whole_number(fraction as u128, -1074)
        } else {
            whole_number((fraction + 0x10_0000_0000_0000) as u128, exponent as i32 - 1075)
        }
    }

    /// Counts the pieces of the size `divisor` that it takes to cover the
    /// number.
    pub fn ceiling_divide(self, divisor: usize) -> (count: usize)
        ensures
            count == self.ceiling_divided(divisor),
    {
        let (negative, exponent, fraction) = self.fields();
        if negative || (exponent == 0 && fraction == 0) {
            return 0;
        }
        if exponent == 0x7ff {
            return if fraction == 0 {
                usize::MAX
            } else {
                0
            };
        }
        if divisor == 0 {
            return usize::MAX;
        }
        let significand: u128 = if exponent == 0 {
            fraction as u128
        } else {
            (fraction + 0x10_0000_0000_0000) as u128
        };
        let scale: i32 = if exponent == 0 {
            -1074
        } else {
            exponent as i32 - 1075
        };
        let size = divisor as u128;
        if scale >= 0 {
            if scale >= 76 {
                proof {
                    lemma_pow2_127();
                    lemma_pow2_adds(76, 52);
                    lemma2_to64_rest();
                    if scale > 76 {
                        lemma_pow2_strictly_increases(76, scale as nat);
                    }
                    let power = pow2(scale as nat) as int;
                    let whole = significand as int * power;
                    assert(whole >= 0x1_0000_0000_0000_0000_0000_0000_0000_0000) by (nonlinear_arith)
                        requires
                            whole == significand as int * power,
                            significand >= 0x10_0000_0000_0000,
                            power >= pow2(76),
                            pow2(76) * 0x10_0000_0000_0000
                                == 0x1_0000_0000_0000_0000_0000_0000_0000_0000,
                    ;
                    assert(whole / (size as int) > 0xffff_ffff_ffff_ffff) by (nonlinear_arith)
                        requires
                            whole >= 0x1_0000_0000_0000_0000_0000_0000_0000_0000,
                            0 < size <= 0xffff_ffff_ffff_ffff,
                    ;
                }
                return usize::MAX;
            }
            let power = power_of_two(scale as u32);
            proof {
                lemma_pow2_127();
                lemma_pow2_adds(75, 53);
                lemma2_to64_rest();
                if scale < 75 {
                    lemma_pow2_strictly_increases(scale as nat, 75);
                }
                assert(significand * power < 0x1_0000_0000_0000_0000_0000_0000_0000_0000) by (nonlinear_arith)
                    requires
                        0 <= significand < 0x20_0000_0000_0000,
                        0 < power <= pow2(75),
                        pow2(75) * 0x20_0000_0000_0000
                            == 0x1_0000_0000_0000_0000_0000_0000_0000_0000,
                ;
            }
            let whole = significand * power;
            let quotient = whole / size;
            let count = if whole % size == 0 {
                quotient
            } else {
                assert(quotient < whole) by (nonlinear_arith)
                    requires
                        quotient == whole / size,
                        whole % size != 0,
                        size > 0,
                        whole >= 0,
                ;
                quotient + 1
            };
            if count > usize::MAX as u128 {
                usize::MAX
            } else {
                count as usize
            }
        } else {
            if scale <= -53 {
                proof {
                    lemma2_to64_rest();
                    if scale < -53 {
                        lemma_pow2_strictly_increases(53, (-scale) as nat);
                    }
                    let power = pow2((-scale) as nat) as int;
                    let cover = size as int * power;
                    assert(cover > significand) by (nonlinear_arith)
                        requires
                            cover == size as int * power,
                            size >= 1,
                            power >= 0x20_0000_0000_0000,
                            significand < 0x20_0000_0000_0000,
                    ;
                    assert(significand as int / cover == 0 && significand as int % cover
                        == significand) by (nonlinear_arith)
                        requires
                            0 <= significand < cover,
                    ;
                }
                return 1;
            }
            let power = power_of_two((-scale) as u32);
            proof {
                lemma2_to64_rest();
                if scale > -52 {
                    lemma_pow2_strictly_increases((-scale) as nat, 52);
                }
                assert(0 < size * power <= 0xffff_ffff_ffff_ffff * 0x10_0000_0000_0000) by (nonlinear_arith)
                    requires
                        0 < size <= 0xffff_ffff_ffff_ffff,
                        0 < power <= 0x10_0000_0000_0000,
                ;
            }
            let cover = size * power;
            let quotient = significand / cover;
            let count = if significand % cover == 0 {
                quotient
            } else {
                quotient + 1
            };
            if count > usize::MAX as u128 {
                usize::MAX
            } else {
                count as usize
            }
        }
    }

    /// Multiplies the number by `other` and cuts the product down to a whole
    /// number.
    pub fn truncate_times(self, other: Binary64) -> (whole: usize)
        ensures
            whole == self.truncated_times(other),
    {
        let (negative, exponent, fraction) = self.fields();
        let (other_negative, other_exponent, other_fraction) = other.fields();
        if (exponent == 0x7ff && fraction != 0) || (other_exponent == 0x7ff && other_fraction
            != 0) {
            return 0;
        }
        let infinite = exponent == 0x7ff;
        let other_infinite = other_exponent == 0x7ff;
        let zero = exponent == 0 && fraction == 0;
        let other_zero = other_exponent == 0 && other_fraction == 0;
        if (infinite && other_zero) || (zero && other_infinite) {
            return 0;
        }
        if negative != other_negative {
            return 0;
        }
        if infinite || other_infinite {
            return usize::MAX;
        }
        let significand: u64 = if exponent == 0 {
            fraction
        } else {
            fraction + 0x10_0000_0000_0000
        };
        let other_significand: u64 = if other_exponent == 0 {
            other_fraction
        } else {
            other_fraction + 0x10_0000_0000_0000
        };
        let scale: i32 = if exponent == 0 {
            -1074
        } else {
            exponent as i32 - 1075
        };
        let other_scale: i32 = if other_exponent == 0 {
            -1074
        } else {
            other_exponent as i32 - 1075
        };
        assert(significand * other_significand < 0x400_0000_0000_0000_0000_0000_0000) by (nonlinear_arith)
            requires
                0 <= significand < 0x20_0000_0000_0000,
                0 <= other_significand < 0x20_0000_0000_0000,
        ;
        let digits: u128 = significand as u128 * other_significand as u128;
        let length = binary_digits(digits);
        let drop: u32 = if length > 53 {
            length - 53
        } else {
            0
        };
        let unit = power_of_two(drop);
        let quotient = digits / unit;
        let rest = digits % unit;
        proof {
            lemma_pow2_127();
            if drop < 127 {
                lemma_pow2_strictly_increases(drop as nat, 127);
            }
            assert(quotient <= digits) by (nonlinear_arith)
                requires
                    quotient == digits / unit,
                    unit >= 1,
                    digits >= 0,
            ;
        }
        let rounded = if 2 * rest > unit || (2 * rest == unit && quotient % 2 == 1) {
            quotient + 1
        } else {
            quotient
        };
        whole_number(rounded, scale + other_scale + drop as i32)
    }
}

/// The pieces that `ceiling_divided` counts cover the number, and one fewer
/// would not: for a finite number that is not negative and a size that is
/// not zero, the whole part of the number lies between the count less one
/// and the count, both times the size.
pub proof fn pieces_cover_the_whole_part(length: Binary64, size: usize)
    requires
        !length.is_negative(),
        !length.is_nan(),
        !length.is_infinite(),
        size > 0,
        length.ceiling_divided(size) < usize::MAX,
    ensures
        length.whole_part() <= length.ceiling_divided(size) * size,
        length.ceiling_divided(size) > 0 ==> (length.ceiling_divided(size) - 1) * size
            <= length.whole_part(),
        length.ceiling_divided(size) == 0 <==> length.is_zero(),
{
    let digits = length.significand() as int;
    let count = length.ceiling_divided(size) as int;
    let step = size as int;
    if length.is_zero() {
        lemma_pow2_pos(1074);
    } else if length.scale() >= 0 {
        let whole = digits * pow2(length.scale() as nat);
        lemma_pow2_pos(length.scale() as nat);
        assert(whole > 0) by (nonlinear_arith)
            requires
                whole == digits * pow2(length.scale() as nat),
                digits > 0,
                pow2(length.scale() as nat) > 0,
        ;
        lemma_ceiling_quotient_bounds(whole as nat, size as nat);
    } else {
        let power = pow2((-length.scale()) as nat) as int;
        lemma_pow2_pos((-length.scale()) as nat);
        let cover = step * power;
        assert(cover > 0) by (nonlinear_arith)
            requires
                cover == step * power,
                step > 0,
                power > 0,
        ;
        lemma_ceiling_quotient_bounds(digits as nat, cover as nat);
        let whole = digits / power;
        assert(whole <= count * step) by (nonlinear_arith)
            requires
                whole == digits / power,
                digits <= count * (step * power),
                power > 0,
                digits >= 0,
        ;
        assert(count > 0 ==> (count - 1) * step <= whole) by (nonlinear_arith)
            requires
                whole == digits / power,
                count > 0 ==> (count - 1) * (step * power) <= digits,
                power > 0,
                digits >= 0,
        ;
    }
}

/// The ceiling of a quotient is the least multiplier that reaches the
/// dividend.
proof fn lemma_ceiling_quotient_bounds(n: nat, d: nat)
    requires
        d > 0,
    ensures
        n <= ceiling_quotient(n, d) * d,
        ceiling_quotient(n, d) > 0 ==> (ceiling_quotient(n, d) - 1) * d <= n,
        n > 0 ==> ceiling_quotient(n, d) > 0,
        n > 0 ==> (ceiling_quotient(n, d) - 1) * d < n,
{
    let q = n as int / d as int;
    let r = n as int % d as int;
    assert(n == q * d + r && 0 <= r < d && q >= 0) by (nonlinear_arith)
        requires
            q == n as int / d as int,
            r == n as int % d as int,
            d > 0,
            n >= 0,
    ;
    let c = ceiling_quotient(n, d) as int;
    assert(n <= c * d && (c > 0 ==> (c - 1) * d <= n) && (n > 0 ==> c > 0 && (c - 1) * d < n)) by (nonlinear_arith)
        requires
            n == q * d + r,
            0 <= r < d,
            q >= 0,
            c == (if r == 0 {
                q
            } else {
                q + 1
            }),
    ;
}

/// A fraction of a number is never more than the number: the product of
/// any number by one between zero and one, cut down to a whole number, is at
/// most the number cut down. The rounding of the product does not carry it
/// past the number, which the format holds exactly.
pub proof fn fraction_stays_within_the_number(fraction: Binary64, number: Binary64)
    requires
        fraction.is_nan() || fraction.is_fraction(),
    ensures
        fraction.truncated_times(number) <= number.truncated(),
{
    if fraction.is_fraction() {
        lemma_fraction_digits(fraction);
        if number.biased_exponent() < 0x7ff && !number.is_negative() {
            lemma_product_below_the_number(fraction, number);
        }
    }
}

/// The digits of a fraction are at most the power of two that its scale
/// takes away.
proof fn lemma_fraction_digits(fraction: Binary64)
    requires
        fraction.is_fraction(),
    ensures
        fraction.biased_exponent() <= 1023,
        fraction.scale() <= -52,
        fraction.significand() <= pow2((-fraction.scale()) as nat),
{
    let bits = fraction.bits as nat;
    assert(bits / 0x10_0000_0000_0000 <= 1023);
    lemma2_to64_rest();
    if fraction.biased_exponent() == 1023 {
        assert(fraction.fraction() == 0);
    } else {
        lemma_pow2_pos((-fraction.scale()) as nat);
        if fraction.scale() < -53 {
            lemma_pow2_strictly_increases(53, (-fraction.scale()) as nat);
        }
    }
}

/// The whole part of the rounded product of a fraction and a finite number
/// is at most the whole part of the number.
proof fn lemma_product_below_the_number(fraction: Binary64, number: Binary64)
    requires
        fraction.is_fraction(),
        number.biased_exponent() < 0x7ff,
    ensures
        fraction.product_whole_part(number) <= number.whole_part(),
{
    lemma_fraction_digits(fraction);
    lemma2_to64_rest();
    let small = fraction.significand();
    let large = number.significand();
    let k = (-fraction.scale()) as nat;
    let power = pow2(k);
    let digits = small * large;
    let top = large * power;
    lemma_pow2_pos(k);
    assert(digits <= top) by (nonlinear_arith)
        requires
            digits == small * large,
            top == large * power,
            small <= power,
            large >= 0,
    ;
    lemma_pow2_adds(k, 53);
    assert(top < pow2(k + 53)) by (nonlinear_arith)
        requires
            top == large * power,
            large < 0x20_0000_0000_0000,
            power > 0,
            pow2(k + 53) == power * 0x20_0000_0000_0000,
    ;
    lemma_bit_length_bound(digits, k + 53);
    let drop: nat = if bit_length(digits) > 53 {
        (bit_length(digits) - 53) as nat
    } else {
        0
    };
    let kept = (k - drop) as nat;
    lemma_pow2_adds(kept, drop);
    let limit = large * pow2(kept);
    assert(top == limit * pow2(drop)) by (nonlinear_arith)
        requires
            top == large * power,
            limit == large * pow2(kept),
            power == pow2(kept) * pow2(drop),
    ;
    lemma_rounded_below_a_multiple(digits, drop, limit);
    let scale = fraction.scale() + number.scale() + drop;
    assert(scale == number.scale() - kept);
    lemma_whole_of_grows(rounded_quotient(digits, drop), limit, scale);
    lemma_whole_of_scaled(large, kept, number.scale());
}

/// A number at or below a multiple of the unit is not rounded past it.
proof fn lemma_rounded_below_a_multiple(n: nat, drop: nat, limit: nat)
    requires
        n <= limit * pow2(drop),
    ensures
        rounded_quotient(n, drop) <= limit,
{
    let unit = pow2(drop) as int;
    lemma_pow2_pos(drop);
    let quotient = n as int / unit;
    let rest = n as int % unit;
    assert(n == quotient * unit + rest && 0 <= rest < unit) by (nonlinear_arith)
        requires
            quotient == n as int / unit,
            rest == n as int % unit,
            unit > 0,
    ;
    assert(quotient < limit || (quotient == limit && rest == 0)) by (nonlinear_arith)
        requires
            n == quotient * unit + rest,
            0 <= rest < unit,
            n <= limit * unit,
            unit > 0,
    ;
}

/// More digits at one scale make no smaller whole number.
proof fn lemma_whole_of_grows(n: nat, m: nat, scale: int)
    requires
        n <= m,
    ensures
        whole_of(n, scale) <= whole_of(m, scale),
{
    if scale >= 0 {
        let power = pow2(scale as nat) as int;
        assert(n * power <= m * power) by (nonlinear_arith)
            requires
                n <= m,
                power >= 0,
        ;
    } else {
        let power = pow2((-scale) as nat) as int;
        lemma_pow2_pos((-scale) as nat);
        assert(n as int / power <= m as int / power) by (nonlinear_arith)
            requires
                0 <= n <= m,
                power > 0,
        ;
    }
}

/// Digits shifted up by as much as the scale is taken down stand for the
/// same number.
proof fn lemma_whole_of_scaled(n: nat, shift: nat, scale: int)
    ensures
        whole_of(n * pow2(shift), scale - shift) == whole_of(n, scale),
{
    let up = pow2(shift) as int;
    lemma_pow2_pos(shift);
    if scale - shift >= 0 {
        lemma_pow2_adds(shift, (scale - shift) as nat);
        let rest = pow2((scale - shift) as nat) as int;
        assert((n * up) * rest == n * (up * rest)) by (nonlinear_arith);
    } else if scale >= 0 {
        lemma_pow2_adds(scale as nat, (shift - scale) as nat);
        let low = pow2(scale as nat) as int;
        let down = pow2((shift - scale) as nat) as int;
        lemma_pow2_pos((shift - scale) as nat);
        assert(n * up == (n * low) * down) by (nonlinear_arith)
            requires
                up == low * down,
        ;
        assert(n * low >= 0) by (nonlinear_arith)
            requires
                n >= 0,
                low >= 0,
        ;
        lemma_div_by_multiple(n * low, down);
    } else {
        lemma_pow2_adds(shift, (-scale) as nat);
        let down = pow2((-scale) as nat) as int;
        lemma_pow2_pos((-scale) as nat);
        assert(n * up >= 0) by (nonlinear_arith)
            requires
                n >= 0,
                up >= 0,
        ;
        lemma_div_denominator(n * up, up, down);
        assert(n * up == n as int * up);
        lemma_div_by_multiple(n as int, up);
    }
}

} // verus!
