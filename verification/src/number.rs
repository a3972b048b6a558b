//! Doubles as bits: what can be computed on the encoding of a double with
//! integers alone, and is.

use vstd::arithmetic::mul::lemma_mul_strict_inequality;
use vstd::arithmetic::power2::{
    lemma2_to64, lemma2_to64_rest, lemma_pow2_adds, lemma_pow2_strictly_increases,
    lemma_pow2_unfold, pow2,
};
use vstd::prelude::*;

verus! {

/// A double-precision number, held as the 64 bits of its IEEE 754 encoding:
/// one sign bit, eleven exponent bits, fifty-two fraction bits.
///
/// This crate holds no floating-point code. What can be read off the bits
/// (sign, order, equality, the encoding of an integer) is computed here; sums,
/// products and the like, and the conversion from and to text, are asked of
/// the host.
#[derive(Debug, Clone, Copy, PartialEq, Eq, Structural)]
pub struct Number {
    pub bits: u64,
}

/// The weight of the sign bit.
pub const SIGN_BIT: u64 = 0x8000_0000_0000_0000;

/// The bits of positive infinity: every larger magnitude is not a number.
pub const INFINITY_BITS: u64 = 0x7ff0_0000_0000_0000;

/// The bits of `1.0`.
pub const ONE_BITS: u64 = 0x3ff0_0000_0000_0000;

/// The weight of the lowest exponent bit, 2 to the 52.
pub const EXPONENT_UNIT: u64 = 0x10_0000_0000_0000;

impl Number {
    /// Whether the sign bit is set.
    pub open spec fn is_negative(self) -> bool {
        self.bits >= SIGN_BIT
    }

    /// The bits without the sign bit.
    pub open spec fn magnitude(self) -> int {
        if self.bits >= SIGN_BIT {
            self.bits - SIGN_BIT
        } else {
            self.bits as int
        }
    }

    /// Whether the bits encode no number (NaN).
    pub open spec fn is_nan(self) -> bool {
        self.magnitude() > INFINITY_BITS
    }

    /// The place of a number in the order of all doubles: its magnitude,
    /// negated under a sign bit. Both zeros have place 0.
    pub open spec fn ordinal(self) -> int {
        if self.is_negative() {
            -self.magnitude()
        } else {
            self.magnitude()
        }
    }

    /// `self < other` as IEEE 754 has it: false if either is NaN.
    pub open spec fn lt(self, other: Number) -> bool {
        !self.is_nan() && !other.is_nan() && self.ordinal() < other.ordinal()
    }

    /// `self <= other` as IEEE 754 has it: false if either is NaN.
    pub open spec fn le(self, other: Number) -> bool {
        !self.is_nan() && !other.is_nan() && self.ordinal() <= other.ordinal()
    }

    /// `self == other` as IEEE 754 has it: false if either is NaN, true of the
    /// two zeros.
    pub open spec fn same(self, other: Number) -> bool {
        !self.is_nan() && !other.is_nan() && self.ordinal() == other.ordinal()
    }

    /// The number with the opposite sign.
    pub open spec fn negated(self) -> Number {
        if self.bits >= SIGN_BIT {
            Number { bits: (self.bits - SIGN_BIT) as u64 }
        } else {
            Number { bits: (self.bits + SIGN_BIT) as u64 }
        }
    }

    /// Positive zero.
    pub open spec fn spec_zero() -> Number {
        Number { bits: 0 }
    }

    /// One.
    pub open spec fn spec_one() -> Number {
        Number { bits: ONE_BITS }
    }

/// Positive zero.
    #[verifier::when_used_as_spec(spec_zero)]
    pub fn zero() -> (n: Number)
        ensures
            n == Number::spec_zero(),
    {
        Number { bits: 0 }
    }

/// One.
    #[verifier::when_used_as_spec(spec_one)]
    pub fn one() -> (n: Number)
        ensures
            n == Number::spec_one(),
    {
        Number { bits: ONE_BITS }
    }

    /// The number a boolean stands for: 1 for true, 0 for false.
    pub fn from_bool(b: bool) -> (n: Number)
        ensures
            n == if b {
                Number::spec_one()
            } else {
                Number::spec_zero()
            },
    {
        if b {
            Number::one()
        } else {
            Number::zero()
        }
    }

    fn ordinal_key(&self) -> (key: i128)
        ensures
            key == self.ordinal(),
    {
        if self.bits >= SIGN_BIT {
            -((self.bits - SIGN_BIT) as i128)
        } else {
            self.bits as i128
        }
    }

/// Whether the bits encode no number (NaN).
    pub fn not_a_number(&self) -> (nan: bool)
        ensures
            nan == self.is_nan(),
    {
        if self.bits >= SIGN_BIT {
            self.bits - SIGN_BIT > INFINITY_BITS
        } else {
            self.bits > INFINITY_BITS
        }
    }

/// Whether `self < other`; false if either is NaN.
    pub fn less_than(&self, other: &Number) -> (r: bool)
        ensures
            r == self.lt(*other),
    {
        !self.not_a_number() && !other.not_a_number() && self.ordinal_key() < other.ordinal_key()
    }

/// Whether `self <= other`; false if either is NaN.
    pub fn less_equal(&self, other: &Number) -> (r: bool)
        ensures
            r == self.le(*other),
    {
        !self.not_a_number() && !other.not_a_number() && self.ordinal_key() <= other.ordinal_key()
    }

/// Whether `self == other`; false if either is NaN, true of the two zeros.
    pub fn equals(&self, other: &Number) -> (r: bool)
        ensures
            r == self.same(*other),
    {
        !self.not_a_number() && !other.not_a_number() && self.ordinal_key() == other.ordinal_key()
    }

/// The number with the opposite sign. The sign of a NaN is flipped too.
    pub fn negate(&self) -> (n: Number)
        ensures
            n == self.negated(),
    {
        if self.bits >= SIGN_BIT {
            Number { bits: self.bits - SIGN_BIT }
        } else {
            Number { bits: self.bits + SIGN_BIT }
        }
    }
}

/// The position of the highest set bit of `n`, searched from `k` upwards: the
/// least exponent `e >= k` with `n < 2^(e + 1)`, at most 63.
pub open spec fn highest_bit(n: nat, k: nat) -> nat
    decreases 63 - k,
{
    if k >= 63 || n < pow2(k + 1) {
        k
    } else {
        highest_bit(n, k + 1)
    }
}

/// The 53-bit significand of the double nearest to `n`, whose highest set bit
/// is bit `k`: `n` scaled to 53 bits, rounded to the nearest integer, and to
/// the even one of two that are equally near. A result of `2^53` stands for a
/// carry into the exponent.
pub open spec fn significand(n: nat, k: nat) -> nat {
    if k <= 52 {
        n * pow2((52 - k) as nat)
    } else {
        let unit = pow2((k - 52) as nat);
        let quotient = n / unit;
        let rest = n % unit;
        if 2 * rest > unit || (2 * rest == unit && quotient % 2 == 1) {
            quotient + 1
        } else {
            quotient
        }
    }
}

/// The bits of the double nearest to the integer `n < 2^64`.
pub open spec fn integer_bits(n: nat) -> int {
    if n == 0 {
        0
    } else {
        let k = highest_bit(n, 0);
        (1023 + k) * pow2(52) + significand(n, k) - pow2(52)
    }
}

/// `2^e` for `e <= 63`.
fn power_of_two(e: u64) -> (p: u64)
    requires
        e <= 63,
    ensures
        p == pow2(e as nat),
{
    let mut p: u64 = 1;
    let mut i: u64 = 0;
    proof {
        lemma2_to64();
    }
    while i < e
        invariant
            i <= e <= 63,
            p == pow2(i as nat),
        decreases e - i,
    {
        proof {
            lemma_pow2_unfold((i + 1) as nat);
            lemma_pow2_strictly_increases(i as nat, 63);
            lemma2_to64_rest();
        }
        p = p * 2;
        i += 1;
    }
    p
}

impl Number {
    /// The double nearest to a count or a length.
    pub fn from_length(n: usize) -> (number: Number)
        ensures
            number.bits == integer_bits(n as nat),
    {
        if n == 0 {
            return Number { bits: 0 };
        }
        let n: u64 = n as u64;
        let mut k: u64 = 0;
        proof {
            lemma2_to64();
        }
        while k < 63 && n >= power_of_two(k + 1)
            invariant
                k <= 63,
                n >= 1,
                n >= pow2(k as nat),
                highest_bit(n as nat, 0) == highest_bit(n as nat, k as nat),
            decreases 63 - k,
        {
            k += 1;
        }
        proof {
            lemma2_to64();
            lemma2_to64_rest();
            lemma_pow2_unfold((k + 1) as nat);
            assert(n < 2 * pow2(k as nat));
        }
        let m: u64 = if k <= 52 {
            let scale = power_of_two(52 - k);
            proof {
                lemma_pow2_adds((k + 1) as nat, (52 - k) as nat);
                lemma_mul_strict_inequality(
                    n as int,
                    pow2((k + 1) as nat) as int,
                    pow2((52 - k) as nat) as int,
                );
                assert(n * scale < pow2(53));
                lemma_pow2_adds(k as nat, (52 - k) as nat);
                assert(pow2(k as nat) * scale <= n * scale) by (nonlinear_arith)
                    requires
                        pow2(k as nat) <= n,
                        scale >= 0,
                ;
            }
            n * scale
        } else {
            let unit = power_of_two(k - 52);
            let quotient = n / unit;
            let rest = n % unit;
            proof {
                lemma_pow2_strictly_increases((k - 52) as nat, 12);
                lemma_pow2_adds(52, (k - 52) as nat);
                // pow2(k) <= n < 2^64, so pow2(52) <= quotient < 2^53
                assert(quotient >= pow2(52)) by (nonlinear_arith)
                    requires
                        quotient == n / unit,
                        unit > 0,
                        n >= pow2(52) * unit,
                ;
                assert(quotient < 2 * pow2(52)) by (nonlinear_arith)
                    requires
                        quotient == n / unit,
                        unit > 0,
                        n < 2 * (pow2(52) * unit),
                ;
            }
            if rest > unit - rest || (rest == unit - rest && quotient % 2 == 1) {
                quotient + 1
            } else {
                quotient
            }
        };
        assert(m >= pow2(52));
        assert(m <= pow2(53));
        Number { bits: (1023 + k) * EXPONENT_UNIT + m - EXPONENT_UNIT }
    }
}

/// The integers 0 and 1 are encoded as the doubles `0.0` and `1.0`.
pub proof fn lemma_bits_of_zero_and_one()
    ensures
        integer_bits(0) == 0,
        integer_bits(1) == ONE_BITS,
{
    lemma2_to64();
    lemma2_to64_rest();
    assert(highest_bit(1, 0) == 0);
    assert(significand(1, 0) == pow2(52));
}

impl Number {
    /// The eleven exponent bits.
    pub open spec fn exponent(self) -> int {
        self.magnitude() / (EXPONENT_UNIT as int)
    }

    /// The fifty-two fraction bits.
    pub open spec fn fraction(self) -> int {
        self.magnitude() % (EXPONENT_UNIT as int)
    }

    /// The value of a finite number that is at least 1, times `2^52`: with
    /// exponent bits `e` and fraction bits `f` the number is
    /// `(2^52 + f) * 2^(e - 1075)`.
    pub open spec fn scaled(self) -> int {
        (EXPONENT_UNIT + self.fraction()) * pow2((self.exponent() - 1023) as nat)
    }
}

/// The search of [`highest_bit`] finds the exponent of the largest power of
/// two that is at most `n`.
pub proof fn lemma_highest_bit(n: nat, from: nat)
    requires
        from <= 63,
        pow2(from) <= n < 0x1_0000_0000_0000_0000,
    ensures
        from <= highest_bit(n, from) <= 63,
        pow2(highest_bit(n, from)) <= n < 2 * pow2(highest_bit(n, from)),
    decreases 63 - from,
{
    lemma2_to64_rest();
    lemma_pow2_unfold(from + 1);
    if from < 63 && n >= pow2(from + 1) {
        lemma_highest_bit(n, from + 1);
    }
}

/// [`integer_bits`] encodes the double nearest to `n`. With `k` the position
/// of the highest set bit of `n` and `m` the significand, the double is
/// `m * 2^(k - 52)`. It is `n` itself if `n` has at most 53 bits. Else it
/// differs from `n` by at most half the distance `2^(k - 52)` between the
/// doubles of that size, and where two doubles are equally near it is the one
/// with the even significand.
pub proof fn lemma_integer_bits_is_nearest(n: nat)
    requires
        1 <= n < 0x1_0000_0000_0000_0000,
    ensures
        ({
            let number = Number { bits: integer_bits(n) as u64 };
            let k = highest_bit(n, 0);
            let m = significand(n, k);
            &&& 0 <= integer_bits(n) < INFINITY_BITS
            &&& pow2(k) <= n < 2 * pow2(k)
            &&& number.scaled() == m * pow2(k)
            &&& k <= 52 ==> m * pow2(k) == n * pow2(52)
            &&& k > 52 ==> {
                let unit = pow2((k - 52) as nat);
                &&& 2 * (m * unit - n) <= unit
                &&& 2 * (n - m * unit) <= unit
                &&& (2 * (m * unit - n) == unit || 2 * (n - m * unit) == unit) ==> m % 2 == 0
            }
        }),
{
    lemma2_to64();
    lemma2_to64_rest();
    lemma_highest_bit(n, 0);
    let k = highest_bit(n, 0);
    let m = significand(n, k);
    let p52 = pow2(52);
    assert(p52 == 0x10_0000_0000_0000);
    if k <= 52 {
        let scale = pow2((52 - k) as nat);
        lemma_pow2_adds(k, (52 - k) as nat);
        lemma_pow2_adds((k + 1) as nat, (52 - k) as nat);
        lemma_pow2_unfold(k + 1);
        assert(m == n * scale);
        assert(p52 <= m < 2 * p52) by (nonlinear_arith)
            requires
                m == n * scale,
                pow2(k) <= n < 2 * pow2(k),
                pow2(k) * scale == p52,
                scale > 0,
        ;
        assert(m * pow2(k) == n * p52) by (nonlinear_arith)
            requires
                m == n * scale,
                pow2(k) * scale == p52,
        ;
    } else {
        let unit = pow2((k - 52) as nat);
        let q = n / unit;
        let r = n % unit;
        lemma_pow2_adds(52, (k - 52) as nat);
        lemma_pow2_strictly_increases(0, (k - 52) as nat);
        vstd::arithmetic::div_mod::lemma_fundamental_div_mod(n as int, unit as int);
        assert(n == unit * q + r);
        assert(0 <= r < unit);
        assert(p52 <= q < 2 * p52) by (nonlinear_arith)
            requires
                n == unit * q + r,
                0 <= r < unit,
                p52 * unit <= n < 2 * (p52 * unit),
        ;
        assert(m == q || m == q + 1);
        assert((m == q ==> m * unit == q * unit) && (m == q + 1 ==> m * unit == q * unit + unit))
            by (nonlinear_arith);
        assert(q * unit == unit * q) by (nonlinear_arith);
    }
    assert(p52 <= m <= 2 * p52);
    let bits = integer_bits(n);
    assert(bits == (1023 + k) * p52 + m - p52);
    let number = Number { bits: bits as u64 };
    assert(0 <= bits < INFINITY_BITS);
    assert(number.magnitude() == bits);
    if m < 2 * p52 {
        assert(number.exponent() == 1023 + k);
        assert(number.fraction() == m - p52);
    } else {
        assert(number.exponent() == 1024 + k);
        assert(number.fraction() == 0);
        lemma_pow2_unfold(k + 1);
        assert(p52 * pow2(k + 1) == (2 * p52) * pow2(k)) by (nonlinear_arith)
            requires
                pow2(k + 1) == 2 * pow2(k),
        ;
    }
}

} // verus!
