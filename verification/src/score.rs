//! Similarity scores: numbers between zero and one, held as the bit pattern of
//! an IEEE 754 double and read through an exact integer model.

use vstd::prelude::*;
use vstd::arithmetic::power2::{
    lemma2_to64, lemma2_to64_rest, lemma_pow2_adds, lemma_pow2_pos, lemma_pow2_strictly_increases,
    lemma_pow2_unfold, pow2,
};

verus! {

/// The bit pattern of the double 1.0.
pub const ONE_BITS: u64 = 0x3FF0_0000_0000_0000;

/// The bit pattern of the double -0.0.
pub const NEGATIVE_ZERO_BITS: u64 = 0x8000_0000_0000_0000;

/// Two to the power 52: the weight of the exponent field of a double, and the
/// hidden leading bit of a normal significand.
pub const HIDDEN_BIT: u64 = 0x10_0000_0000_0000;

/// The first pattern with the sign bit set.
pub const SIGN_BIT: u64 = 0x8000_0000_0000_0000;

/// The exponent field of a pattern whose sign bit is clear.
pub open spec fn exponent_field(bits: u64) -> nat {
    (bits / HIDDEN_BIT) as nat
}

/// The fraction field of a pattern.
pub open spec fn fraction_field(bits: u64) -> nat {
    (bits % HIDDEN_BIT) as nat
}

/// The number that a pattern with a clear sign bit encodes, multiplied by
/// two to the power 1074, which makes it a natural number: a subnormal
/// pattern stands for its fraction field, a normal one for its significand
/// shifted left by its exponent field less one.
pub open spec fn magnitude(bits: u64) -> nat {
    if exponent_field(bits) == 0 {
        fraction_field(bits)
    } else {
        ((HIDDEN_BIT + fraction_field(bits)) * pow2((exponent_field(bits) - 1) as nat)) as nat
    }
}

/// The magnitude of the number one.
pub open spec fn unit() -> nat {
    pow2(1074)
}

proof fn lemma_magnitude_bounds(bits: u64)
    requires
        bits < SIGN_BIT,
    ensures
        magnitude(bits) < HIDDEN_BIT * pow2(exponent_field(bits)),
        exponent_field(bits) > 0 ==> magnitude(bits) >= HIDDEN_BIT * pow2(
            (exponent_field(bits) - 1) as nat,
        ),
{
    let e = exponent_field(bits);
    let f = fraction_field(bits);
    if e == 0 {
        lemma2_to64();
    } else {
        let p = pow2((e - 1) as nat);
        lemma_pow2_pos((e - 1) as nat);
        lemma_pow2_unfold(e);
        assert((HIDDEN_BIT + f) * p < HIDDEN_BIT * (2 * p)) by (nonlinear_arith)
            requires
                f < HIDDEN_BIT,
                p > 0,
        ;
        assert((HIDDEN_BIT + f) * p >= HIDDEN_BIT * p) by (nonlinear_arith)
            requires
                f >= 0,
                p > 0,
        ;
    }
}

proof fn lemma_magnitude_increases(a: u64, b: u64)
    requires
        a < b < SIGN_BIT,
    ensures
        magnitude(a) < magnitude(b),
{
    let ea = exponent_field(a);
    let eb = exponent_field(b);
    let fa = fraction_field(a);
    let fb = fraction_field(b);
    if ea == eb {
        if ea > 0 {
            let p = pow2((ea - 1) as nat);
            lemma_pow2_pos((ea - 1) as nat);
            assert((HIDDEN_BIT + fa) * p < (HIDDEN_BIT + fb) * p) by (nonlinear_arith)
                requires
                    fa < fb,
                    p > 0,
            ;
        }
    } else {
        assert(ea < eb);
        lemma_magnitude_bounds(a);
        lemma_magnitude_bounds(b);
        if ea < eb - 1 {
            lemma_pow2_strictly_increases(ea, (eb - 1) as nat);
        }
        assert(HIDDEN_BIT * pow2(ea) <= HIDDEN_BIT * pow2((eb - 1) as nat)) by (nonlinear_arith)
            requires
                pow2(ea) <= pow2((eb - 1) as nat),
        ;
    }
}

/// A pattern with a clear sign bit is the smaller of two exactly when the
/// number it encodes is.
pub proof fn lemma_magnitude_ordered(a: u64, b: u64)
    requires
        a < SIGN_BIT,
        b < SIGN_BIT,
    ensures
        a < b <==> magnitude(a) < magnitude(b),
        a == b <==> magnitude(a) == magnitude(b),
{
    if a < b {
        lemma_magnitude_increases(a, b);
    }
    if b < a {
        lemma_magnitude_increases(b, a);
    }
}

/// The pattern of the double 1.0 encodes the number one, and that of 0.0
/// encodes zero.
pub proof fn lemma_magnitude_of_one_and_zero()
    ensures
        magnitude(ONE_BITS) == unit(),
        magnitude(0) == 0,
{
    lemma2_to64();
    lemma2_to64_rest();
    lemma_pow2_adds(52, 1022);
    assert(exponent_field(ONE_BITS) == 1023);
    assert(fraction_field(ONE_BITS) == 0);
}

/// A pattern up to that of 1.0 encodes a number of at most one.
pub proof fn lemma_magnitude_bounded(bits: u64)
    requires
        bits <= ONE_BITS,
    ensures
        magnitude(bits) <= unit(),
{
    lemma_magnitude_of_one_and_zero();
    lemma_magnitude_ordered(bits, ONE_BITS);
}

/// Whether a pattern encodes a number from zero to one, both included.
/// Negative zero is such a number; no pattern of a NaN or of an infinity is.
pub open spec fn encodes_score(bits: u64) -> bool {
    bits <= ONE_BITS || bits == NEGATIVE_ZERO_BITS
}

/// The magnitude of the number that a pattern accepted by [`encodes_score`]
/// encodes.
pub open spec fn score_magnitude(bits: u64) -> nat {
    if bits == NEGATIVE_ZERO_BITS {
        0
    } else {
        magnitude(bits)
    }
}

/// The pattern that follows from doubling the number behind `bits`.
pub open spec fn doubled(bits: u64) -> u64 {
    if bits < HIDDEN_BIT {
        (2 * bits) as u64
    } else {
        (bits + HIDDEN_BIT) as u64
    }
}

/// Doubling a number of at most one is exact: a subnormal pattern is shifted,
/// a normal one has its exponent field raised by one.
pub proof fn lemma_doubled(bits: u64)
    requires
        bits <= ONE_BITS,
    ensures
        doubled(bits) < SIGN_BIT,
        magnitude(doubled(bits)) == 2 * magnitude(bits),
{
    let d = doubled(bits);
    if bits < HIDDEN_BIT {
        assert(exponent_field(bits) == 0);
        assert(magnitude(bits) == bits);
        if 2 * bits >= HIDDEN_BIT {
            assert(exponent_field(d) == 1);
            assert(fraction_field(d) == 2 * bits - HIDDEN_BIT);
            lemma2_to64();
            assert(magnitude(d) == (HIDDEN_BIT + fraction_field(d)) * pow2(0));
        } else {
            assert(exponent_field(d) == 0);
            assert(magnitude(d) == 2 * bits);
        }
    } else {
        let e = exponent_field(bits);
        assert(e >= 1);
        assert(exponent_field(d) == e + 1);
        assert(fraction_field(d) == fraction_field(bits));
        lemma_pow2_unfold(e);
        let p = pow2((e - 1) as nat);
        let m = HIDDEN_BIT + fraction_field(bits);
        assert(magnitude(bits) == m * p);
        assert(magnitude(d) == m * pow2(e));
        assert(m * (2 * p) == 2 * (m * p)) by (nonlinear_arith);
    }
}

/// The bit pattern of the single-precision number 1.0.
pub const SINGLE_ONE_BITS: u32 = 0x3F80_0000;

/// The bit pattern of the single-precision number -0.0.
pub const SINGLE_NEGATIVE_ZERO_BITS: u32 = 0x8000_0000;

/// Two to the power 23: the weight of the exponent field of a
/// single-precision number, and the hidden bit of its normal significand.
pub const SINGLE_HIDDEN_BIT: u32 = 0x80_0000;

/// Two to the power 29: a single-precision fraction is this much coarser
/// than a double's.
pub const FRACTION_WIDENING: u64 = 0x2000_0000;

/// The number that a single-precision pattern with a clear sign bit encodes,
/// multiplied by two to the power 149.
pub open spec fn single_magnitude(bits: u32) -> nat {
    let exponent = bits / SINGLE_HIDDEN_BIT;
    let fraction = bits % SINGLE_HIDDEN_BIT;
    if exponent == 0 {
        fraction as nat
    } else {
        ((SINGLE_HIDDEN_BIT + fraction) * pow2((exponent - 1) as nat)) as nat
    }
}

/// Whether a single-precision pattern encodes a number from zero to one.
pub open spec fn single_encodes_score(bits: u32) -> bool {
    bits <= SINGLE_ONE_BITS || bits == SINGLE_NEGATIVE_ZERO_BITS
}

/// The magnitude, on the scale of doubles, of the number that a
/// single-precision pattern accepted by [`single_encodes_score`] encodes.
pub open spec fn single_score_magnitude(bits: u32) -> nat {
    if bits == SINGLE_NEGATIVE_ZERO_BITS {
        0
    } else {
        single_magnitude(bits) * pow2(925)
    }
}

proof fn lemma_widen_normal(exponent: nat, fraction: nat, wide: u64)
    requires
        1 <= exponent <= 127,
        fraction < SINGLE_HIDDEN_BIT,
        wide == (exponent + 896) * HIDDEN_BIT + fraction * FRACTION_WIDENING,
    ensures
        magnitude(wide) == (SINGLE_HIDDEN_BIT + fraction) * pow2((exponent - 1) as nat) * pow2(925),
{
    lemma2_to64();
    assert(fraction * FRACTION_WIDENING < HIDDEN_BIT);
    assert(exponent_field(wide) == exponent + 896);
    assert(fraction_field(wide) == fraction * FRACTION_WIDENING);
    let low = pow2((exponent - 1) as nat);
    lemma_pow2_adds((exponent - 1) as nat, 896);
    lemma_pow2_adds(29, 896);
    assert(pow2((exponent + 895) as nat) == low * pow2(896));
    assert(pow2(925) == FRACTION_WIDENING * pow2(896));
    assert(magnitude(wide) == (HIDDEN_BIT + fraction * FRACTION_WIDENING) * pow2(
        (exponent + 895) as nat,
    ));
    let high = pow2(896);
    assert((HIDDEN_BIT + fraction * FRACTION_WIDENING) * (low * high) == (SINGLE_HIDDEN_BIT
        + fraction) * low * (FRACTION_WIDENING * high)) by (nonlinear_arith)
        requires
            HIDDEN_BIT == SINGLE_HIDDEN_BIT * FRACTION_WIDENING,
    ;
}

proof fn lemma_widen_subnormal(field: nat, significand: nat, fraction: nat, wide: u64)
    requires
        1 <= field <= 897,
        SINGLE_HIDDEN_BIT <= significand < 2 * SINGLE_HIDDEN_BIT,
        significand * pow2((field - 1) as nat) == fraction * pow2(896),
        wide == field * HIDDEN_BIT + (significand - SINGLE_HIDDEN_BIT) * FRACTION_WIDENING,
    ensures
        wide <= ONE_BITS,
        magnitude(wide) == fraction * pow2(925),
{
    let rest = (significand - SINGLE_HIDDEN_BIT) as nat;
    assert(rest * FRACTION_WIDENING < HIDDEN_BIT);
    assert(exponent_field(wide) == field);
    assert(fraction_field(wide) == rest * FRACTION_WIDENING);
    lemma2_to64();
    lemma_pow2_adds(29, 896);
    let low = pow2((field - 1) as nat);
    let high = pow2(896);
    assert(magnitude(wide) == (HIDDEN_BIT + rest * FRACTION_WIDENING) * low);
    assert((HIDDEN_BIT + rest * FRACTION_WIDENING) * low == fraction * (FRACTION_WIDENING * high))
        by (nonlinear_arith)
        requires
            HIDDEN_BIT == SINGLE_HIDDEN_BIT * FRACTION_WIDENING,
            rest == significand - SINGLE_HIDDEN_BIT,
            significand * low == fraction * high,
    ;
}

/// A similarity score: a number from zero to one, kept as the bit pattern of
/// the double that holds it.
#[derive(Clone, Copy, Debug)]
pub struct Score {
    bits: u64,
}

impl Score {
    /// Every score holds a pattern from that of 0.0 to that of 1.0.
    #[verifier::type_invariant]
    pub open spec fn wf(self) -> bool {
        self.pattern() <= ONE_BITS
    }

    /// The bit pattern of the double that holds the score.
    pub closed spec fn pattern(self) -> u64 {
        self.bits
    }

    /// The score multiplied by two to the power 1074.
    pub open spec fn scaled(self) -> nat {
        magnitude(self.pattern())
    }

    /// Reads a score from the bit pattern of a double, and refuses a pattern
    /// that encodes no number from zero to one.
    pub fn from_bits(bits: u64) -> (r: Option<Score>)
        ensures
            r is Some <==> encodes_score(bits),
            r matches Some(s) ==> s.wf() && s.scaled() == score_magnitude(bits) && s.pattern() == (
            if bits == NEGATIVE_ZERO_BITS {
                0
            } else {
                bits
            }),
    {
        if bits == NEGATIVE_ZERO_BITS {
            Some(Score { bits: 0 })
        } else if bits <= ONE_BITS {
            Some(Score { bits })
        } else {
            None
        }
    }

    /// Reads a score from the bit pattern of a single-precision number, and
    /// refuses a pattern that encodes no number from zero to one. The score
    /// holds the same number, widened without loss.
    pub fn from_single_bits(bits: u32) -> (r: Option<Score>)
        ensures
            r is Some <==> single_encodes_score(bits),
            r matches Some(s) ==> s.wf() && s.scaled() == single_score_magnitude(bits),
    {
        if bits == SINGLE_NEGATIVE_ZERO_BITS || bits == 0 {
            assert(single_magnitude(0) * pow2(925) == 0);
            return Some(Score { bits: 0 });
        }
        if bits > SINGLE_ONE_BITS {
            return None;
        }
        let exponent: u64 = (bits / SINGLE_HIDDEN_BIT) as u64;
        let fraction: u64 = (bits % SINGLE_HIDDEN_BIT) as u64;
        if exponent > 0 {
            let wide: u64 = (exponent + 896) * HIDDEN_BIT + fraction * FRACTION_WIDENING;
            proof {
                lemma_widen_normal(exponent as nat, fraction as nat, wide);
            }
            Some(Score { bits: wide })
        } else {
            let mut significand: u64 = fraction;
            let mut field: u64 = 897;
            proof {
                lemma2_to64();
            }
            while significand < 0x80_0000
                invariant
                    0 < significand < 0x100_0000,
                    1 <= field <= 897,
                    significand >= pow2((897 - field) as nat),
                    significand * pow2((field - 1) as nat) == fraction * pow2(896),
                decreases field,
            {
                proof {
                    lemma2_to64();
                    if 897 - field > 23 {
                        lemma_pow2_strictly_increases(23, (897 - field) as nat);
                    }
                    assert(field > 874);
                    lemma_pow2_unfold((field - 1) as nat);
                    lemma_pow2_unfold((898 - field) as nat);
                    let below = pow2((field - 2) as nat);
                    assert(significand * (2 * below) == (2 * significand) * below)
                        by (nonlinear_arith);
                }
                significand = 2 * significand;
                field = field - 1;
            }
            let wide: u64 = field * HIDDEN_BIT + (significand - 0x80_0000) * FRACTION_WIDENING;
            proof {
                lemma_widen_subnormal(field as nat, significand as nat, fraction as nat, wide);
            }
            Some(Score { bits: wide })
        }
    }

    /// The score zero.
    pub fn zero() -> (s: Score)
        ensures
            s.wf(),
            s.pattern() == 0,
            s.scaled() == 0,
    {
        Score { bits: 0 }
    }

    /// The score one.
    pub fn one() -> (s: Score)
        ensures
            s.wf(),
            s.pattern() == ONE_BITS,
            s.scaled() == unit(),
    {
        proof {
            lemma_magnitude_of_one_and_zero();
        }
        Score { bits: ONE_BITS }
    }

    /// The bit pattern of the double that holds the score.
    pub fn bits(&self) -> (bits: u64)
        ensures
            bits == self.pattern(),
            bits <= ONE_BITS,
    {
        proof {
            use_type_invariant(self);
        }
        self.bits
    }

    /// Whether the score is exactly one.
    pub fn is_one(&self) -> (r: bool)
        ensures
            r == (self.scaled() == unit()),
            r == (self.pattern() == ONE_BITS),
    {
        proof {
            use_type_invariant(self);
            lemma_magnitude_of_one_and_zero();
            lemma_magnitude_ordered(self.bits, ONE_BITS);
        }
        self.bits == ONE_BITS
    }

    /// Whether the score is strictly greater than `other`.
    pub fn exceeds(&self, other: &Score) -> (r: bool)
        ensures
            r == (self.scaled() > other.scaled()),
    {
        proof {
            use_type_invariant(self);
            use_type_invariant(other);
            lemma_magnitude_ordered(self.bits, other.bits);
        }
        self.bits > other.bits
    }

    /// Whether the score is strictly less than half of `other`, decided
    /// exactly: the score is doubled, which loses nothing, and compared.
    pub fn below_half_of(&self, other: &Score) -> (r: bool)
        ensures
            r == (2 * self.scaled() < other.scaled()),
    {
        proof {
            use_type_invariant(self);
            use_type_invariant(other);
            lemma_doubled(self.bits);
            lemma_magnitude_ordered(doubled(self.bits), other.bits);
        }
        let twice: u64 = if self.bits < HIDDEN_BIT {
            2 * self.bits
        } else {
            self.bits + HIDDEN_BIT
        };
        twice < other.bits
    }
}

} // verus!
