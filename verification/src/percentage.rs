//! Percentages: a score read on the scale from 0 to 100, and the rule by
//! which it is rounded to one decimal place for display.

use vstd::prelude::*;
use vstd::string::StringExecFns;
use vstd::arithmetic::power2::{
    lemma2_to64, lemma2_to64_rest, lemma_pow2_adds, lemma_pow2_pos, lemma_pow2_strictly_increases,
    pow2,
};
use vstd::arithmetic::div_mod::{
    lemma_basic_div, lemma_div_is_ordered, lemma_div_multiples_vanish_quotient,
    lemma_fundamental_div_mod, lemma_fundamental_div_mod_converse,
};
use vstd::bits::lemma_u64_shl_is_mul;
use crate::score::{
    exponent_field, fraction_field, lemma_magnitude_of_one_and_zero, lemma_magnitude_ordered,
    magnitude, unit, Score, HIDDEN_BIT, ONE_BITS,
};

verus! {

/// The smallest exponent field of a score that does not round to zero
/// tenths of a percent: the field of the numbers from 2^-11 on.
pub const FIRST_VISIBLE_FIELD: u64 = 1012;

/// Two to the power 63.
pub const HALF_SCALE: u128 = 0x8000_0000_0000_0000;

/// Two to the power 64.
pub const FULL_SCALE: u128 = 0x1_0000_0000_0000_0000;

/// A thousand times a score of the given magnitude, rounded to the nearest
/// integer, a half rounded up: the percentage in tenths of a percent.
pub open spec fn nearest_tenths(scaled: nat) -> nat {
    (2000 * scaled + unit()) / (2 * unit())
}

/// Whether the percentage of a score of the given magnitude lies strictly
/// between 99.9 and 100.
pub open spec fn in_reserved_band(scaled: nat) -> bool {
    999 * unit() < 1000 * scaled < 1000 * unit()
}

/// The percentage of a score of the given magnitude as it is displayed, in
/// tenths of a percent: 999 throughout the reserved band, the nearest tenth
/// elsewhere.
pub open spec fn display_tenths(scaled: nat) -> nat {
    if in_reserved_band(scaled) {
        999
    } else {
        nearest_tenths(scaled)
    }
}

/// No score but one is displayed as 100.0, and none as more.
pub proof fn lemma_full_marks_only_for_one(scaled: nat)
    requires
        scaled <= unit(),
    ensures
        display_tenths(scaled) <= 1000,
        display_tenths(scaled) == 1000 <==> scaled == unit(),
{
    let u: int = unit() as int;
    lemma_pow2_pos(1074);
    if scaled == u {
        lemma_fundamental_div_mod_converse(2001 * u, 2 * u, 1000, u);
    } else if !in_reserved_band(scaled) {
        let q: int = nearest_tenths(scaled) as int;
        let x: int = 2000 * scaled + u;
        assert(x < 2000 * u);
        lemma_fundamental_div_mod(x, 2 * u);
        assert(q < 1000) by (nonlinear_arith)
            requires
                x == (2 * u) * q + x % (2 * u),
                0 <= x % (2 * u),
                x < 2000 * u,
                u > 0,
        ;
    }
}

/// A higher score is never displayed as a lower percentage.
pub proof fn lemma_display_monotone(lower: nat, higher: nat)
    requires
        lower <= higher <= unit(),
    ensures
        display_tenths(lower) <= display_tenths(higher),
{
    let u: int = unit() as int;
    lemma_pow2_pos(1074);
    lemma_full_marks_only_for_one(higher);
    lemma_div_is_ordered(2000 * lower + u, 2000 * higher + u, 2 * u);
    if in_reserved_band(higher) && !in_reserved_band(lower) {
        lemma_div_is_ordered(2000 * lower + u, 1999 * u, 2 * u);
        lemma_fundamental_div_mod_converse(1999 * u, 2 * u, 999, u);
    }
    if in_reserved_band(lower) && !in_reserved_band(higher) {
        assert(higher == u) by (nonlinear_arith)
            requires
                999 * u < 1000 * lower,
                lower <= higher <= u,
                !(999 * u < 1000 * higher && 1000 * higher < 1000 * u),
        ;
    }
}

/// A score below 2^-11 is displayed as 0.0.
proof fn lemma_rounds_to_zero(bits: u64)
    requires
        bits < FIRST_VISIBLE_FIELD * HIDDEN_BIT,
    ensures
        display_tenths(magnitude(bits)) == 0,
{
    let edge: u64 = (FIRST_VISIBLE_FIELD * HIDDEN_BIT) as u64;
    let scaled: int = magnitude(bits) as int;
    let u: int = unit() as int;
    lemma_magnitude_ordered(bits, edge);
    assert(exponent_field(edge) == 1012);
    assert(fraction_field(edge) == 0);
    lemma2_to64();
    lemma2_to64_rest();
    lemma_pow2_adds(52, 1011);
    lemma_pow2_adds(11, 1063);
    let p: int = pow2(1063) as int;
    assert(magnitude(edge) == p);
    assert(u == 2048 * p);
    lemma_pow2_pos(1063);
    lemma_basic_div(2000 * scaled + u, 2 * u);
}

/// The rounding of a score of at least 2^-11 and less than one, read from
/// the score multiplied by 2^63.
proof fn lemma_tenths_from_weight(scaled: nat, weight: nat)
    requires
        scaled == weight * pow2(1011),
        weight < HALF_SCALE,
    ensures
        in_reserved_band(scaled) <==> 999 * HALF_SCALE < 1000 * weight,
        nearest_tenths(scaled) == (2000 * weight + HALF_SCALE) / (FULL_SCALE as int),
{
    let p: int = pow2(1011) as int;
    let u: int = unit() as int;
    let h: int = HALF_SCALE as int;
    let w: int = weight as int;
    lemma2_to64();
    lemma2_to64_rest();
    lemma_pow2_adds(63, 1011);
    lemma_pow2_pos(1011);
    assert(u == h * p);
    assert((999 * (h * p) < 1000 * (w * p)) <==> (999 * h < 1000 * w)) by (nonlinear_arith)
        requires
            p > 0,
    ;
    assert(1000 * (w * p) < 1000 * (h * p)) by (nonlinear_arith)
        requires
            p > 0,
            w < h,
    ;
    lemma_div_multiples_vanish_quotient(p, 2000 * w + h, 2 * h);
    assert(p * (2000 * w + h) == 2000 * (w * p) + h * p) by (nonlinear_arith);
    assert(p * (2 * h) == 2 * (h * p)) by (nonlinear_arith);
}

/// The weight of a score of at least 2^-11 and less than one: its
/// significand shifted left by its exponent field less 1012.
proof fn lemma_weight(bits: u64, weight: nat)
    requires
        FIRST_VISIBLE_FIELD * HIDDEN_BIT <= bits < ONE_BITS,
        weight == (HIDDEN_BIT + fraction_field(bits)) * pow2(
            (exponent_field(bits) - FIRST_VISIBLE_FIELD) as nat,
        ),
    ensures
        weight < HALF_SCALE,
        magnitude(bits) == weight * pow2(1011),
{
    let field = exponent_field(bits);
    let shift = (field - FIRST_VISIBLE_FIELD) as nat;
    let significand: int = HIDDEN_BIT + fraction_field(bits);
    assert(1012 <= field <= 1022);
    lemma2_to64();
    if shift < 10 {
        lemma_pow2_strictly_increases(shift, 10);
    }
    let small: int = pow2(shift) as int;
    assert(small <= 1024);
    lemma_pow2_pos(shift);
    assert(significand * small < HALF_SCALE) by (nonlinear_arith)
        requires
            0 < small <= 1024,
            0 < significand < 0x20_0000_0000_0000,
    ;
    lemma_pow2_adds(shift, 1011);
    let p: int = pow2(1011) as int;
    assert(pow2((field - 1) as nat) == small * p);
    assert(significand * (small * p) == (significand * small) * p) by (nonlinear_arith);
}

/// The character of a decimal digit.
pub open spec fn digit_char(digit: nat) -> char {
    if digit == 0 {
        '0'
    } else if digit == 1 {
        '1'
    } else if digit == 2 {
        '2'
    } else if digit == 3 {
        '3'
    } else if digit == 4 {
        '4'
    } else if digit == 5 {
        '5'
    } else if digit == 6 {
        '6'
    } else if digit == 7 {
        '7'
    } else if digit == 8 {
        '8'
    } else {
        '9'
    }
}

/// A natural number written in decimal, without leading zeros.
pub open spec fn decimal(n: nat) -> Seq<char>
    decreases n,
{
    if n < 10 {
        seq![digit_char(n)]
    } else {
        decimal(n / 10).push(digit_char(n % 10))
    }
}

/// A number of tenths written with one decimal place: 999 reads "99.9".
pub open spec fn tenths_text(tenths: nat) -> Seq<char> {
    decimal(tenths / 10).push('.').push(digit_char(tenths % 10))
}

fn digit_text(digit: u16) -> (text: &'static str)
    requires
        digit < 10,
    ensures
        text@ == seq![digit_char(digit as nat)],
{
    proof {
        reveal_strlit("0");
        reveal_strlit("1");
        reveal_strlit("2");
        reveal_strlit("3");
        reveal_strlit("4");
        reveal_strlit("5");
        reveal_strlit("6");
        reveal_strlit("7");
        reveal_strlit("8");
        reveal_strlit("9");
    }
    let text = if digit == 0 {
        "0"
    } else if digit == 1 {
        "1"
    } else if digit == 2 {
        "2"
    } else if digit == 3 {
        "3"
    } else if digit == 4 {
        "4"
    } else if digit == 5 {
        "5"
    } else if digit == 6 {
        "6"
    } else if digit == 7 {
        "7"
    } else if digit == 8 {
        "8"
    } else {
        "9"
    };
    assert(text@ =~= seq![digit_char(digit as nat)]);
    text
}

fn append_decimal(text: &mut String, n: u16)
    ensures
        final(text)@ == old(text)@ + decimal(n as nat),
    decreases n,
{
    if n >= 10 {
        append_decimal(text, n / 10);
    }
    text.append(digit_text(n % 10));
    assert(text@ =~= old(text)@ + decimal(n as nat));
}

/// Writes a number of tenths with one decimal place.
pub fn format_tenths(tenths: u16) -> (text: String)
    ensures
        text@ == tenths_text(tenths as nat),
{
    let mut text = String::new();
    append_decimal(&mut text, tenths / 10);
    proof {
        reveal_strlit(".");
    }
    text.append(".");
    text.append(digit_text(tenths % 10));
    assert(text@ =~= tenths_text(tenths as nat));
    text
}

/// A percentage: a hundred times the score that it holds.
#[derive(Clone, Copy, Debug)]
pub struct Percentage(pub Score);

impl From<Score> for Percentage {
    /// The percentage of a score.
    fn from(item: Score) -> (percent: Percentage) {
        Percentage(item)
    }
}

impl vstd::std_specs::convert::FromSpecImpl<Score> for Percentage {
    open spec fn obeys_from_spec() -> bool {
        true
    }

    open spec fn from_spec(item: Score) -> Percentage {
        Percentage(item)
    }
}

impl Percentage {
    /// The percentage multiplied by two to the power 1074.
    pub open spec fn scaled(self) -> nat {
        100 * self.0.scaled()
    }

    /// The percentage in tenths of a percent, rounded for display: a
    /// percentage strictly between 99.9 and 100 gives 999, so that 1000 is
    /// kept for the score one; any other is rounded to the nearest tenth, a
    /// half upwards.
    pub fn rounded(&self) -> (tenths: u16)
        ensures
            tenths == display_tenths(self.0.scaled()),
            tenths <= 1000,
            tenths == 1000 <==> self.0.scaled() == unit(),
    {
        let bits: u64 = self.0.bits();
        proof {
            lemma_magnitude_of_one_and_zero();
            lemma_magnitude_ordered(bits, ONE_BITS);
            lemma_full_marks_only_for_one(self.0.scaled());
        }
        if bits == ONE_BITS {
            return 1000;
        }
        let field: u64 = bits / HIDDEN_BIT;
        if field < FIRST_VISIBLE_FIELD {
            proof {
                lemma_rounds_to_zero(bits);
            }
            return 0;
        }
        let significand: u64 = HIDDEN_BIT + bits % HIDDEN_BIT;
        let shift: u64 = field - FIRST_VISIBLE_FIELD;
        proof {
            lemma_weight(bits, (significand * pow2(shift as nat)) as nat);
            lemma_u64_shl_is_mul(significand, shift);
        }
        let weight: u64 = significand << shift;
        proof {
            lemma_tenths_from_weight(self.0.scaled(), weight as nat);
        }
        let thousandfold: u128 = 1000 * (weight as u128);
        if thousandfold > 999 * HALF_SCALE {
            return 999;
        }
        let tenths: u128 = (2 * thousandfold + HALF_SCALE) / FULL_SCALE;
        tenths as u16
    }

    /// The rounded percentage as it is shown, with one decimal place.
    pub fn rounded_text(&self) -> (text: String)
        ensures
            text@ == tenths_text(display_tenths(self.0.scaled())),
    {
        format_tenths(self.rounded())
    }
}

} // verus!
