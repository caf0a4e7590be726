//! Coordinates in font units.
//!
//! A coordinate is held in steps of 1/65536 of a font unit, the resolution of
//! the fixed-point numbers in font tables, with its sign apart from its
//! magnitude, so that a zero keeps the sign it was given.

use vstd::arithmetic::div_mod::{lemma_basic_div, lemma_fundamental_div_mod, lemma_mod_bound};
use vstd::arithmetic::power2::{
    lemma2_to64, lemma2_to64_rest, lemma_pow2_pos, lemma_pow2_strictly_increases,
    lemma_pow2_unfold, pow2,
};
use vstd::bits::{lemma_u64_pow2_no_overflow, lemma_u64_shl_is_mul};
use vstd::prelude::*;
use crate::decimal::{
    digit_char, digit_value, digits_value, is_digits, lemma_digits_value_joined,
    lemma_natural_text_spells, natural_text, pow10, push_digit, push_minus, push_natural,
};

verus! {

/// The number of steps in one font unit.
pub const STEPS_PER_UNIT: u64 = 65536;

/// The most decimal places that a fraction of a font unit is written with:
/// 65536 divides the sixteenth power of ten.
pub const FRACTION_PLACES: u32 = 16;

/// One coordinate of an outline point.
#[derive(Clone, Copy, Debug, PartialEq, Eq)]
pub struct Scalar {
    /// Whether the coordinate carries a minus sign.
    pub negative: bool,
    /// The distance from zero, in steps.
    pub magnitude: u64,
}

impl Scalar {
    /// The signed number of steps that the coordinate stands for.
    pub open spec fn steps(self) -> int {
        if self.negative {
            -(self.magnitude as int)
        } else {
            self.magnitude as int
        }
    }

    /// The coordinate of a whole number of font units.
    pub fn from_units(units: i32) -> (scalar: Scalar)
        ensures
            scalar.steps() == units * 65536,
            scalar.negative == (units < 0),
    {
        let wide: i64 = units as i64;
        if wide < 0 {
            Scalar { negative: true, magnitude: ((-wide) as u64) * STEPS_PER_UNIT }
        } else {
            Scalar { negative: false, magnitude: (wide as u64) * STEPS_PER_UNIT }
        }
    }

    /// The coordinate with the given sign, whole units and 65536ths of a unit.
    pub fn from_parts(negative: bool, whole: u32, fraction: u16) -> (scalar: Scalar)
        ensures
            scalar.negative == negative,
            scalar.magnitude == whole * 65536 + fraction,
    {
        Scalar { negative, magnitude: (whole as u64) * STEPS_PER_UNIT + (fraction as u64) }
    }

    /// The coordinate nearest to the number that `bits` encode: the sign that
    /// they carry, and the magnitude `magnitude_of_bits`.
    pub fn from_bits(bits: u32) -> (scalar: Scalar)
        ensures
            scalar.negative == (bits >= 0x8000_0000),
            scalar.magnitude == magnitude_of_bits(bits),
    {
        let negative = bits >= 0x8000_0000;
        let exponent: u64 = ((bits / 0x80_0000) % 256) as u64;
        let mantissa: u64 = 0x80_0000 + (bits % 0x80_0000) as u64;
        let magnitude = if exponent == 255 {
            if mantissa == 0x80_0000 {
                u64::MAX
            } else {
                0
            }
        } else if exponent < 109 {
            proof {
                if exponent > 0 {
                    lemma2_to64();
                    if exponent < 108 {
                        lemma_pow2_strictly_increases(25, (133 - exponent) as nat);
                    }
                    lemma_pow2_unfold((134 - exponent) as nat);
                    lemma_basic_div(
                        mantissa + pow2((133 - exponent) as nat),
                        pow2((134 - exponent) as nat) as int,
                    );
                }
            }
            0
        } else if exponent < 134 {
            let half = power_of_two(133 - exponent);
            proof {
                lemma2_to64();
                if exponent > 109 {
                    lemma_pow2_strictly_increases((133 - exponent) as nat, 24);
                }
                lemma_pow2_unfold((134 - exponent) as nat);
            }
            (mantissa + half) / (2 * half)
        } else if exponent <= 174 {
            let scale = power_of_two(exponent - 134);
            proof {
                lemma2_to64();
                lemma2_to64_rest();
                if exponent < 174 {
                    lemma_pow2_strictly_increases((exponent - 134) as nat, 40);
                }
                assert(mantissa * scale <= 0xFF_FFFF * 0x100_0000_0000) by (nonlinear_arith)
                    requires
                        mantissa <= 0xFF_FFFF,
                        scale <= 0x100_0000_0000,
                ;
            }
            mantissa * scale
        } else {
            proof {
                lemma2_to64();
                lemma2_to64_rest();
                if exponent > 175 {
                    lemma_pow2_strictly_increases(41, (exponent - 134) as nat);
                }
                let scale = pow2((exponent - 134) as nat);
                assert(mantissa * scale >= 0x80_0000 * 0x200_0000_0000) by (nonlinear_arith)
                    requires
                        mantissa >= 0x80_0000,
                        scale >= 0x200_0000_0000,
                ;
            }
            u64::MAX
        };
        Scalar { negative, magnitude }
    }

    /// The same distance from zero on the other side of it.
    pub fn flipped(self) -> (scalar: Scalar)
        ensures
            scalar.negative == !self.negative,
            scalar.magnitude == self.magnitude,
    {
        Scalar { negative: !self.negative, magnitude: self.magnitude }
    }
}

/// The magnitude, in steps, of the single-precision number that `bits` encode
/// in the binary interchange format: a sign bit, eight bits of exponent, and
/// the 23 bits of the mantissa that follow its leading one. The number is the
/// mantissa times two to the power of the exponent less 150, which is so many
/// steps times two to the power of the exponent less 134. It is rounded to the
/// nearest step, a half step away from zero, and what lies beyond the farthest
/// coordinate becomes the farthest. A number with the exponent 0 is less than
/// half a step. With the exponent 255 the bits encode an infinity, which
/// becomes the farthest coordinate, or no number at all, which becomes zero.
pub open spec fn magnitude_of_bits(bits: u32) -> nat {
    let exponent = (bits as nat / 0x80_0000) % 256;
    let mantissa = 0x80_0000 + bits as nat % 0x80_0000;
    if exponent == 255 {
        if mantissa == 0x80_0000 {
            u64::MAX as nat
        } else {
            0
        }
    } else if exponent == 0 {
        0
    } else if exponent < 134 {
        (mantissa + pow2((133 - exponent) as nat)) / pow2((134 - exponent) as nat)
    } else if mantissa * pow2((exponent - 134) as nat) > u64::MAX {
        u64::MAX as nat
    } else {
        mantissa * pow2((exponent - 134) as nat)
    }
}

/// A number with an exponent between 0 and 134, which is a number below 128
/// font units, is decoded to the nearest step: the steps are off the number by
/// half a step at most, and by nothing where the number is a whole number of
/// steps. From 128 on every number is a whole number of steps.
pub proof fn lemma_bits_are_rounded_to_nearest(bits: u32)
    requires
        0 < (bits as nat / 0x80_0000) % 256 < 134,
    ensures
        ({
            let exponent = (bits as nat / 0x80_0000) % 256;
            let mantissa = 0x80_0000 + bits as nat % 0x80_0000;
            let step = pow2((134 - exponent) as nat);
            let steps = magnitude_of_bits(bits);
            &&& 2 * (steps * step - mantissa) <= step
            &&& 2 * (mantissa - steps * step) < step
            &&& mantissa % step == 0 ==> steps * step == mantissa
        }),
{
    let exponent = (bits as nat / 0x80_0000) % 256;
    let mantissa = (0x80_0000 + bits as nat % 0x80_0000) as int;
    let half = pow2((133 - exponent) as nat) as int;
    let step = pow2((134 - exponent) as nat) as int;
    let steps = magnitude_of_bits(bits) as int;
    lemma_pow2_pos((133 - exponent) as nat);
    lemma_pow2_unfold((134 - exponent) as nat);
    lemma_fundamental_div_mod(mantissa + half, step);
    lemma_mod_bound(mantissa + half, step);
    assert(step * steps == steps * step) by (nonlinear_arith);
    if mantissa % step == 0 {
        lemma_fundamental_div_mod(mantissa, step);
        let whole = mantissa / step;
        assert((steps - whole) * step == steps * step - step * whole) by (nonlinear_arith);
        assert(steps == whole) by (nonlinear_arith)
            requires
                -step < (steps - whole) * step < step,
                step > 0,
        ;
    }
}

/// Two to the power of `exponent`.
fn power_of_two(exponent: u64) -> (power: u64)
    requires
        exponent < 64,
    ensures
        power == pow2(exponent as nat),
{
    proof {
        lemma_u64_pow2_no_overflow(exponent as nat);
        lemma_u64_shl_is_mul(1, exponent);
    }
    1u64 << exponent
}

/// The decimal digits of `steps`/65536 behind the point, at most `places` of them:
/// each digit is the whole part of ten times what is left.
pub open spec fn fraction_digits(steps: nat, places: nat) -> Seq<char>
    decreases places,
{
    if places == 0 || steps == 0 {
        Seq::empty()
    } else {
        seq![digit_char((steps * 10 / 65536) as int)] + fraction_digits(
            steps * 10 % 65536,
            (places - 1) as nat,
        )
    }
}

/// What follows the whole part of a number: nothing where the fraction is zero,
/// else a point and the fraction's digits.
pub open spec fn fraction_text(steps: nat) -> Seq<char> {
    if steps == 0 {
        Seq::empty()
    } else {
        seq!['.'] + fraction_digits(steps, 16)
    }
}

/// The decimal text of a number of `magnitude` steps: a minus sign if it is
/// `negative`, the whole units, and the fraction if there is one.
pub open spec fn fixed_text(negative: bool, magnitude: nat) -> Seq<char> {
    (if negative {
        seq!['-']
    } else {
        Seq::empty()
    }) + natural_text(magnitude / 65536) + fraction_text(magnitude % 65536)
}

/// What is left of `steps`/65536 behind the digits of `fraction_digits`.
spec fn fraction_left(steps: nat, places: nat) -> nat
    decreases places,
{
    if places == 0 || steps == 0 {
        steps
    } else {
        fraction_left(steps * 10 % 65536, (places - 1) as nat)
    }
}

/// The digits of a fraction and what is left behind them make up the fraction.
proof fn lemma_fraction_digits(steps: nat, places: nat)
    requires
        steps < 65536,
    ensures
        fraction_digits(steps, places).len() <= places,
        is_digits(fraction_digits(steps, places)),
        fraction_left(steps, places) < 65536,
        fraction_left(steps, places) != 0 ==> fraction_digits(steps, places).len() == places,
        steps * pow10(fraction_digits(steps, places).len()) == digits_value(
            fraction_digits(steps, places),
        ) * 65536 + fraction_left(steps, places),
        steps > 0 && fraction_left(steps, places) == 0 ==> fraction_digits(steps, places).len() > 0
            && fraction_digits(steps, places).last() != '0',
    decreases places,
{
    if places == 0 || steps == 0 {
        assert(pow10(0) == 1);
        assert(steps * 1 == steps);
    } else {
        let digit = steps * 10 / 65536;
        let rest = steps * 10 % 65536;
        let behind = fraction_digits(rest, (places - 1) as nat);
        let digits = fraction_digits(steps, places);
        let first = seq![digit_char(digit as int)];
        lemma_fraction_digits(rest, (places - 1) as nat);
        assert(digits == first + behind);
        assert(first.drop_last().len() == 0);
        assert(digits_value(first.drop_last()) == 0);
        assert(digits_value(first) == digit);
        lemma_digits_value_joined(first, behind);
        assert forall|i: int| 0 <= i < digits.len() implies 0 <= digit_value(#[trigger] digits[i])
            < 10 by {
            if i > 0 {
                assert(digits[i] == behind[i - 1]);
            }
        }
        let power = pow10(behind.len()) as int;
        let raised = pow10(digits.len()) as int;
        let low = digits_value(behind);
        assert(raised == 10 * power);
        assert(steps * raised == (digit * power + low) * 65536 + (rest * power - low * 65536))
            by (nonlinear_arith)
            requires
                steps * 10 == digit * 65536 + rest,
                raised == 10 * power,
        ;
        assert(digits_value(digits) == digit * power + low);
        assert(fraction_left(steps, places) == fraction_left(rest, (places - 1) as nat));
        if fraction_left(steps, places) == 0 {
            if rest > 0 {
                assert(digits.last() == behind.last());
            } else {
                assert(digits =~= first);
                assert(digit >= 1);
            }
        }
    }
}

/// The digits of a fraction spell it exactly: read as a whole number, they are
/// the fraction times as many tens as there are digits. There are at most
/// sixteen of them, and the last is no zero.
pub proof fn lemma_fraction_is_exact(steps: nat)
    requires
        0 < steps < 65536,
    ensures
        1 <= fraction_digits(steps, 16).len() <= 16,
        is_digits(fraction_digits(steps, 16)),
        digits_value(fraction_digits(steps, 16)) * 65536 == steps * pow10(
            fraction_digits(steps, 16).len(),
        ),
        fraction_digits(steps, 16).last() != '0',
{
    lemma_fraction_digits(steps, 16);
    let left = fraction_left(steps, 16);
    if left != 0 {
        assert(pow10(16) == 152587890625 * 65536) by {
            reveal_with_fuel(pow10, 17);
        }
        let whole = steps * 152587890625 - digits_value(fraction_digits(steps, 16));
        assert(left == whole * 65536) by (nonlinear_arith)
            requires
                steps * (152587890625 * 65536) == digits_value(fraction_digits(steps, 16)) * 65536
                    + left,
                whole == steps * 152587890625 - digits_value(fraction_digits(steps, 16)),
        ;
    }
}

/// The text of a number spells it in full: its digits, read without the point,
/// are the number times as many tens as there are digits behind the point.
pub proof fn lemma_fixed_text_is_exact(magnitude: nat)
    ensures
        ({
            let whole = natural_text(magnitude / 65536);
            let fraction = fraction_digits(magnitude % 65536, 16);
            &&& fraction.len() <= 16
            &&& is_digits(whole + fraction)
            &&& digits_value(whole + fraction) * 65536 == magnitude * pow10(fraction.len())
        }),
{
    let whole = natural_text(magnitude / 65536);
    let fraction = fraction_digits(magnitude % 65536, 16);
    lemma_natural_text_spells(magnitude / 65536);
    lemma_digits_value_joined(whole, fraction);
    if magnitude % 65536 > 0 {
        lemma_fraction_is_exact(magnitude % 65536);
    }
    assert forall|i: int| 0 <= i < (whole + fraction).len() implies 0 <= digit_value(
        #[trigger] (whole + fraction)[i],
    ) < 10 by {
        if i < whole.len() {
            assert((whole + fraction)[i] == whole[i]);
        } else {
            assert((whole + fraction)[i] == fraction[i - whole.len()]);
        }
    }
    let power = pow10(fraction.len()) as int;
    assert((magnitude / 65536) * power * 65536 + (magnitude % 65536) * power == magnitude * power)
        by (nonlinear_arith)
        requires
            magnitude == (magnitude / 65536) * 65536 + magnitude % 65536,
    ;
}

/// Whether `c` can stand in the text of a number: a digit, the minus sign or
/// the point.
pub open spec fn is_number_char(c: char) -> bool {
    c == '-' || c == '.' || 0 <= digit_value(c) < 10
}

/// The text of a number holds digits, and at most a minus sign and a point.
pub proof fn lemma_fixed_text_chars(negative: bool, magnitude: nat)
    ensures
        forall|i: int|
            0 <= i < fixed_text(negative, magnitude).len() ==> is_number_char(
                #[trigger] fixed_text(negative, magnitude)[i],
            ),
{
    let sign = if negative {
        seq!['-']
    } else {
        Seq::empty()
    };
    let whole = natural_text(magnitude / 65536);
    let fraction = fraction_text(magnitude % 65536);
    lemma_natural_text_spells(magnitude / 65536);
    lemma_fraction_digits(magnitude % 65536, 16);
    assert forall|i: int| 0 <= i < fixed_text(negative, magnitude).len() implies is_number_char(
        #[trigger] fixed_text(negative, magnitude)[i],
    ) by {
        let c = fixed_text(negative, magnitude)[i];
        if i < sign.len() {
            assert(c == sign[i]);
        } else if i < sign.len() + whole.len() {
            assert(c == whole[i - sign.len()]);
        } else {
            let k = i - sign.len() - whole.len();
            assert(c == fraction[k]);
            if k > 0 {
                assert(fraction[k] == fraction_digits(magnitude % 65536, 16)[k - 1]);
            }
        }
    }
}

/// Appends a point to `text`.
fn push_point(text: &mut String)
    ensures
        final(text)@ == old(text)@.push('.'),
{
    proof {
        reveal_strlit(".");
    }
    text.append(".");
}

/// Appends the fraction `steps`/65536 to `text`, point first, if it is not zero.
fn push_fraction(text: &mut String, steps: u32)
    requires
        steps < 65536,
    ensures
        final(text)@ == old(text)@ + fraction_text(steps as nat),
{
    if steps == 0 {
        return ;
    }
    push_point(text);
    let ghost pointed = text@;
    let mut rest: u32 = steps;
    let mut places: u32 = FRACTION_PLACES;
    while rest != 0 && places > 0
        invariant
            rest < 65536,
            places <= 16,
            text@ + fraction_digits(rest as nat, places as nat) == pointed + fraction_digits(
                steps as nat,
                16,
            ),
        decreases places,
    {
        let scaled: u32 = rest * 10;
        let ghost before = text@;
        push_digit(text, (scaled / 65536) as u8);
        assert(text@ + fraction_digits((scaled % 65536) as nat, (places - 1) as nat) =~= before
            + fraction_digits(rest as nat, places as nat));
        rest = scaled % 65536;
        places = places - 1;
    }
}

/// Appends the decimal text of a number of `magnitude` steps to `text`.
pub fn push_fixed(text: &mut String, negative: bool, magnitude: u128)
    ensures
        final(text)@ == old(text)@ + fixed_text(negative, magnitude as nat),
{
    if negative {
        push_minus(text);
    }
    push_natural(text, magnitude / 65536);
    push_fraction(text, (magnitude % 65536) as u32);
}

} // verus!
