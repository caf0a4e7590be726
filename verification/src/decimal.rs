//! Decimal text of whole numbers.

use vstd::prelude::*;
use vstd::string::*;

verus! {

/// The character that stands for the decimal digit `d`.
pub open spec fn digit_char(d: int) -> char
    recommends
        0 <= d < 10,
{
    ('0' as int + d) as char
}

/// The decimal digits of `n`, most significant first, without leading zeros.
pub open spec fn natural_text(n: nat) -> Seq<char>
    decreases n,
{
    if n < 10 {
        seq![digit_char(n as int)]
    } else {
        natural_text(n / 10).push(digit_char((n % 10) as int))
    }
}

/// The decimal text of `n`: a minus sign before the digits of a negative number.
pub open spec fn integer_text(n: int) -> Seq<char> {
    if n < 0 {
        seq!['-'] + natural_text((-n) as nat)
    } else {
        natural_text(n as nat)
    }
}

/// The digit that the character `c` stands for.
pub open spec fn digit_value(c: char) -> int {
    c as int - '0' as int
}

/// Whether every character of `text` is a decimal digit.
pub open spec fn is_digits(text: Seq<char>) -> bool {
    forall|i: int| 0 <= i < text.len() ==> 0 <= digit_value(#[trigger] text[i]) < 10
}

/// Ten to the power of `places`.
pub open spec fn pow10(places: nat) -> nat
    decreases places,
{
    if places == 0 {
        1
    } else {
        10 * pow10((places - 1) as nat)
    }
}

/// The whole number that a run of digits spells.
pub open spec fn digits_value(digits: Seq<char>) -> int
    decreases digits.len(),
{
    if digits.len() == 0 {
        0
    } else {
        digits_value(digits.drop_last()) * 10 + digit_value(digits.last())
    }
}

/// Digits put behind other digits: the number in front moves up by as many
/// places as there are digits behind it.
pub proof fn lemma_digits_value_joined(front: Seq<char>, back: Seq<char>)
    ensures
        digits_value(front + back) == digits_value(front) * pow10(back.len()) + digits_value(back),
    decreases back.len(),
{
    if back.len() == 0 {
        assert(front + back =~= front);
        assert(pow10(back.len()) == 1);
        assert(digits_value(front) * 1 == digits_value(front));
    } else {
        let shorter = back.drop_last();
        lemma_digits_value_joined(front, shorter);
        assert((front + back).drop_last() =~= front + shorter);
        assert((front + back).last() == back.last());
        let high = digits_value(front);
        let low = digits_value(shorter);
        let power = pow10(shorter.len()) as int;
        let raised = pow10(back.len()) as int;
        assert(raised == 10 * power);
        assert((high * power + low) * 10 == high * raised + low * 10) by (nonlinear_arith)
            requires
                raised == 10 * power,
        ;
        assert(digits_value(front + back) == (high * power + low) * 10 + digit_value(back.last()));
        assert(digits_value(back) == low * 10 + digit_value(back.last()));
    }
}

/// The text of a natural number spells that number, in digits only and
/// without a leading zero, so two numbers have the same text only if they are
/// the same.
pub proof fn lemma_natural_text_spells(n: nat)
    ensures
        natural_text(n).len() >= 1,
        is_digits(natural_text(n)),
        digits_value(natural_text(n)) == n,
        n > 0 ==> natural_text(n)[0] != '0',
    decreases n,
{
    if n < 10 {
        assert(natural_text(n).drop_last().len() == 0);
        assert(digits_value(natural_text(n).drop_last()) == 0);
    } else {
        lemma_natural_text_spells(n / 10);
        let text = natural_text(n);
        assert(text.drop_last() =~= natural_text(n / 10));
        assert(text[0] == natural_text(n / 10)[0]);
        assert forall|i: int| 0 <= i < text.len() implies 0 <= digit_value(#[trigger] text[i])
            < 10 by {
            if i < text.len() - 1 {
                assert(text[i] == natural_text(n / 10)[i]);
            }
        }
    }
}

/// The one-character text of a single digit.
fn digit_str(d: u8) -> (s: &'static str)
    requires
        d < 10,
    ensures
        s@ == seq![digit_char(d as int)],
{
    proof {
        reveal_strlit("0");
        reveal_strlit("1");
        reveal_strlit("2");
        reveal_strlit("3");
        reveal_strlit("4");
        reveal_strlit("5");
        reveal_strlit("6");
        reveal_strlit("7");
        reveal_strlit("8");
        reveal_strlit("9");
    }
    let s = match d {
        0 => "0",
        1 => "1",
        2 => "2",
        3 => "3",
        4 => "4",
        5 => "5",
        6 => "6",
        7 => "7",
        8 => "8",
        _ => "9",
    };
    s
}

/// Appends the digit `d` to `text`.
pub(crate) fn push_digit(text: &mut String, d: u8)
    requires
        d < 10,
    ensures
        final(text)@ == old(text)@.push(digit_char(d as int)),
{
    text.append(digit_str(d));
}

/// Appends a minus sign to `text`.
pub(crate) fn push_minus(text: &mut String)
    ensures
        final(text)@ == old(text)@.push('-'),
{
    proof {
        reveal_strlit("-");
    }
    text.append("-");
}

/// Appends the decimal digits of `n` to `text`.
pub fn push_natural(text: &mut String, n: u128)
    ensures
        final(text)@ == old(text)@ + natural_text(n as nat),
    decreases n,
{
    if n >= 10 {
        push_natural(text, n / 10);
    }
    push_digit(text, (n % 10) as u8);
}

/// Appends the decimal text of `n` to `text`.
pub fn push_integer(text: &mut String, n: i64)
    ensures
        final(text)@ == old(text)@ + integer_text(n as int),
{
    if n < 0 {
        push_minus(text);
        let wide: i128 = n as i128;
        push_natural(text, (-wide) as u128);
    } else {
        push_natural(text, n as u128);
    }
}

} // verus!
