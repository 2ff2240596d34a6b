use crate::ratio::{round_div, round_div_u128};
use vstd::prelude::*;
use vstd::string::StringExecFns;

verus! {

/// The character of the decimal digit `d`.
pub open spec fn digit_char(d: int) -> char {
    if d == 0 {
        '0'
    } else if d == 1 {
        '1'
    } else if d == 2 {
        '2'
    } else if d == 3 {
        '3'
    } else if d == 4 {
        '4'
    } else if d == 5 {
        '5'
    } else if d == 6 {
        '6'
    } else if d == 7 {
        '7'
    } else if d == 8 {
        '8'
    } else {
        '9'
    }
}

/// The decimal digits of `n`, without leading zeros.
pub open spec fn decimal(n: nat) -> Seq<char>
    decreases n,
{
    if n < 10 {
        seq![digit_char(n as int)]
    } else {
        decimal(n / 10).push(digit_char((n % 10) as int))
    }
}

/// The digit that a character stands for: 0 for a character that is no
/// digit.
pub open spec fn digit_value(c: char) -> nat {
    if c == '1' {
        1
    } else if c == '2' {
        2
    } else if c == '3' {
        3
    } else if c == '4' {
        4
    } else if c == '5' {
        5
    } else if c == '6' {
        6
    } else if c == '7' {
        7
    } else if c == '8' {
        8
    } else if c == '9' {
        9
    } else {
        0
    }
}

/// The character is a decimal digit.
pub open spec fn is_digit_char(c: char) -> bool {
    c == '0' || digit_value(c) > 0
}

/// The number that a text of decimal digits names.
pub open spec fn number_value(text: Seq<char>) -> nat
    decreases text.len(),
{
    if text.len() == 0 {
        0
    } else {
        number_value(text.drop_last()) * 10 + digit_value(text.last())
    }
}

/// A number is read back from its decimal digits, and its text holds
/// digits only.
pub proof fn lemma_decimal(n: nat)
    ensures
        number_value(decimal(n)) == n,
        decimal(n).len() >= 1,
        forall|i: int| 0 <= i < decimal(n).len() ==> is_digit_char(#[trigger] decimal(n)[i]),
    decreases n,
{
    if n < 10 {
        assert(decimal(n).drop_last() =~= Seq::<char>::empty());
        assert(number_value(decimal(n).drop_last()) == 0);
    } else {
        lemma_decimal(n / 10);
        assert(decimal(n).drop_last() =~= decimal(n / 10));
    }
}

/// One decimal digit as text.
pub fn digit_str(d: u32) -> (s: &'static str)
    requires
        d < 10,
    ensures
        s@ == seq![digit_char(d as int)],
{
    proof {
        reveal_strlit("0");
        reveal_strlit("1");
        reveal_strlit("2");
        reveal_strlit("3");
        reveal_strlit("4");
        reveal_strlit("5");
        reveal_strlit("6");
        reveal_strlit("7");
        reveal_strlit("8");
        reveal_strlit("9");
    }
    let s = if d == 0 {
        "0"
    } else if d == 1 {
        "1"
    } else if d == 2 {
        "2"
    } else if d == 3 {
        "3"
    } else if d == 4 {
        "4"
    } else if d == 5 {
        "5"
    } else if d == 6 {
        "6"
    } else if d == 7 {
        "7"
    } else if d == 8 {
        "8"
    } else {
        "9"
    };
    assert(s@ =~= seq![digit_char(d as int)]);
    s
}

/// Writes `n` in decimal at the end of `out`.
pub fn push_decimal(out: &mut String, n: u128)
    ensures
        final(out)@ == old(out)@ + decimal(n as nat),
    decreases n,
{
    if n >= 10 {
        push_decimal(out, n / 10);
    }
    out.append(digit_str((n % 10) as u32));
    assert(final(out)@ =~= old(out)@ + decimal(n as nat));
}

/// The decimals of a number of thousandths below one: nothing for none,
/// else a point and the digits up to the last that is not zero.
pub open spec fn decimals_text(thousandths: nat) -> Seq<char> {
    let tenths = digit_char((thousandths / 100) as int);
    let hundredths = digit_char((thousandths / 10 % 10) as int);
    if thousandths == 0 {
        Seq::empty()
    } else if thousandths % 100 == 0 {
        seq!['.', tenths]
    } else if thousandths % 10 == 0 {
        seq!['.', tenths, hundredths]
    } else {
        seq!['.', tenths, hundredths, digit_char((thousandths % 10) as int)]
    }
}

/// The number `num / den` as text: rounded to thousandths, the whole part
/// in decimal and after it the decimals that are not zero.
pub open spec fn number_text(num: nat, den: nat) -> Seq<char> {
    let thousandths = round_div((num * 1000) as int, den as int);
    decimal((thousandths / 1000) as nat) + decimals_text((thousandths % 1000) as nat)
}

/// The largest numerator and denominator that `push_number` takes.
pub const MAX_NUMBER_PART: u128 = 0x4000_0000_0000_0000_0000_0000_0000;

/// Writes the number `num / den` at the end of `out`.
pub fn push_number(out: &mut String, num: u128, den: u128)
    requires
        0 < den <= MAX_NUMBER_PART,
        num <= MAX_NUMBER_PART,
    ensures
        final(out)@ == old(out)@ + number_text(num as nat, den as nat),
{
    let thousandths = round_div_u128(num * 1000, den);
    push_decimal(out, thousandths / 1000);
    let rest = (thousandths % 1000) as u32;
    if rest != 0 {
        proof {
            reveal_strlit(".");
        }
        out.append(".");
        out.append(digit_str(rest / 100));
        if rest % 100 != 0 {
            out.append(digit_str(rest / 10 % 10));
            if rest % 10 != 0 {
                out.append(digit_str(rest % 10));
            }
        }
    }
    assert(final(out)@ =~= old(out)@ + number_text(num as nat, den as nat));
}

} // verus!
