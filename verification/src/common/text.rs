//! Numbers written out in decimal.

use vstd::prelude::*;

verus! {

/// The standard library's `String::push`: appends the character `c` to the
/// end of `text` and leaves what was there as it was.
pub assume_specification[ String::push ](text: &mut String, c: char)
    ensures
        final(text)@ == old(text)@.push(c),
;

/// The character for the decimal digit `digit`.
pub open spec fn digit_char(digit: int) -> char
    recommends
        0 <= digit <= 9,
{
    ('0' as int + digit) as char
}

/// The decimal digits of `n`, without leading zeros; zero is `0`.
pub open spec fn decimal_nat(n: nat) -> Seq<char>
    decreases n,
{
    if n < 10 {
        seq![digit_char(n as int)]
    } else {
        decimal_nat(n / 10).push(digit_char((n % 10) as int))
    }
}

/// `n` in decimal, with a minus sign before a negative number.
pub open spec fn decimal(n: int) -> Seq<char> {
    if n < 0 {
        seq!['-'] + decimal_nat((-n) as nat)
    } else {
        decimal_nat(n as nat)
    }
}

/// The character for a decimal digit.
pub fn digit_to_char(digit: u8) -> (result: char)
    requires
        digit <= 9,
    ensures
        result == digit_char(digit as int),
{
    (48u8 + digit) as char
}

/// Appends the decimal digits of `n` to `text`.
pub fn push_decimal(text: &mut String, n: u64)
    ensures
        final(text)@ == old(text)@ + decimal_nat(n as nat),
    decreases n,
{
    if n >= 10 {
        push_decimal(text, n / 10);
    }
    text.push(digit_to_char((n % 10) as u8));
    proof {
        if n >= 10 {
            assert(old(text)@ + decimal_nat(n as nat) =~= (old(text)@ + decimal_nat(
                (n / 10) as nat,
            )).push(digit_char((n % 10) as int)));
        } else {
            assert(old(text)@ + decimal_nat(n as nat) =~= old(text)@.push(digit_char(n as int)));
        }
    }
}

/// Appends `n` in decimal to `text`, with a minus sign if it is negative.
pub fn push_signed_decimal(text: &mut String, n: i32)
    ensures
        final(text)@ == old(text)@ + decimal(n as int),
{
    if n < 0 {
        text.push('-');
        push_decimal(text, (-(n as i64)) as u64);
        assert(text@ =~= old(text)@ + decimal(n as int));
    } else {
        push_decimal(text, n as u64);
    }
}

} // verus!
