//! Writing numbers and characters into strings, the way `format!` spells
//! them: decimal for `{}`, two lowercase hex digits for `{:02x}`.

use vstd::prelude::*;

verus! {

/// The decimal digits.
pub const DECIMAL_DIGITS: [char; 10] = ['0', '1', '2', '3', '4', '5', '6', '7', '8', '9'];

/// The hexadecimal digits, in lower case.
pub const HEX_DIGITS: [char; 16] = [
    '0', '1', '2', '3', '4', '5', '6', '7', '8', '9', 'a', 'b', 'c', 'd', 'e', 'f',
];

/// `n` in decimal, without leading zeros.
pub open spec fn decimal(n: nat) -> Seq<char>
    decreases n,
{
    if n < 10 {
        seq![DECIMAL_DIGITS@[n as int]]
    } else {
        decimal(n / 10).push(DECIMAL_DIGITS@[(n % 10) as int])
    }
}

/// `b` as two lowercase hexadecimal digits.
pub open spec fn hex_byte(b: u8) -> Seq<char> {
    seq![HEX_DIGITS@[(b / 16) as int], HEX_DIGITS@[(b % 16) as int]]
}

/// Appends `c` to `s`.
#[verifier::external_body]
pub(crate) fn push_char(s: &mut String, c: char)
    ensures
        final(s)@ == old(s)@.push(c),
{
    s.push(c)
}

/// Appends `tail` to `s`.
pub fn push_str(s: &mut String, tail: &str)
    ensures
        final(s)@ == old(s)@ + tail@,
{
    s.append(tail)
}

/// Appends `n` in decimal to `s`.
pub fn push_decimal(s: &mut String, n: u64)
    ensures
        final(s)@ == old(s)@ + decimal(n as nat),
    decreases n,
{
    if n >= 10 {
        push_decimal(s, n / 10);
    }
    let d = (n % 10) as usize;
    push_char(s, DECIMAL_DIGITS[d]);
}

/// Appends `b` to `s` as two lowercase hexadecimal digits.
pub fn push_hex_byte(s: &mut String, b: u8)
    ensures
        final(s)@ == old(s)@ + hex_byte(b),
{
    push_char(s, HEX_DIGITS[(b / 16) as usize]);
    push_char(s, HEX_DIGITS[(b % 16) as usize]);
}

} // verus!
