//! Small string and character helpers over std, with their contracts.
use vstd::prelude::*;

verus! {

/// Relies on `<str as PartialEq>::eq`: two string slices are equal exactly
/// when they hold the same characters.
#[verifier::external_body]
pub(crate) fn str_eq(a: &str, b: &str) -> (r: bool)
    ensures
        r == (a@ == b@),
{
    a == b
}

/// Relies on `String::push`: the character is added at the end.
#[verifier::external_body]
pub(crate) fn push_char(s: &mut String, c: char)
    ensures
        final(s)@ == old(s)@.push(c),
{
    s.push(c)
}

/// Whether `n` is the code point of a Unicode scalar value.
pub open spec fn is_scalar_value(n: u32) -> bool {
    n < 0xD800 || (0xE000 <= n && n <= 0x10FFFF)
}

/// Relies on `char::from_u32`: `Some` exactly for the scalar values, holding
/// the character with that code point.
#[verifier::external_body]
pub(crate) fn char_from_u32(n: u32) -> (r: Option<char>)
    ensures
        r == (if is_scalar_value(n) {
            Some(n as char)
        } else {
            None
        }),
{
    char::from_u32(n)
}

} // verus!
