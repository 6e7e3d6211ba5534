//! Characters in and out of strings.

use vstd::prelude::*;

verus! {

/// The characters of `text`, in order.
pub fn chars_of(text: &str) -> (r: Vec<char>)
    ensures
        r@ == text@,
{
    let mut r: Vec<char> = Vec::new();
    for c in it: text.chars()
        invariant
            it.seq() == text@,
            r@ == it.seq().take(it.index()),
    {
        r.push(c);
    }
    r
}

/// Whether `c` is one of the ten ASCII digits.
pub open spec fn is_digit(c: char) -> bool {
    '0' <= c && c <= '9'
}

/// The number that the ASCII digit `c` writes.
pub open spec fn digit_of(c: char) -> u8 {
    (c as int - 48) as u8
}

/// The ASCII digit that writes `d`.
pub open spec fn digit_char(d: u8) -> char {
    (d + 48) as char
}

/// The number that `c` writes, where `c` is an ASCII digit.
pub fn to_digit(c: char) -> (r: Option<u8>)
    ensures
        r is Some <==> is_digit(c),
        r matches Some(d) ==> d == digit_of(c) && d < 10,
{
    let code: u32 = c as u32;
    if code >= 48 && code <= 57 {
        Some((code - 48) as u8)
    } else {
        None
    }
}

/// The ASCII digit that writes `d`.
pub fn from_digit(d: u8) -> (c: char)
    requires
        d < 10,
    ensures
        c == digit_char(d),
        is_digit(c),
        digit_of(c) == d,
{
    (d + 48) as char
}

/// Appends `c` to `text` with `String::push`.
#[verifier::external_body]
pub(crate) fn push_char(text: &mut String, c: char)
    ensures
        final(text)@ == old(text)@.push(c),
{
    text.push(c);
}

} // verus!
