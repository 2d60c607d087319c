//! Character and string helpers that the standard library provides.

use vstd::prelude::*;

verus! {

/// Whether a character outside ASCII is alphabetic in the sense of Unicode.
pub uninterp spec fn unicode_alphabetic(c: char) -> bool;

/// Whether a character outside ASCII belongs to one of the Unicode number categories.
pub uninterp spec fn unicode_numeric(c: char) -> bool;

/// Whether a character counts as a letter: among ASCII characters the
/// letters `a` to `z` and `A` to `Z`, elsewhere what Unicode calls alphabetic.
pub open spec fn is_letter(c: char) -> bool {
    if (c as u32) < 128 {
        ('a' <= c && c <= 'z') || ('A' <= c && c <= 'Z')
    } else {
        unicode_alphabetic(c)
    }
}

/// Whether a character counts as a number: among ASCII characters the
/// digits `0` to `9`, elsewhere what Unicode calls numeric.
pub open spec fn is_number(c: char) -> bool {
    if (c as u32) < 128 {
        '0' <= c && c <= '9'
    } else {
        unicode_numeric(c)
    }
}

/// `char::is_alphabetic`: true of the ASCII letters and of no other ASCII
/// character; for the rest of Unicode the result is only given a name.
#[verifier::external_body]
pub(crate) fn char_is_alphabetic(c: char) -> (b: bool)
    ensures
        b == is_letter(c),
        (c as u32) >= 128 ==> b == unicode_alphabetic(c),
{
    c.is_alphabetic()
}

/// `char::is_numeric`: true of the ASCII digits and of no other ASCII
/// character; for the rest of Unicode the result is only given a name.
#[verifier::external_body]
pub(crate) fn char_is_numeric(c: char) -> (b: bool)
    ensures
        b == is_number(c),
        (c as u32) >= 128 ==> b == unicode_numeric(c),
{
    c.is_numeric()
}

/// `String::push`: appends one character to the end of the string.
#[verifier::external_body]
pub(crate) fn push_char(s: &mut String, c: char)
    ensures
        final(s)@ == old(s)@.push(c),
{
    s.push(c);
}

} // verus!
