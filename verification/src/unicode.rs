//! Unicode character properties and case mapping, taken from std.
//!
//! The full Unicode tables are not restated here: each property gets a name
//! whose value the std call decides, plus the ASCII facts that the property's
//! definition fixes.
use vstd::prelude::*;
use crate::text::is_space_char;

verus! {

/// True for the ASCII letters `A-Z` and `a-z`.
pub open spec fn is_ascii_letter(c: char) -> bool {
    ('A' as u32 <= c as u32 <= 'Z' as u32) || ('a' as u32 <= c as u32 <= 'z' as u32)
}

/// True for the ASCII digits `0-9`.
pub open spec fn is_ascii_digit(c: char) -> bool {
    '0' as u32 <= c as u32 <= '9' as u32
}

/// The Unicode `Alphabetic` property of a character beyond ASCII that is
/// not whitespace (no whitespace character is alphabetic).
pub uninterp spec fn alphabetic_beyond_ascii(c: char) -> bool;

/// The Unicode `Alphabetic` or `Numeric` property of a character beyond ASCII.
pub uninterp spec fn alphanumeric_beyond_ascii(c: char) -> bool;

/// The Unicode `Uppercase` property of a character beyond ASCII.
pub uninterp spec fn uppercase_beyond_ascii(c: char) -> bool;

/// The Unicode `Alphabetic` property of `c` (`char::is_alphabetic`): on
/// ASCII exactly the letters; never a whitespace character.
pub open spec fn alphabetic(c: char) -> bool {
    if (c as u32) < 0x80 {
        is_ascii_letter(c)
    } else {
        !is_space_char(c) && alphabetic_beyond_ascii(c)
    }
}

/// The Unicode `Alphabetic` or `Numeric` property of `c`
/// (`char::is_alphanumeric`): on ASCII exactly the letters and digits.
pub open spec fn alphanumeric(c: char) -> bool {
    if (c as u32) < 0x80 {
        is_ascii_letter(c) || is_ascii_digit(c)
    } else {
        alphanumeric_beyond_ascii(c)
    }
}

/// The Unicode `Uppercase` property of `c` (`char::is_uppercase`): on ASCII
/// exactly `A-Z`.
pub open spec fn uppercase(c: char) -> bool {
    if (c as u32) < 0x80 {
        'A' as u32 <= c as u32 <= 'Z' as u32
    } else {
        uppercase_beyond_ascii(c)
    }
}

/// The Unicode lowercase mapping of a string that holds a character beyond
/// ASCII (`str::to_lowercase`).
pub uninterp spec fn lowercase_beyond_ascii(s: Seq<char>) -> Seq<char>;

/// `c` with `A-Z` mapped to `a-z`.
pub open spec fn ascii_lower(c: char) -> char {
    if 'A' as u32 <= c as u32 <= 'Z' as u32 {
        ((c as u32) + 32) as char
    } else {
        c
    }
}

/// Every character of `s` is ASCII.
pub open spec fn all_ascii(s: Seq<char>) -> bool {
    forall|k: int| 0 <= k < s.len() ==> (#[trigger] s[k] as u32) < 0x80
}

/// The Unicode lowercase mapping of the string `s` (`str::to_lowercase`):
/// on an ASCII string, `A-Z` become `a-z` character by character.
pub open spec fn lowercase(s: Seq<char>) -> Seq<char> {
    if all_ascii(s) {
        s.map_values(|c: char| ascii_lower(c))
    } else {
        lowercase_beyond_ascii(s)
    }
}

/// `char::is_alphabetic` from std. Claims that the result is the `Alphabetic`
/// property: on ASCII exactly the letters, never for a whitespace character
/// (the Unicode `White_Space` and `Alphabetic` sets are disjoint), and
/// otherwise beyond ASCII the named table.
#[verifier::external_body]
pub fn is_alphabetic(c: char) -> (r: bool)
    ensures
        (c as u32) < 0x80 ==> r == is_ascii_letter(c),
        is_space_char(c) ==> !r,
        (c as u32) >= 0x80 && !is_space_char(c) ==> r == alphabetic_beyond_ascii(c),
        r == alphabetic(c),
{
    c.is_alphabetic()
}

/// `char::is_alphanumeric` from std. Claims that the result is the
/// `Alphabetic`-or-`Numeric` property: on ASCII exactly letters and digits,
/// beyond ASCII the named table.
#[verifier::external_body]
pub fn is_alphanumeric(c: char) -> (r: bool)
    ensures
        (c as u32) < 0x80 ==> r == (is_ascii_letter(c) || is_ascii_digit(c)),
        (c as u32) >= 0x80 ==> r == alphanumeric_beyond_ascii(c),
        r == alphanumeric(c),
{
    c.is_alphanumeric()
}

/// `char::is_uppercase` from std. Claims that the result is the `Uppercase`
/// property: on ASCII exactly `A-Z`, beyond ASCII the named table.
#[verifier::external_body]
pub fn is_uppercase(c: char) -> (r: bool)
    ensures
        (c as u32) < 0x80 ==> r == ('A' as u32 <= c as u32 <= 'Z' as u32),
        (c as u32) >= 0x80 ==> r == uppercase_beyond_ascii(c),
        r == uppercase(c),
{
    c.is_uppercase()
}

/// `str::to_lowercase` from std. Claims that the result is the lowercase
/// mapping of the argument: on an ASCII string `A-Z` become `a-z` and every
/// other character stays; beyond ASCII the named mapping (the Unicode case
/// tables are not restated).
#[verifier::external_body]
pub fn to_lowercase(s: &str) -> (r: String)
    ensures
        all_ascii(s@) ==> r@ == s@.map_values(|c: char| ascii_lower(c)),
        !all_ascii(s@) ==> r@ == lowercase_beyond_ascii(s@),
        r@ == lowercase(s@),
{
    s.to_lowercase()
}

} // verus!
