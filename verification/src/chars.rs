//! Character classes used by the lexer.
//!
//! The ASCII classes are defined here in full. The Unicode classes are
//! those of the standard library and are only named.

use vstd::prelude::*;

verus! {

/// Whether `c` has the Unicode `White_Space` property, as `char::is_whitespace` decides it.
pub uninterp spec fn unicode_whitespace(c: char) -> bool;

/// Whether `c` is in one of the Unicode numeric categories, as `char::is_numeric` decides it.
pub uninterp spec fn unicode_numeric(c: char) -> bool;

/// Whether `c` is alphabetic or numeric in Unicode, as `char::is_alphanumeric` decides it.
pub uninterp spec fn unicode_alphanumeric(c: char) -> bool;

/// Calls `char::is_whitespace`. Nothing is claimed of the result but that it is
/// the class named [`unicode_whitespace`].
#[verifier::external_body]
pub(crate) fn has_white_space(c: char) -> (r: bool)
    ensures
        r == unicode_whitespace(c),
{
    c.is_whitespace()
}

/// Calls `char::is_numeric`. Nothing is claimed of the result but that it is
/// the class named [`unicode_numeric`].
#[verifier::external_body]
pub(crate) fn has_numeric_category(c: char) -> (r: bool)
    ensures
        r == unicode_numeric(c),
{
    c.is_numeric()
}

/// Calls `char::is_alphanumeric`. Nothing is claimed of the result but that it
/// is the class named [`unicode_alphanumeric`].
#[verifier::external_body]
pub(crate) fn has_alphanumeric_category(c: char) -> (r: bool)
    ensures
        r == unicode_alphanumeric(c),
{
    c.is_alphanumeric()
}

/// The ten ASCII decimal digits.
pub open spec fn is_ascii_digit(c: char) -> bool {
    '0' <= c <= '9'
}

/// The ASCII letters of both cases.
pub open spec fn is_ascii_letter(c: char) -> bool {
    ('a' <= c <= 'z') || ('A' <= c <= 'Z')
}

/// What a character starts that has no meaning of its own.
#[derive(Debug, Clone, Copy, PartialEq, Eq, Structural)]
pub enum Start {
    /// Nothing: the character is whitespace and is passed over.
    Space,
    Number,
    Word,
}

/// What `c` starts, where `white_space` and `numeric` say whether Unicode
/// counts it as whitespace and as numeric. The ASCII digits start numbers
/// and the ASCII letters start words whatever the two say. Of the others,
/// whitespace is passed over, what is numeric starts a number, and anything
/// else starts a word.
pub open spec fn start_where(c: char, white_space: bool, numeric: bool) -> Start {
    if is_ascii_digit(c) {
        Start::Number
    } else if is_ascii_letter(c) {
        Start::Word
    } else if white_space {
        Start::Space
    } else if numeric {
        Start::Number
    } else {
        Start::Word
    }
}

/// What `c` starts.
pub open spec fn start(c: char) -> Start {
    start_where(c, unicode_whitespace(c), unicode_numeric(c))
}

/// Whether `c` may stand in a name, where `alphanumeric` says whether
/// Unicode counts it as alphabetic or numeric: the ASCII letters and digits
/// may, whatever it says.
pub open spec fn is_word_char_where(c: char, alphanumeric: bool) -> bool {
    is_ascii_letter(c) || is_ascii_digit(c) || alphanumeric
}

/// A character that may stand in a name.
pub open spec fn is_word_char(c: char) -> bool {
    is_word_char_where(c, unicode_alphanumeric(c))
}

/// The value of `c` as a digit in `base`, for bases up to 36: `0`..`9` count
/// zero to nine, the letters of either case count from ten.
pub open spec fn digit_value(c: char, base: u32) -> Option<u32> {
    let v: int = if '0' <= c <= '9' {
        c as int - '0' as int
    } else if 'a' <= c <= 'z' {
        c as int - 'a' as int + 10
    } else if 'A' <= c <= 'Z' {
        c as int - 'A' as int + 10
    } else {
        36
    };
    if v < base {
        Some(v as u32)
    } else {
        None
    }
}

/// Whether `c` is one of the ten ASCII digits.
pub fn ascii_digit(c: char) -> (r: bool)
    ensures
        r == is_ascii_digit(c),
{
    '0' <= c && c <= '9'
}

/// Whether `c` is an ASCII letter.
pub fn ascii_letter(c: char) -> (r: bool)
    ensures
        r == is_ascii_letter(c),
{
    ('a' <= c && c <= 'z') || ('A' <= c && c <= 'Z')
}

/// What `c` starts, from what Unicode makes of it.
pub fn start_of_where(c: char, white_space: bool, numeric: bool) -> (r: Start)
    ensures
        r == start_where(c, white_space, numeric),
{
    if ascii_digit(c) {
        Start::Number
    } else if ascii_letter(c) {
        Start::Word
    } else if white_space {
        Start::Space
    } else if numeric {
        Start::Number
    } else {
        Start::Word
    }
}

/// What `c` starts.
pub fn start_of(c: char) -> (r: Start)
    ensures
        r == start(c),
{
    start_of_where(c, has_white_space(c), has_numeric_category(c))
}

/// Whether `c` may stand in a name, from what Unicode makes of it.
pub fn word_char_where(c: char, alphanumeric: bool) -> (r: bool)
    ensures
        r == is_word_char_where(c, alphanumeric),
{
    ascii_letter(c) || ascii_digit(c) || alphanumeric
}

/// Whether `c` may stand in a name.
pub fn word_char(c: char) -> (r: bool)
    ensures
        r == is_word_char(c),
{
    word_char_where(c, has_alphanumeric_category(c))
}

/// The value of `c` as a digit in `base`, if it is one.
pub fn to_digit(c: char, base: u32) -> (r: Option<u32>)
    requires
        base <= 36,
    ensures
        r == digit_value(c, base),
        r matches Some(d) ==> d < base,
{
    let v: u32 = if '0' <= c && c <= '9' {
        c as u32 - '0' as u32
    } else if 'a' <= c && c <= 'z' {
        c as u32 - 'a' as u32 + 10
    } else if 'A' <= c && c <= 'Z' {
        c as u32 - 'A' as u32 + 10
    } else {
        36
    };
    if v < base {
        Some(v)
    } else {
        None
    }
}

} // verus!
