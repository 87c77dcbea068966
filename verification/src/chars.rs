//! Character classes of the source text.
//!
//! The source is a sequence of bytes and every byte stands for the character
//! with the same code point. The classes below are the Unicode properties
//! White_Space, Alphabetic and Numeric on that range of code points.
use vstd::prelude::*;

verus! {

/// The character that a source byte stands for.
pub open spec fn char_of(b: u8) -> char {
    b as char
}

/// The text that a sequence of source bytes stands for.
pub open spec fn text_of(bytes: Seq<u8>) -> Seq<char> {
    Seq::new(bytes.len(), |i: int| char_of(bytes[i]))
}

/// Whitespace: tab, line feed, vertical tab, form feed, carriage return,
/// space, next line and no-break space.
pub open spec fn is_space(b: u8) -> bool {
    ||| 0x09 <= b <= 0x0d
    ||| b == 0x20
    ||| b == 0x85
    ||| b == 0xa0
}

/// Letters: the ASCII letters, the ordinal indicators, the micro sign and the
/// accented letters of the upper half of the range.
pub open spec fn is_letter(b: u8) -> bool {
    ||| 0x41 <= b <= 0x5a
    ||| 0x61 <= b <= 0x7a
    ||| b == 0xaa
    ||| b == 0xb5
    ||| b == 0xba
    ||| 0xc0 <= b <= 0xd6
    ||| 0xd8 <= b <= 0xf6
    ||| 0xf8 <= b
}

/// The ten ASCII digits.
pub open spec fn is_decimal_digit(b: u8) -> bool {
    0x30 <= b <= 0x39
}

/// Numeric characters: the ASCII digits, the superscripts one to three and
/// the vulgar fractions.
pub open spec fn is_numeric(b: u8) -> bool {
    ||| is_decimal_digit(b)
    ||| b == 0xb2
    ||| b == 0xb3
    ||| b == 0xb9
    ||| 0xbc <= b <= 0xbe
}

/// A line end: line feed or carriage return.
pub open spec fn is_line_end(b: u8) -> bool {
    b == 0x0a || b == 0x0d
}

/// A character that continues a word: a letter, a numeric character or a dot.
/// Whitespace, operators and punctuation end a word.
pub open spec fn is_word(b: u8) -> bool {
    is_letter(b) || is_numeric(b) || b == 0x2e
}

/// A character that may occur in a decimal numeral: a digit, a dot or the
/// exponent letter in either case.
pub open spec fn is_numeral_char(b: u8) -> bool {
    is_decimal_digit(b) || b == 0x2e || b == 0x65 || b == 0x45
}

pub fn to_char(b: u8) -> (c: char)
    ensures
        c == char_of(b),
{
    b as char
}

pub fn space(b: u8) -> (r: bool)
    ensures
        r == is_space(b),
{
    (0x09 <= b && b <= 0x0d) || b == 0x20 || b == 0x85 || b == 0xa0
}

pub fn letter(b: u8) -> (r: bool)
    ensures
        r == is_letter(b),
{
    (0x41 <= b && b <= 0x5a) || (0x61 <= b && b <= 0x7a) || b == 0xaa || b == 0xb5 || b == 0xba
        || (0xc0 <= b && b <= 0xd6) || (0xd8 <= b && b <= 0xf6) || 0xf8 <= b
}

pub fn decimal_digit(b: u8) -> (r: bool)
    ensures
        r == is_decimal_digit(b),
{
    0x30 <= b && b <= 0x39
}

pub fn numeric(b: u8) -> (r: bool)
    ensures
        r == is_numeric(b),
{
    decimal_digit(b) || b == 0xb2 || b == 0xb3 || b == 0xb9 || (0xbc <= b && b <= 0xbe)
}

pub fn line_end(b: u8) -> (r: bool)
    ensures
        r == is_line_end(b),
{
    b == 0x0a || b == 0x0d
}

pub fn word(b: u8) -> (r: bool)
    ensures
        r == is_word(b),
{
    letter(b) || numeric(b) || b == 0x2e
}

pub fn numeral_char(b: u8) -> (r: bool)
    ensures
        r == is_numeral_char(b),
{
    decimal_digit(b) || b == 0x2e || b == 0x65 || b == 0x45
}

/// The classes that start a token are disjoint, and none of them holds a
/// whitespace character.
pub proof fn lemma_classes_disjoint(b: u8)
    ensures
        !(is_space(b) && is_word(b)),
        !(is_letter(b) && is_numeric(b)),
        !(is_letter(b) && b == 0x2e),
        !(is_word(b) && b == 0x23),
        is_line_end(b) ==> is_space(b),
        is_numeral_char(b) ==> is_word(b),
{
}

} // verus!
