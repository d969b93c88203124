//! Character classes of the grammar, each as a specification predicate and an
//! executable test proved equal to it.

use vstd::prelude::*;

verus! {

/// Whether a character is a letter or a digit of any script, as
/// `nom_unicode::is_alphanumeric` decides it.
pub uninterp spec fn unicode_alphanumeric(c: char) -> bool;

/// Calls `nom_unicode::is_alphanumeric`, which asks the standard library whether
/// the character is alphabetic or numeric in Unicode. Nothing is claimed of the
/// answer but that it is the one named by `unicode_alphanumeric`.
#[verifier::external_body]
fn alphanumeric_unicode(c: char) -> (r: bool)
    ensures
        r == unicode_alphanumeric(c),
{
    nom_unicode::is_alphanumeric(c)
}

/// `nom::character::is_alphabetic` tests a byte for the ranges `A-Z` and `a-z`.
pub assume_specification[ nom::character::is_alphabetic ](chr: u8) -> (r: bool)
    ensures
        r == ((0x41 <= chr && chr <= 0x5A) || (0x61 <= chr && chr <= 0x7A)),
;

/// Space, tab, carriage return and newline.
pub open spec fn is_space(c: char) -> bool {
    c == ' ' || c == '\t' || c == '\r' || c == '\n'
}

/// The letters `A-Z` and `a-z`.
pub open spec fn is_ascii_letter(c: char) -> bool {
    (0x41 <= c as u32 && c as u32 <= 0x5A) || (0x61 <= c as u32 && c as u32 <= 0x7A)
}

/// The digits `0-9`.
pub open spec fn is_ascii_digit(c: char) -> bool {
    0x30 <= c as u32 && c as u32 <= 0x39
}

/// The characters of a label: letters, `-` and `_`.
pub open spec fn is_label_char(c: char) -> bool {
    is_ascii_letter(c) || c == '-' || c == '_'
}

/// The punctuation that may stand unescaped in a value.
pub open spec fn is_value_punctuation(c: char) -> bool {
    c == '-' || c == '_' || c == '.' || c == ',' || c == ';' || c == ':' || c == '/' || c == ' '
        || c == '^' || c == '$' || c == '+' || c == '*' || c == '\n'
}

/// The characters that a value run takes one at a time: letters and digits of
/// any script and the value punctuation. Within ASCII the set is spelled out;
/// beyond it the Unicode tables decide. The backslash is not among them: it is
/// taken only as the first half of an escape.
pub open spec fn is_value_char(c: char) -> bool {
    if (c as u32) < 128 {
        is_ascii_letter(c) || is_ascii_digit(c) || is_value_punctuation(c)
    } else {
        unicode_alphanumeric(c)
    }
}

/// The characters that may follow a backslash in a value.
pub open spec fn is_escapable(c: char) -> bool {
    c == '"' || c == 'n' || c == '\\'
}

pub fn space_char(c: char) -> (r: bool)
    ensures
        r == is_space(c),
{
    c == ' ' || c == '\t' || c == '\r' || c == '\n'
}

pub fn ascii_letter(c: char) -> (r: bool)
    ensures
        r == is_ascii_letter(c),
{
    let code: u32 = c as u32;
    code < 128 && nom::character::is_alphabetic(code as u8)
}

pub fn label_char(c: char) -> (r: bool)
    ensures
        r == is_label_char(c),
{
    ascii_letter(c) || c == '-' || c == '_'
}

pub fn value_punctuation(c: char) -> (r: bool)
    ensures
        r == is_value_punctuation(c),
{
    c == '-' || c == '_' || c == '.' || c == ',' || c == ';' || c == ':' || c == '/' || c == ' '
        || c == '^' || c == '$' || c == '+' || c == '*' || c == '\n'
}

pub fn value_char(c: char) -> (r: bool)
    ensures
        r == is_value_char(c),
{
    let code: u32 = c as u32;
    if code < 128 {
        ascii_letter(c) || (0x30 <= code && code <= 0x39) || value_punctuation(c)
    } else {
        alphanumeric_unicode(c)
    }
}

pub fn escapable_char(c: char) -> (r: bool)
    ensures
        r == is_escapable(c),
{
    c == '"' || c == 'n' || c == '\\'
}

} // verus!
