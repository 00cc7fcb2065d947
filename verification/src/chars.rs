//! Classes of characters.

use vstd::prelude::*;

verus! {

pub open spec fn is_digit(c: char) -> bool {
    '0' <= c <= '9'
}

pub open spec fn is_hexdigit(c: char) -> bool {
    ('0' <= c <= '9') || ('a' <= c <= 'f') || ('A' <= c <= 'F')
}

pub open spec fn is_upper(c: char) -> bool {
    'A' <= c <= 'Z'
}

pub open spec fn is_lower(c: char) -> bool {
    'a' <= c <= 'z'
}

pub open spec fn is_alnum(c: char) -> bool {
    is_digit(c) || is_upper(c) || is_lower(c)
}

/// The characters that Unicode calls white space.
pub open spec fn is_unicode_whitespace(c: char) -> bool {
    ('\u{0009}' <= c <= '\u{000D}') || c == ' ' || c == '\u{0085}' || c == '\u{00A0}' || c
        == '\u{1680}' || ('\u{2000}' <= c <= '\u{200A}') || c == '\u{2028}' || c == '\u{2029}'
        || c == '\u{202F}' || c == '\u{205F}' || c == '\u{3000}'
}

/// The horizontal spaces of KDL.
pub open spec fn is_kdl_space(c: char) -> bool {
    c == '\u{0009}' || c == ' ' || c == '\u{00A0}' || c == '\u{1680}' || ('\u{2000}' <= c
        <= '\u{200A}') || c == '\u{202F}' || c == '\u{205F}' || c == '\u{3000}'
}

/// The single-character line breaks of KDL (`\r\n` counts as one line break too).
pub open spec fn is_kdl_newline(c: char) -> bool {
    c == '\n' || c == '\r' || c == '\u{0085}' || c == '\u{000C}' || c == '\u{2028}' || c
        == '\u{2029}' || c == '\u{000B}'
}

pub fn digit_c(c: char) -> (r: bool)
    ensures
        r == is_digit(c),
{
    '0' <= c && c <= '9'
}

pub fn hexdigit_c(c: char) -> (r: bool)
    ensures
        r == is_hexdigit(c),
{
    ('0' <= c && c <= '9') || ('a' <= c && c <= 'f') || ('A' <= c && c <= 'F')
}

pub fn upper_c(c: char) -> (r: bool)
    ensures
        r == is_upper(c),
{
    'A' <= c && c <= 'Z'
}

pub fn alnum_c(c: char) -> (r: bool)
    ensures
        r == is_alnum(c),
{
    ('0' <= c && c <= '9') || ('A' <= c && c <= 'Z') || ('a' <= c && c <= 'z')
}

pub fn unicode_whitespace_c(c: char) -> (r: bool)
    ensures
        r == is_unicode_whitespace(c),
{
    ('\u{0009}' <= c && c <= '\u{000D}') || c == ' ' || c == '\u{0085}' || c == '\u{00A0}' || c
        == '\u{1680}' || ('\u{2000}' <= c && c <= '\u{200A}') || c == '\u{2028}' || c
        == '\u{2029}' || c == '\u{202F}' || c == '\u{205F}' || c == '\u{3000}'
}

pub fn kdl_space_c(c: char) -> (r: bool)
    ensures
        r == is_kdl_space(c),
{
    c == '\u{0009}' || c == ' ' || c == '\u{00A0}' || c == '\u{1680}' || ('\u{2000}' <= c && c
        <= '\u{200A}') || c == '\u{202F}' || c == '\u{205F}' || c == '\u{3000}'
}

pub fn kdl_newline_c(c: char) -> (r: bool)
    ensures
        r == is_kdl_newline(c),
{
    c == '\n' || c == '\r' || c == '\u{0085}' || c == '\u{000C}' || c == '\u{2028}' || c
        == '\u{2029}' || c == '\u{000B}'
}

} // verus!
