//! Character classes shared by the fast validator and the grammar parser.
//!
//! All classes are stated over single bytes of the UTF-8 encoding. Every
//! non-ASCII scalar is built from bytes `>= 0x80`, and the permissive classes
//! (`atext`, `qtext`) accept every such byte, so a byte-wise scan of a valid
//! UTF-8 string agrees with the character-wise reading of RFC 5322.
use vstd::prelude::*;

verus! {

/// The byte value of `.`.
pub const DOT: u8 = 0x2E;

/// The byte value of `@`.
pub const AT: u8 = 0x40;

/// The byte value of `"`.
pub const QUOTE: u8 = 0x22;

/// The byte value of `\`.
pub const ESC: u8 = 0x5C;

/// The byte value of `[`.
pub const LBRACKET: u8 = 0x5B;

/// The byte value of `]`.
pub const RBRACKET: u8 = 0x5D;

/// The byte value of the space character.
pub const SP: u8 = 0x20;

/// The byte value of the horizontal tab.
pub const HTAB: u8 = 0x09;

/// The byte value of the carriage return.
pub const CR: u8 = 0x0D;

/// The byte value of the line feed.
pub const LF: u8 = 0x0A;

/// An ASCII decimal digit.
pub open spec fn is_digit_b(b: u8) -> bool {
    0x30 <= b <= 0x39
}

/// An ASCII letter.
pub open spec fn is_alpha_b(b: u8) -> bool {
    (0x41 <= b <= 0x5A) || (0x61 <= b <= 0x7A)
}

/// The punctuation characters that RFC 5322 `atext` admits besides
/// letters and digits: `! # $ % & ' * + - / = ? ^ _ \` { | } ~`.
pub open spec fn is_atext_punct_b(b: u8) -> bool {
    b == 0x21 || b == 0x23 || b == 0x24 || b == 0x25 || b == 0x26 || b == 0x27 || b == 0x2A
        || b == 0x2B || b == 0x2D || b == 0x2F || b == 0x3D || b == 0x3F || b == 0x5E || b == 0x5F
        || b == 0x60 || b == 0x7B || b == 0x7C || b == 0x7D || b == 0x7E
}

/// `atext` as the fast validator reads it: ASCII letters and digits, the
/// `atext` punctuation, and, permissively, every byte of a non-ASCII scalar.
pub open spec fn is_atext_b(b: u8) -> bool {
    is_alpha_b(b) || is_digit_b(b) || is_atext_punct_b(b) || b >= 0x80
}

/// `atext` as the grammar parser reads it: strict ASCII, per RFC 5322 section 3.2.3.
pub open spec fn is_atext_ascii_b(b: u8) -> bool {
    is_alpha_b(b) || is_digit_b(b) || is_atext_punct_b(b)
}

/// A visible (printing) ASCII character, `VCHAR`: `0x21 ..= 0x7E`.
pub open spec fn is_vchar_b(b: u8) -> bool {
    0x21 <= b <= 0x7E
}

/// Whitespace, `WSP`: space or horizontal tab.
pub open spec fn is_wsp_b(b: u8) -> bool {
    b == SP || b == HTAB
}

/// `qtext` as the fast validator reads it: the ASCII characters legal inside
/// a quoted string without escaping, plus every byte of a non-ASCII scalar.
pub open spec fn is_qtext_b(b: u8) -> bool {
    b == 0x21 || (0x23 <= b <= 0x5B) || (0x5D <= b <= 0x7E) || b >= 0x80
}

/// `qtext` as the grammar parser reads it: strict ASCII, per RFC 5322 section 3.2.4.
pub open spec fn is_qtext_ascii_b(b: u8) -> bool {
    b == 0x21 || (0x23 <= b <= 0x5B) || (0x5D <= b <= 0x7E)
}

/// `NO-WS-CTL`: the US-ASCII control characters that are not whitespace.
pub open spec fn is_no_ws_ctl_b(b: u8) -> bool {
    (0x01 <= b <= 0x08) || b == 0x0B || b == 0x0C || (0x0E <= b <= 0x1F) || b == 0x7F
}

/// `dtext`, the characters legal inside a domain literal: printable ASCII
/// except `[`, `]` and `\`.
pub open spec fn is_dtext_b(b: u8) -> bool {
    (0x21 <= b <= 0x5A) || (0x5E <= b <= 0x7E)
}

/// The ASCII whitespace characters that padding around a display name skips.
pub open spec fn is_ascii_space_b(b: u8) -> bool {
    b == SP || b == HTAB || b == LF || b == 0x0B || b == 0x0C || b == CR
}

/// Decides [`is_digit_b`].
pub fn digit_b(b: u8) -> (r: bool)
    ensures
        r == is_digit_b(b),
{
    0x30 <= b && b <= 0x39
}

/// Decides [`is_atext_b`].
pub fn atext_b(b: u8) -> (r: bool)
    ensures
        r == is_atext_b(b),
{
    (0x41 <= b && b <= 0x5A) || (0x61 <= b && b <= 0x7A) || (0x30 <= b && b <= 0x39) || b == 0x21
        || b == 0x23 || b == 0x24 || b == 0x25 || b == 0x26 || b == 0x27 || b == 0x2A || b == 0x2B
        || b == 0x2D || b == 0x2F || b == 0x3D || b == 0x3F || b == 0x5E || b == 0x5F || b == 0x60
        || b == 0x7B || b == 0x7C || b == 0x7D || b == 0x7E || b >= 0x80
}

/// Decides [`is_atext_ascii_b`].
pub fn atext_ascii_b(b: u8) -> (r: bool)
    ensures
        r == is_atext_ascii_b(b),
{
    (0x41 <= b && b <= 0x5A) || (0x61 <= b && b <= 0x7A) || (0x30 <= b && b <= 0x39) || b == 0x21
        || b == 0x23 || b == 0x24 || b == 0x25 || b == 0x26 || b == 0x27 || b == 0x2A || b == 0x2B
        || b == 0x2D || b == 0x2F || b == 0x3D || b == 0x3F || b == 0x5E || b == 0x5F || b == 0x60
        || b == 0x7B || b == 0x7C || b == 0x7D || b == 0x7E
}

/// Decides [`is_vchar_b`].
pub fn vchar_b(b: u8) -> (r: bool)
    ensures
        r == is_vchar_b(b),
{
    0x21 <= b && b <= 0x7E
}

/// Decides [`is_wsp_b`].
pub fn wsp_b(b: u8) -> (r: bool)
    ensures
        r == is_wsp_b(b),
{
    b == SP || b == HTAB
}

/// Decides [`is_qtext_b`].
pub fn qtext_b(b: u8) -> (r: bool)
    ensures
        r == is_qtext_b(b),
{
    b == 0x21 || (0x23 <= b && b <= 0x5B) || (0x5D <= b && b <= 0x7E) || b >= 0x80
}

/// Decides [`is_qtext_ascii_b`].
pub fn qtext_ascii_b(b: u8) -> (r: bool)
    ensures
        r == is_qtext_ascii_b(b),
{
    b == 0x21 || (0x23 <= b && b <= 0x5B) || (0x5D <= b && b <= 0x7E)
}

/// Decides [`is_no_ws_ctl_b`].
pub fn no_ws_ctl_b(b: u8) -> (r: bool)
    ensures
        r == is_no_ws_ctl_b(b),
{
    (0x01 <= b && b <= 0x08) || b == 0x0B || b == 0x0C || (0x0E <= b && b <= 0x1F) || b == 0x7F
}

/// Decides [`is_dtext_b`].
pub fn dtext_b(b: u8) -> (r: bool)
    ensures
        r == is_dtext_b(b),
{
    (0x21 <= b && b <= 0x5A) || (0x5E <= b && b <= 0x7E)
}

/// Decides [`is_ascii_space_b`].
pub fn ascii_space_b(b: u8) -> (r: bool)
    ensures
        r == is_ascii_space_b(b),
{
    b == SP || b == HTAB || b == LF || b == 0x0B || b == 0x0C || b == CR
}

} // verus!
