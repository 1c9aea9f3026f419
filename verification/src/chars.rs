//! Character classes and case mapping as std defines them (Unicode
//! properties), and scanning of a string by character class.

use vstd::prelude::*;
use vstd::string::*;

verus! {

/// Whether a character has the Unicode White_Space property: tab, line
/// feed, vertical tab, form feed, carriage return, space, next line,
/// no-break space, ogham space mark, the spaces U+2000 to U+200A, line and
/// paragraph separators, narrow no-break space, medium mathematical space
/// and ideographic space.
pub open spec fn white_space(c: char) -> bool {
    let n = c as u32;
    (0x09 <= n && n <= 0x0D) || n == 0x20 || n == 0x85 || n == 0xA0 || n == 0x1680
        || (0x2000 <= n && n <= 0x200A) || n == 0x2028 || n == 0x2029 || n == 0x202F
        || n == 0x205F || n == 0x3000
}

/// Whether a character is ASCII.
pub open spec fn ascii(c: char) -> bool {
    (c as u32) < 128
}

/// Whether a character is an ASCII letter.
pub open spec fn ascii_letter(c: char) -> bool {
    ('a' <= c && c <= 'z') || ('A' <= c && c <= 'Z')
}

/// Whether a character beyond ASCII has the Unicode Alphabetic property.
pub uninterp spec fn alphabetic_beyond_ascii(c: char) -> bool;

/// Whether a character beyond ASCII is numeric in Unicode's sense (general
/// categories Nd, Nl, No).
pub uninterp spec fn numeric_beyond_ascii(c: char) -> bool;

/// The upper-case mapping of a text that is not all ASCII, as std's
/// `str::to_uppercase` does it.
pub uninterp spec fn upper_beyond_ascii(s: Seq<char>) -> Seq<char>;

/// The lower-case mapping of a text that is not all ASCII, as std's
/// `str::to_lowercase` does it.
pub uninterp spec fn lower_beyond_ascii(s: Seq<char>) -> Seq<char>;

/// Whether a character has the Unicode Alphabetic property: on ASCII, the
/// letters.
pub open spec fn alphabetic(c: char) -> bool {
    if ascii(c) { ascii_letter(c) } else { alphabetic_beyond_ascii(c) }
}

/// Whether a character is numeric in Unicode's sense: on ASCII, the digits.
pub open spec fn numeric(c: char) -> bool {
    if ascii(c) { ascii_digit(c) } else { numeric_beyond_ascii(c) }
}

/// Whether every character of a text is ASCII.
pub open spec fn all_ascii(s: Seq<char>) -> bool {
    forall|i: int| 0 <= i < s.len() ==> ascii(#[trigger] s[i])
}

/// The upper case of an ASCII character: `a` to `z` become `A` to `Z`.
pub open spec fn ascii_upper(c: char) -> char {
    if 'a' <= c && c <= 'z' { ((c as u32) - 32) as char } else { c }
}

/// The lower case of an ASCII character: `A` to `Z` become `a` to `z`.
pub open spec fn ascii_lower(c: char) -> char {
    if 'A' <= c && c <= 'Z' { ((c as u32) + 32) as char } else { c }
}

/// The upper-case mapping of a string, as std's `str::to_uppercase` does
/// it: on ASCII text, each letter to its capital.
pub open spec fn upper_case(s: Seq<char>) -> Seq<char> {
    if all_ascii(s) { s.map_values(|c: char| ascii_upper(c)) } else { upper_beyond_ascii(s) }
}

/// The lower-case mapping of a string, as std's `str::to_lowercase` does
/// it: on ASCII text, each capital to its small letter.
pub open spec fn lower_case(s: Seq<char>) -> Seq<char> {
    if all_ascii(s) { s.map_values(|c: char| ascii_lower(c)) } else { lower_beyond_ascii(s) }
}

/// Whether a character has the White_Space property, computed.
pub fn is_white_space(c: char) -> (r: bool)
    ensures
        r == white_space(c),
{
    let n = c as u32;
    (0x09 <= n && n <= 0x0D) || n == 0x20 || n == 0x85 || n == 0xA0 || n == 0x1680
        || (0x2000 <= n && n <= 0x200A) || n == 0x2028 || n == 0x2029 || n == 0x202F
        || n == 0x205F || n == 0x3000
}

/// `char::is_alphabetic`: whether the character has the Alphabetic
/// property; std documents the ASCII letters as the ASCII characters that
/// have it.
#[verifier::external_body]
pub fn is_alphabetic(c: char) -> (r: bool)
    ensures
        r == alphabetic(c),
        !ascii(c) ==> r == alphabetic_beyond_ascii(c),
{
    c.is_alphabetic()
}

/// `char::is_numeric`: whether the character is numeric; among ASCII
/// characters, the digits are.
#[verifier::external_body]
pub fn is_numeric(c: char) -> (r: bool)
    ensures
        r == numeric(c),
        !ascii(c) ==> r == numeric_beyond_ascii(c),
{
    c.is_numeric()
}

/// `char::is_alphanumeric`: documented as alphabetic or numeric.
#[verifier::external_body]
pub fn is_alphanumeric(c: char) -> (r: bool)
    ensures
        r == (alphabetic(c) || numeric(c)),
        !ascii(c) ==> r == (alphabetic_beyond_ascii(c) || numeric_beyond_ascii(c)),
{
    c.is_alphanumeric()
}

/// `str::to_uppercase`: on ASCII text, `a` to `z` become `A` to `Z` and
/// the rest stays.
#[verifier::external_body]
pub fn to_upper(s: &str) -> (r: String)
    ensures
        r@ == upper_case(s@),
        !all_ascii(s@) ==> r@ == upper_beyond_ascii(s@),
{
    s.to_uppercase()
}

/// `str::to_lowercase`: on ASCII text, `A` to `Z` become `a` to `z` and
/// the rest stays.
#[verifier::external_body]
pub fn to_lower(s: &str) -> (r: String)
    ensures
        r@ == lower_case(s@),
        !all_ascii(s@) ==> r@ == lower_beyond_ascii(s@),
{
    s.to_lowercase()
}

/// Whether a character is an ASCII decimal digit.
pub open spec fn ascii_digit(c: char) -> bool {
    '0' <= c && c <= '9'
}

/// Whether a character is alphabetic or numeric.
pub open spec fn alphanumeric(c: char) -> bool {
    alphabetic(c) || numeric(c)
}

/// The classes of characters that the text scanners of the engine skip
/// over.
#[derive(Debug, Clone, Copy, PartialEq, Eq, Structural)]
pub enum CharClass {
    /// White space.
    White,
    /// Letters, digits, `_` and `*`: the characters of a keyword or a field.
    Word,
    /// Letters, digits and `_`: the characters of an identifier after its first.
    Ident,
    /// Letters, digits, `_`, `-` and `.`: the characters of a tag value.
    TagValue,
    /// Letters, digits, `_`, `-`, `=` and `,`.
    StringValue,
    /// Numeric characters, `.` and `-`.
    SignedNumber,
    /// Numeric characters and `.`.
    Number,
    /// Numeric characters.
    Digits,
    /// Anything but a line break.
    NotLineBreak,
    /// Anything but a closing parenthesis.
    NotParenClose,
}

/// Whether a character belongs to a class.
pub open spec fn in_class(k: CharClass, c: char) -> bool {
    match k {
        CharClass::White => white_space(c),
        CharClass::Word => alphanumeric(c) || c == '_' || c == '*',
        CharClass::Ident => alphanumeric(c) || c == '_',
        CharClass::TagValue => alphanumeric(c) || c == '_' || c == '-' || c == '.',
        CharClass::StringValue => alphanumeric(c) || c == '_' || c == '-' || c == '=' || c == ',',
        CharClass::SignedNumber => numeric(c) || c == '.' || c == '-',
        CharClass::Number => numeric(c) || c == '.',
        CharClass::Digits => numeric(c),
        CharClass::NotLineBreak => c != '\n' && c != '\r',
        CharClass::NotParenClose => c != ')',
    }
}

/// Whether a character belongs to a class, computed.
pub fn class_holds(k: CharClass, c: char) -> (r: bool)
    ensures
        r == in_class(k, c),
{
    match k {
        CharClass::White => is_white_space(c),
        CharClass::Word => is_alphanumeric(c) || c == '_' || c == '*',
        CharClass::Ident => is_alphanumeric(c) || c == '_',
        CharClass::TagValue => is_alphanumeric(c) || c == '_' || c == '-' || c == '.',
        CharClass::StringValue => is_alphanumeric(c) || c == '_' || c == '-' || c == '=' || c == ',',
        CharClass::SignedNumber => is_numeric(c) || c == '.' || c == '-',
        CharClass::Number => is_numeric(c) || c == '.',
        CharClass::Digits => is_numeric(c),
        CharClass::NotLineBreak => c != '\n' && c != '\r',
        CharClass::NotParenClose => c != ')',
    }
}

/// The position of the first character at or after `p` that is not of the
/// class (the length when all are).
pub open spec fn scan(s: Seq<char>, p: int, k: CharClass) -> int
    decreases s.len() - p,
{
    if 0 <= p < s.len() && in_class(k, s[p]) {
        scan(s, p + 1, k)
    } else {
        p
    }
}

/// Where a scan ends: not before it starts, not past the end, over
/// characters of the class only, and at a character outside it or at the end.
pub proof fn lemma_scan(s: Seq<char>, p: int, k: CharClass)
    requires
        0 <= p <= s.len(),
    ensures
        p <= scan(s, p, k) <= s.len(),
        forall|i: int| p <= i < scan(s, p, k) ==> in_class(k, #[trigger] s[i]),
        scan(s, p, k) == s.len() || !in_class(k, s[scan(s, p, k)]),
    decreases s.len() - p,
{
    if p < s.len() && in_class(k, s[p]) {
        lemma_scan(s, p + 1, k);
    }
}

/// Scans forward from `p` over characters of the class.
pub fn scan_from(s: &str, len: usize, p: usize, k: CharClass) -> (r: usize)
    requires
        len == s@.len(),
        p <= len,
    ensures
        r == scan(s@, p as int, k),
        p <= r <= len,
{
    proof { lemma_scan(s@, p as int, k); }
    let mut q = p;
    while q < len && class_holds(k, s.get_char(q))
        invariant
            len == s@.len(),
            p <= q <= len,
            scan(s@, p as int, k) == scan(s@, q as int, k),
        decreases len - q,
    {
        q = q + 1;
    }
    q
}

/// The end of the characters of `s` before any trailing white space.
pub open spec fn trim_end_pos(s: Seq<char>, e: int) -> int
    decreases e,
{
    if 0 < e <= s.len() && white_space(s[e - 1]) {
        trim_end_pos(s, e - 1)
    } else {
        e
    }
}

/// `s` without leading and trailing white space, as `str::trim` removes it.
pub open spec fn trim_seq(s: Seq<char>) -> Seq<char> {
    let b = scan(s, 0, CharClass::White);
    let e = trim_end_pos(s, s.len() as int);
    if b < e { s.subrange(b, e) } else { Seq::empty() }
}

/// A copy of `s` without leading and trailing white space.
pub fn trim(s: &str) -> (r: String)
    ensures
        r@ == trim_seq(s@),
{
    let len = s.unicode_len();
    let b = scan_from(s, len, 0, CharClass::White);
    let mut e = len;
    while e > 0 && is_white_space(s.get_char(e - 1))
        invariant
            len == s@.len(),
            e <= len,
            trim_end_pos(s@, len as int) == trim_end_pos(s@, e as int),
        decreases e,
    {
        e = e - 1;
    }
    if b < e {
        s.substring_char(b, e).to_owned()
    } else {
        String::new()
    }
}

} // verus!
