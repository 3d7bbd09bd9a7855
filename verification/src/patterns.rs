//! The two textual formats the validators enforce, and the regex crate
//! that enforces them.
use vstd::prelude::*;
use crate::text::is_white;

verus! {

/// The URL format: `http` or `https` (letters in any case), `://`, then at
/// least one character that is neither white space nor `<`, `>` or `"`.
pub const URL_PATTERN: &'static str = r#"(?i)^https?://[^\s<>"]+$"#;

/// The colour format: `#` followed by exactly eight hexadecimal digits.
pub const COLOR_PATTERN: &'static str = r"^#[0-9a-fA-F]{8}$";

/// Characters that `URL_PATTERN` does not admit after the scheme.
pub open spec fn url_forbidden(c: char) -> bool {
    is_white(c) || c == '<' || c == '>' || c == '"'
}

/// `c` matches the letter `lower` under the regex crate's Unicode simple case
/// folding, for the letters h, t, p, s (where `s` also folds with U+017F `ſ`).
pub open spec fn folds_to(c: char, lower: char) -> bool {
    c == lower || (c as u32) == (lower as u32) - 32 || (lower == 's' && c == '\u{17f}')
}

/// The rest of a URL after its scheme and `://`.
pub open spec fn url_tail_ok(t: Seq<char>) -> bool {
    t.len() > 0 && forall|i: int| 0 <= i < t.len() ==> !url_forbidden(#[trigger] t[i])
}

pub open spec fn starts_http(s: Seq<char>) -> bool {
    s.len() >= 4 && folds_to(s[0], 'h') && folds_to(s[1], 't') && folds_to(s[2], 't') && folds_to(s[3], 'p')
}

pub open spec fn colon_slashes_at(s: Seq<char>, i: int) -> bool {
    s.len() >= i + 3 && s[i] == ':' && s[i + 1] == '/' && s[i + 2] == '/'
}

/// The strings that `URL_PATTERN` matches in full.
pub open spec fn url_shape(s: Seq<char>) -> bool {
    starts_http(s) && (
        (colon_slashes_at(s, 4) && url_tail_ok(s.skip(7)))
        || (s.len() > 4 && folds_to(s[4], 's') && colon_slashes_at(s, 5) && url_tail_ok(s.skip(8)))
    )
}

pub open spec fn is_hex_digit(c: char) -> bool {
    ('0' <= c <= '9') || ('a' <= c <= 'f') || ('A' <= c <= 'F')
}

/// The strings that `COLOR_PATTERN` matches in full.
pub open spec fn color_shape(s: Seq<char>) -> bool {
    s.len() == 9 && s[0] == '#' && forall|i: int| 1 <= i < 9 ==> is_hex_digit(#[trigger] s[i])
}

/// `regex::Regex::new(pattern)` then `Regex::is_match(text)`, for the two
/// patterns of this module. The contract claims that the regex crate matches
/// exactly the strings its syntax documents for these patterns (`^`/`$` anchor
/// at the ends of the text, `(?i)` applies Unicode simple case folding, `\s`
/// is the Unicode `White_Space` class). Both patterns compile; were compiling
/// to fail, the body answers `false`.
#[verifier::external_body]
fn regex_is_match(pattern: &str, text: &str) -> (r: bool)
    requires
        pattern@ == URL_PATTERN@ || pattern@ == COLOR_PATTERN@,
    ensures
        pattern@ == URL_PATTERN@ ==> r == url_shape(text@),
        pattern@ == COLOR_PATTERN@ ==> r == color_shape(text@),
{
    match regex::Regex::new(pattern) {
        Ok(re) => re.is_match(text),
        Err(_) => false,
    }
}

/// Whether `s` is a URL of the accepted format.
pub fn is_url(s: &str) -> (r: bool)
    ensures
        r == url_shape(s@),
{
    regex_is_match(URL_PATTERN, s)
}

/// Whether `s` is a colour of the accepted format.
pub fn is_color(s: &str) -> (r: bool)
    ensures
        r == color_shape(s@),
{
    regex_is_match(COLOR_PATTERN, s)
}

} // verus!
