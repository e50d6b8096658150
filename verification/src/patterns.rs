//! The regular expressions of the library, matched by the `regex` crate, and
//! what they match on the texts where that can be said briefly.

use crate::text::{ascii_char, ascii_digit, ascii_space, ascii_text, ascii_upper};
use regex::Regex;
use vstd::prelude::*;

verus! {

/// A leading track number with the punctuation behind it.
pub const TRACK_NUMBER: &'static str = r"^\d+[\.\-\s]+";

/// A bracket of any style.
pub const BRACKET: &'static str = r"[\(\)\[\]\{\}]";

/// A year of the last or this century alone in brackets.
pub const BRACKETED_YEAR: &'static str = r"[\[({]\s*(?:19|20)\d{2}\s*[\])}]";

/// A whole title that identifies no track.
pub const GENERIC_TITLE: &'static str =
    r"(?i)^((untitled|unknown|cd\s*track|track|audio|recording)(\s*\d+)?|\d+)$";

/// One of the expressions of this library, each of which compiles.
pub open spec fn known_pattern(p: Seq<char>) -> bool {
    p == TRACK_NUMBER@ || p == BRACKET@ || p == BRACKETED_YEAR@ || p == GENERIC_TITLE@
}

/// `Regex::replace_all`: every match of a pattern in a text replaced.
pub uninterp spec fn regex_replace_all(pattern: Seq<char>, text: Seq<char>, with: Seq<char>) -> Seq<char>;

/// `Regex::replace`: the first match of a pattern in a text replaced.
pub uninterp spec fn regex_replace(pattern: Seq<char>, text: Seq<char>, with: Seq<char>) -> Seq<char>;

/// `Regex::is_match`: whether a pattern matches anywhere in a text.
pub uninterp spec fn regex_is_match(pattern: Seq<char>, text: Seq<char>) -> bool;

// ---------------------------------------------------------------------------
// What the expressions match
// ---------------------------------------------------------------------------

/// A bracket of any style.
pub open spec fn bracket(c: char) -> bool {
    c == '(' || c == ')' || c == '[' || c == ']' || c == '{' || c == '}'
}

/// An opening bracket of any style.
pub open spec fn opening(c: char) -> bool {
    c == '[' || c == '(' || c == '{'
}

/// A closing bracket of any style.
pub open spec fn closing(c: char) -> bool {
    c == ']' || c == ')' || c == '}'
}

/// Every bracket made a space.
pub open spec fn brackets_spaced(s: Seq<char>) -> Seq<char> {
    s.map_values(|c: char| if bracket(c) { ' ' } else { c })
}

/// How many of the first characters of `s` are ASCII digits.
pub open spec fn digit_run(s: Seq<char>) -> nat
    decreases s.len(),
{
    if s.len() > 0 && ascii_digit(s[0]) {
        1 + digit_run(s.skip(1))
    } else {
        0
    }
}

/// How many of the first characters of `s` are ASCII white space.
pub open spec fn space_run(s: Seq<char>) -> nat
    decreases s.len(),
{
    if s.len() > 0 && ascii_space(s[0]) {
        1 + space_run(s.skip(1))
    } else {
        0
    }
}

/// How many of the first characters of `s` may stand behind a track number.
pub open spec fn mark_run(s: Seq<char>) -> nat
    decreases s.len(),
{
    if s.len() > 0 && (s[0] == '.' || s[0] == '-' || ascii_space(s[0])) {
        1 + mark_run(s.skip(1))
    } else {
        0
    }
}

/// The text without its track number: without the digits it starts with and
/// the dots, hyphens and spaces behind them, where it has both.
pub open spec fn unnumbered(s: Seq<char>) -> Seq<char> {
    let digits = digit_run(s);
    let marks = mark_run(s.skip(digits as int));
    if digits > 0 && marks > 0 {
        s.skip((digits + marks) as int)
    } else {
        s
    }
}

/// Whether the characters that end the digits and the marks at the start of
/// `s` are ASCII characters, so that no other script has a part in the number.
pub open spec fn ascii_numbered(s: Seq<char>) -> bool {
    let digits = digit_run(s) as int;
    let marks = mark_run(s.skip(digits)) as int;
    (digits < s.len() ==> ascii_char(s[digits])) && (digits + marks < s.len() ==> ascii_char(
        s[digits + marks],
    ))
}

/// The length of the bracketed year at the start of an ASCII text, if one
/// stands there.
pub open spec fn year_len(s: Seq<char>) -> Option<nat> {
    if s.len() == 0 || !opening(s[0]) {
        None
    } else {
        let inner = s.skip(1);
        let year = inner.skip(space_run(inner) as int);
        if year.len() < 4 || !(year.take(2) == seq!['1', '9'] || year.take(2) == seq!['2', '0'])
            || !ascii_digit(year[2]) || !ascii_digit(year[3]) {
            None
        } else {
            let tail = year.skip(4);
            let end = tail.skip(space_run(tail) as int);
            if end.len() > 0 && closing(end[0]) {
                Some((s.len() - end.len() + 1) as nat)
            } else {
                None
            }
        }
    }
}

/// An ASCII text with every bracketed year made a space.
pub open spec fn years_spaced(s: Seq<char>) -> Seq<char>
    decreases s.len(),
{
    if s.len() == 0 {
        s
    } else {
        match year_len(s) {
            Some(n) => if 0 < n <= s.len() {
                seq![' '] + years_spaced(s.skip(n as int))
            } else {
                s
            },
            None => seq![s[0]] + years_spaced(s.skip(1)),
        }
    }
}

/// Nothing, or white space and then a number.
pub open spec fn number_tail(s: Seq<char>) -> bool {
    let number = s.skip(space_run(s) as int);
    s.len() == 0 || (number.len() > 0 && digit_run(number) == number.len())
}

/// `word`, then nothing or a number.
pub open spec fn numbered_word(s: Seq<char>, word: Seq<char>) -> bool {
    word.is_prefix_of(s) && number_tail(s.skip(word.len() as int))
}

/// A title in lowercase ASCII that identifies no track: a bare number, or one
/// of a few words, with or without a number.
pub open spec fn generic_title(s: Seq<char>) -> bool {
    ||| s.len() > 0 && digit_run(s) == s.len()
    ||| numbered_word(s, "untitled"@)
    ||| numbered_word(s, "unknown"@)
    ||| numbered_word(s, "track"@)
    ||| numbered_word(s, "audio"@)
    ||| numbered_word(s, "recording"@)
    ||| "cd"@.is_prefix_of(s) && numbered_word(
        s.skip(2).skip(space_run(s.skip(2)) as int),
        "track"@,
    )
}

/// ASCII without capital letters.
pub open spec fn lowercase_ascii(s: Seq<char>) -> bool {
    forall|i: int| 0 <= i < s.len() ==> ascii_char(#[trigger] s[i]) && !ascii_upper(s[i])
}

// ---------------------------------------------------------------------------
// The calls
// ---------------------------------------------------------------------------

/// `Regex::new` and `Regex::replace_all`: every match replaced. A bracket is
/// one character, so each becomes the replacement by itself; on ASCII text
/// `\s` and `\d` are the ASCII spaces and digits, so the bracketed years can
/// be read off from left to right.
#[verifier::external_body]
pub(crate) fn replace_every(pattern: &str, text: &str, with: &str) -> (r: String)
    requires
        known_pattern(pattern@),
    ensures
        r@ == regex_replace_all(pattern@, text@, with@),
        pattern@ == BRACKET@ && with@ == " "@ ==> r@ == brackets_spaced(text@),
        pattern@ == BRACKETED_YEAR@ && with@ == " "@ && ascii_text(text@) ==> r@ == years_spaced(
            text@,
        ),
{
    Regex::new(pattern).expect("valid pattern").replace_all(text, with).into_owned()
}

/// `Regex::new` and `Regex::replace`: the first match replaced. Where the
/// characters that delimit a track number are ASCII, it is the run of digits
/// at the start with the run of dots, hyphens and spaces behind it.
#[verifier::external_body]
pub(crate) fn replace_first(pattern: &str, text: &str, with: &str) -> (r: String)
    requires
        known_pattern(pattern@),
    ensures
        r@ == regex_replace(pattern@, text@, with@),
        pattern@ == TRACK_NUMBER@ && with@ == ""@ && ascii_numbered(text@) ==> r@ == unnumbered(
            text@,
        ),
{
    Regex::new(pattern).expect("valid pattern").replace(text, with).into_owned()
}

/// `Regex::new` and `Regex::is_match`: whether the pattern matches. On ASCII
/// text without capitals a generic title is one of the listed words, with or
/// without a number, or a bare number.
#[verifier::external_body]
pub(crate) fn matches_pattern(pattern: &str, text: &str) -> (r: bool)
    requires
        known_pattern(pattern@),
    ensures
        r == regex_is_match(pattern@, text@),
        pattern@ == GENERIC_TITLE@ && lowercase_ascii(text@) ==> r == generic_title(text@),
{
    Regex::new(pattern).expect("valid pattern").is_match(text)
}

} // verus!
