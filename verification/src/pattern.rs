//! Patterns: regular expressions that are tried on a text.

use vstd::prelude::*;

use crate::text::has_piece;

verus! {

/// Whether a regular expression that can be read matches anywhere in a text.
pub uninterp spec fn regex_matches(pattern: Seq<char>, text: Seq<char>) -> bool;

/// A letter or digit of ASCII, or a space: in a regular expression each of these
/// stands for itself.
pub open spec fn is_plain_char(c: char) -> bool {
    ||| 'a' <= c <= 'z'
    ||| 'A' <= c <= 'Z'
    ||| '0' <= c <= '9'
    ||| c == ' '
}

/// A regular expression that is read whatever the machine, as the text it is: at
/// most a thousand characters, each standing for itself.
pub open spec fn is_plain(pattern: Seq<char>) -> bool {
    &&& pattern.len() <= 1000
    &&& forall|i: int| 0 <= i < pattern.len() ==> is_plain_char(#[trigger] pattern[i])
}

/// `regex::Regex::new`, and `Regex::is_match` on what it returns; nothing where
/// it returns an error. What a match says is a function of the expression and
/// the text alone, named [`regex_matches`]. A plain expression is always read,
/// and matches where it stands in the text as it is. Of other expressions it is
/// left unsaid which are read: besides those that are malformed, `Regex::new`
/// refuses those whose compiled form takes too many bytes, and how many it takes
/// depends on the machine.
#[verifier::external_body]
pub(crate) fn try_regex(pattern: &str, text: &str) -> (said: Option<bool>)
    ensures
        said matches Some(hit) ==> hit == regex_matches(pattern@, text@),
        is_plain(pattern@) ==> said == Some(has_piece(text@, pattern@)),
{
    match regex::Regex::new(pattern) {
        Ok(regex) => Some(regex.is_match(text)),
        Err(_) => None,
    }
}

/// `said` is what `Regex::new` and `Regex::is_match` can reply when this pattern
/// is tried on this text: a result of [`try_regex`] on the two, and of nothing
/// else.
pub closed spec fn regex_says(pattern: Seq<char>, text: Seq<char>, said: Option<bool>) -> bool {
    exists|p: &str, t: &str|
        p@ == pattern && t@ == text && #[trigger] call_ensures(try_regex, (p, t), said)
}

/// Try a pattern on a text: whether it matches, or nothing where it cannot be
/// read.
pub fn try_pattern(pattern: &str, text: &str) -> (said: Option<bool>)
    ensures
        regex_says(pattern@, text@, said),
        said matches Some(hit) ==> hit == regex_matches(pattern@, text@),
        is_plain(pattern@) ==> said == Some(has_piece(text@, pattern@)),
{
    let said = try_regex(pattern, text);
    assert(call_ensures(try_regex, (pattern, text), said));
    said
}

/// What a pattern says is a reply to that pattern on that text, and no other: some
/// call of `try_regex` on just these two gave it.
pub(crate) proof fn law_regex_says_is_a_reply(
    pattern: Seq<char>,
    text: Seq<char>,
    said: Option<bool>,
)
    requires
        regex_says(pattern, text, said),
    ensures
        exists|p: &str, t: &str|
            p@ == pattern && t@ == text && #[trigger] call_ensures(try_regex, (p, t), said),
        said matches Some(hit) ==> hit == regex_matches(pattern, text),
        is_plain(pattern) ==> said == Some(has_piece(text, pattern)),
{
}

/// Trying a pattern gives a reply to that pattern on that text.
pub proof fn law_try_pattern(pattern: &str, text: &str, said: Option<bool>)
    requires
        call_ensures(try_pattern, (pattern, text), said),
    ensures
        regex_says(pattern@, text@, said),
        said matches Some(hit) ==> hit == regex_matches(pattern@, text@),
        is_plain(pattern@) ==> said is Some,
{
}

} // verus!
