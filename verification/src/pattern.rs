//! Regular expressions, as the `regex` crate reads and matches them.

use regex::Regex;
use vstd::prelude::*;

verus! {

/// Whether `regex::Regex::new` accepts `pattern`.
pub uninterp spec fn regex_compiles(pattern: Seq<char>) -> bool;

/// Whether the regular expression that `regex::Regex::new` builds from `pattern`
/// matches anywhere in `text`, as `regex::Regex::is_match` tells.
pub uninterp spec fn regex_is_match(pattern: Seq<char>, text: Seq<char>) -> bool;

/// Calls `regex::Regex::new` and tells whether it accepted the pattern. Nothing
/// is claimed of which patterns it accepts.
#[verifier::external_body]
pub(crate) fn pattern_compiles(pattern: &str) -> (r: bool)
    ensures
        r == regex_compiles(pattern@),
{
    Regex::new(pattern).is_ok()
}

/// Builds the regular expression with `regex::Regex::new` and asks
/// `regex::Regex::is_match` whether it matches anywhere in `text`. The answer is
/// that of the crate for this pattern and this text; there is none for a pattern
/// that the crate does not accept.
#[verifier::external_body]
pub(crate) fn pattern_match(pattern: &str, text: &str) -> (r: Option<bool>)
    ensures
        r == if regex_compiles(pattern@) {
            Some(regex_is_match(pattern@, text@))
        } else {
            None
        },
{
    match Regex::new(pattern) {
        Ok(re) => Some(re.is_match(text)),
        Err(_) => None,
    }
}

/// The matches of the regular expression that `regex::Regex::new` builds from
/// `pattern`, as `regex::Regex::captures_iter` finds them in `text` from left to
/// right. Each match gives its groups in the order of `regex::Captures::iter`:
/// the whole match first, then the groups of the pattern, each with the text
/// that it matched or with nothing where it took no part in the match.
pub uninterp spec fn regex_captures(pattern: Seq<char>, text: Seq<char>) -> Seq<
    Seq<Option<Seq<char>>>,
>;

/// The groups of one match, as plain values.
pub open spec fn groups_view(groups: Seq<Option<String>>) -> Seq<Option<Seq<char>>> {
    groups.map_values(
        |g: Option<String>|
            match g {
                Some(text) => Some(text@),
                None => None,
            },
    )
}

/// The matches of a pattern, as plain values.
pub open spec fn captures_view(captures: Seq<Vec<Option<String>>>) -> Seq<
    Seq<Option<Seq<char>>>,
> {
    captures.map_values(|c: Vec<Option<String>>| groups_view(c@))
}

/// Builds the regular expression with `regex::Regex::new`, walks its matches in
/// `text` with `regex::Regex::captures_iter`, and copies the text of each group
/// of each match. What comes back is what the crate finds for this pattern in
/// this text; there is nothing for a pattern that the crate does not accept.
#[verifier::external_body]
pub(crate) fn pattern_captures(pattern: &str, text: &str) -> (r: Option<Vec<Vec<Option<String>>>>)
    ensures
        match r {
            Some(found) => regex_compiles(pattern@) && captures_view(found@) == regex_captures(
                pattern@,
                text@,
            ),
            None => !regex_compiles(pattern@),
        },
{
    match Regex::new(pattern) {
        Ok(re) => Some(
            re.captures_iter(text).map(
                |caps| caps.iter().map(|m| m.map(|m| m.as_str().to_string())).collect(),
            ).collect(),
        ),
        Err(_) => None,
    }
}

} // verus!
