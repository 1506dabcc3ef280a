//! Pattern search on text, done by the `regex` crate.

use regex::Regex;
use vstd::prelude::*;

verus! {

/// The capture groups that the `regex` crate finds for the leftmost match of
/// `pattern` in `text`: group 0 is the whole match, group `i` the text that
/// the `i`-th parenthesis of the pattern took, or `None` where it took no
/// part in the match. The whole is `None` where nothing matches or `pattern`
/// is no valid pattern.
pub uninterp spec fn pattern_groups(pattern: Seq<char>, text: Seq<char>) -> Option<
    Seq<Option<Seq<char>>>,
>;

/// The texts of a list of groups.
pub open spec fn texts(groups: Seq<Option<String>>) -> Seq<Option<Seq<char>>> {
    Seq::new(
        groups.len(),
        |i: int|
            match groups[i] {
                Some(group) => Some(group@),
                None => None,
            },
    )
}

/// The texts of the groups of a search, where it found any.
pub open spec fn found_texts(groups: Option<Vec<Option<String>>>) -> Option<
    Seq<Option<Seq<char>>>,
> {
    match groups {
        Some(found) => Some(texts(found@)),
        None => None,
    }
}

/// `Regex::new` on `pattern`, then `Regex::captures` on `text`, with the
/// groups handed out as owned strings in the order of `Captures::iter`. What
/// comes back depends on the two texts alone and is what [`pattern_groups`]
/// names; nothing else is claimed of it.
#[verifier::external_body]
pub(crate) fn captures(pattern: &str, text: &str) -> (groups: Option<Vec<Option<String>>>)
    ensures
        found_texts(groups) == pattern_groups(pattern@, text@),
{
    match Regex::new(pattern) {
        Ok(compiled) => compiled.captures(text).map(
            |found| found.iter().map(|group| group.map(|part| part.as_str().to_string())).collect(),
        ),
        Err(_) => None,
    }
}

} // verus!
