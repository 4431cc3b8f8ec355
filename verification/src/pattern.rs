//! Regular-expression matching, as the `regex` crate does it.
//!
//! The crate's matching is not restated here: what a search returns is
//! given a name, and the functions of this library say what they do with it.

use vstd::prelude::*;

verus! {

/// The capture groups of one match: group 0 is the whole match, and a group
/// that took no part in the match is `None`.
pub type Groups = Vec<Option<String>>;

/// What the groups of a match hold.
pub open spec fn groups_view(g: Seq<Option<String>>) -> Seq<Option<Seq<char>>> {
    g.map_values(
        |s: Option<String>|
            match s {
                Some(t) => Some(t@),
                None => None,
            },
    )
}

/// The groups of the leftmost match of `pattern` in `haystack`; `None` where
/// there is no match, or where `pattern` is no regular expression.
pub uninterp spec fn first_match(pattern: Seq<char>, haystack: Seq<char>) -> Option<
    Seq<Option<Seq<char>>>,
>;

/// The groups of every match of `pattern` in `haystack`, from left to right,
/// no two overlapping; empty where `pattern` is no regular expression.
pub uninterp spec fn all_matches(pattern: Seq<char>, haystack: Seq<char>) -> Seq<
    Seq<Option<Seq<char>>>,
>;

/// Whether `pattern` matches somewhere in `haystack`; `false` where `pattern`
/// is no regular expression.
pub uninterp spec fn is_match(pattern: Seq<char>, haystack: Seq<char>) -> bool;

/// A character that has a meaning of its own in a regular expression.
pub open spec fn is_meta(c: char) -> bool {
    c == '\\' || c == '.' || c == '+' || c == '*' || c == '?' || c == '(' || c == ')' || c == '|'
        || c == '[' || c == ']' || c == '{' || c == '}' || c == '^' || c == '$' || c == '#' || c
        == '&' || c == '-' || c == '~'
}

/// `text` with a backslash before each of its meta characters.
pub open spec fn escaped(text: Seq<char>) -> Seq<char>
    decreases text.len(),
{
    if text.len() == 0 {
        text
    } else if is_meta(text.last()) {
        escaped(text.drop_last()).push('\\').push(text.last())
    } else {
        escaped(text.drop_last()).push(text.last())
    }
}

/// `regex::Regex::new` and `Regex::captures`: compiles `pattern` and searches
/// `haystack` for its leftmost match. The contract names the result; it
/// claims only that the result depends on the two texts alone.
#[verifier::external_body]
pub(crate) fn captures(pattern: &str, haystack: &str) -> (r: Option<Groups>)
    ensures
        match r {
            Some(g) => first_match(pattern@, haystack@) == Some(groups_view(g@)),
            None => first_match(pattern@, haystack@).is_none(),
        },
{
    match regex::Regex::new(pattern) {
        Ok(re) => re.captures(haystack).map(
            |c| c.iter().map(|m| m.map(|m| m.as_str().to_string())).collect(),
        ),
        Err(_) => None,
    }
}

/// `regex::Regex::new` and `Regex::captures_iter`: compiles `pattern` and
/// collects the groups of each successive match in `haystack`. The contract
/// names the result; it claims only that the result depends on the two texts
/// alone.
#[verifier::external_body]
pub(crate) fn captures_all(pattern: &str, haystack: &str) -> (r: Vec<Groups>)
    ensures
        r@.map_values(|g: Groups| groups_view(g@)) == all_matches(pattern@, haystack@),
{
    match regex::Regex::new(pattern) {
        Ok(re) => re.captures_iter(haystack).map(
            |c| c.iter().map(|m| m.map(|m| m.as_str().to_string())).collect(),
        ).collect(),
        Err(_) => Vec::new(),
    }
}

/// `regex::Regex::new` and `Regex::is_match`: compiles `pattern` and tells
/// whether it matches anywhere in `haystack`. The contract names the result;
/// it claims only that the result depends on the two texts alone.
#[verifier::external_body]
pub(crate) fn has_match(pattern: &str, haystack: &str) -> (r: bool)
    ensures
        r == is_match(pattern@, haystack@),
{
    match regex::Regex::new(pattern) {
        Ok(re) => re.is_match(haystack),
        Err(_) => false,
    }
}

/// `regex::escape`: puts a backslash before each meta character of `text`,
/// and leaves the other characters as they are.
#[verifier::external_body]
pub(crate) fn escape(text: &str) -> (r: String)
    ensures
        r@ == escaped(text@),
{
    regex::escape(text)
}

} // verus!
