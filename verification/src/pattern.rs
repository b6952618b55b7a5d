//! Regular expressions, as the `regex` crate compiles and runs them.
//!
//! What a pattern matches is not restated here: it is given a name, and the
//! contracts of the functions that search windows speak of that name. What is
//! said of the crate's functions is believed, not proved.
//!
//! A [`Pattern`] is made by [`compile`] and in no other way, so the
//! expression it holds was compiled by `Regex::new` from its source, with no
//! further setting that would change what it matches.

use crate::error::UtilError;
use vstd::prelude::*;
use vstd::string::*;

verus! {

#[verifier::external_type_specification]
#[verifier::external_body]
pub struct ExRegex(regex::Regex);

#[verifier::external_type_specification]
#[verifier::external_body]
pub struct ExRegexError(regex::Error);

/// The pattern that a compiled expression was made from.
pub uninterp spec fn regex_source(compiled: regex::Regex) -> Seq<char>;

/// Whether `regex::Regex::new` accepts a pattern.
pub uninterp spec fn pattern_valid(pattern: Seq<char>) -> bool;

/// Whether the expression compiled from `pattern` has a match somewhere in
/// `text`.
pub uninterp spec fn pattern_finds(pattern: Seq<char>, text: Seq<char>) -> bool;

/// `Regex::new`: compiles exactly the patterns that are valid, and the
/// compiled expression stands for the pattern it was given.
pub assume_specification[ regex::Regex::new ](re: &str) -> (r: Result<regex::Regex, regex::Error>)
    ensures
        r is Ok <==> pattern_valid(re@),
        r matches Ok(compiled) ==> regex_source(compiled) == re@,
;

/// A compiled pattern.
#[derive(Debug)]
pub struct Pattern {
    compiled: regex::Regex,
}

impl Pattern {
    /// The pattern as it was given to [`compile`].
    pub closed spec fn source(&self) -> Seq<char> {
        regex_source(self.compiled)
    }
}

/// `Regex::find`, asked only whether there is a match: for an expression
/// that `Regex::new` compiled, the answer depends on the pattern and the
/// text alone.
#[verifier::external_body]
pub(crate) fn finds(pattern: &Pattern, text: &str) -> (found: bool)
    ensures
        found == pattern_finds(pattern.source(), text@),
{
    pattern.compiled.find(text).is_some()
}

/// The capture groups of the first match of the expression compiled from
/// `pattern` in `text`: for each group the text it matched, if it took part
/// in the match. There are none where the expression has no match.
pub uninterp spec fn pattern_captures(pattern: Seq<char>, text: Seq<char>) -> Option<
    Seq<Option<Seq<char>>>,
>;

/// The characters of the groups of a match.
pub open spec fn group_views(groups: Option<Vec<Option<String>>>) -> Option<
    Seq<Option<Seq<char>>>,
> {
    match groups {
        Some(groups) => Some(
            groups@.map_values(
                |group: Option<String>|
                    match group {
                        Some(text) => Some(text@),
                        None => None,
                    },
            ),
        ),
        None => None,
    }
}

/// `Regex::captures` with `Captures::iter`: the groups of the first match,
/// which, for an expression that `Regex::new` compiled, depend on the
/// pattern and the text alone.
#[verifier::external_body]
pub(crate) fn captures(pattern: &Pattern, text: &str) -> (groups: Option<Vec<Option<String>>>)
    ensures
        group_views(groups) == pattern_captures(pattern.source(), text@),
{
    pattern.compiled.captures(text).map(
        |found| found.iter().map(|group| group.map(|m| m.as_str().to_string())).collect(),
    )
}

/// Compiles a pattern, or reports it as invalid.
pub fn compile(pattern: &str) -> (r: Result<Pattern, UtilError>)
    ensures
        r is Ok <==> pattern_valid(pattern@),
        r matches Ok(compiled) ==> compiled.source() == pattern@,
        r matches Err(e) ==> e matches UtilError::Pattern(given) && given@ == pattern@,
{
    match regex::Regex::new(pattern) {
        Ok(compiled) => Ok(Pattern { compiled }),
        Err(_) => Err(UtilError::Pattern(String::from_str(pattern))),
    }
}

} // verus!
