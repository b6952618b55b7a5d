//! The errors that the library reports.

use vstd::prelude::*;
use vstd::string::*;

verus! {

/// What can go wrong in the library itself. Failures of the window manager
/// or of the windowing system are not among them: the library never talks to
/// either.
#[derive(Clone, Debug, PartialEq, Eq)]
pub enum UtilError {
    /// A pattern given by the caller is no valid regular expression. The
    /// pattern is kept as it was given.
    Pattern(String),
    /// The text that should hold the window manager's tree is no JSON.
    Document,
    /// A text that should be a number is none, or none that fits. The text is
    /// kept as it was found.
    Number(String),
    /// What was looked for is not there.
    NotFound,
    /// No cache directory can be named for this user.
    NoCacheDirectory,
}

impl UtilError {
    /// Whether this is the report of the given pattern as invalid.
    pub open spec fn is_pattern(self, pattern: Seq<char>) -> bool {
        self matches UtilError::Pattern(given) && given@ == pattern
    }

    /// Whether this is the report of the given text as no number.
    pub open spec fn is_number(self, text: Seq<char>) -> bool {
        self matches UtilError::Number(given) && given@ == text
    }

    /// A sentence that says what went wrong.
    pub fn message(&self) -> (text: String)
        ensures
            text@ == match *self {
                UtilError::Pattern(pattern) => "invalid pattern: "@ + pattern@,
                UtilError::Document => "the tree is not a JSON document"@,
                UtilError::Number(text) => "not a number: "@ + text@,
                UtilError::NotFound => "not found"@,
                UtilError::NoCacheDirectory => "no cache directory is known"@,
            },
    {
        match self {
            UtilError::Pattern(pattern) => {
                let mut text = String::from_str("invalid pattern: ");
                text.append(pattern.as_str());
                text
            },
            UtilError::Document => String::from_str("the tree is not a JSON document"),
            UtilError::Number(found) => {
                let mut text = String::from_str("not a number: ");
                text.append(found.as_str());
                text
            },
            UtilError::NotFound => String::from_str("not found"),
            UtilError::NoCacheDirectory => String::from_str("no cache directory is known"),
        }
    }
}

} // verus!
