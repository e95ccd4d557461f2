//! Regular expressions matched against dotted names.

use vstd::prelude::*;
use regex::bytes::Regex;

verus! {

#[verifier::external_type_specification]
#[verifier::external_body]
pub struct ExRegex(regex::bytes::Regex);

#[verifier::external_type_specification]
#[verifier::external_body]
pub struct ExRegexError(regex::Error);

/// Whether the regular expression written `pattern` matches somewhere in
/// `haystack` (an unanchored search, as `regex::bytes::Regex::is_match` does).
pub uninterp spec fn regex_matches(pattern: Seq<char>, haystack: Seq<u8>) -> bool;

/// Relies on regex::bytes::Regex::new: compiles `source` with the default
/// options, or reports why it cannot.
#[verifier::external_body]
fn compile(source: &str) -> (r: Result<Regex, regex::Error>) {
    Regex::new(source)
}

/// A regular expression together with the text it was compiled from.
pub struct Pattern {
    source: String,
    regex: Regex,
}

impl View for Pattern {
    type V = Seq<char>;

    /// The text of the expression.
    closed spec fn view(&self) -> Seq<char> {
        self.source@
    }
}

impl Pattern {
    /// Compiles `source`; an invalid expression gives the compiler's error.
    pub fn new(source: &str) -> (r: Result<Pattern, regex::Error>)
        ensures
            r matches Ok(p) ==> p@ == source@,
    {
        match compile(source) {
            Ok(regex) => Ok(Pattern { source: source.to_owned(), regex }),
            Err(e) => Err(e),
        }
    }

    /// The text the expression was compiled from.
    pub fn as_str(&self) -> (r: &str)
        ensures
            r@ == self@,
    {
        self.source.as_str()
    }

    /// Relies on regex::bytes::Regex::is_match: whether the expression, which
    /// was compiled from `self.source` by `new`, matches somewhere in `haystack`.
    #[verifier::external_body]
    pub(crate) fn search(&self, haystack: &[u8]) -> (r: bool)
        ensures
            r == regex_matches(self@, haystack@),
    {
        self.regex.is_match(haystack)
    }
}

/// The texts of a list of patterns.
pub open spec fn pattern_sources(patterns: Seq<Pattern>) -> Seq<Seq<char>> {
    patterns.map_values(|p: Pattern| p@)
}

} // verus!
