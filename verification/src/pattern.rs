//! A compiled text pattern paired with its source text. Equality and
//! ordering of patterns go by the source text alone, which lets rules
//! holding patterns be compared for duplicate detection.

use vstd::prelude::*;

verus! {

/// Whether the pattern text is a well-formed regular expression.
pub uninterp spec fn spec_regex_compiles(pattern: Seq<char>) -> bool;

/// Whether the pattern matches somewhere inside the text.
pub uninterp spec fn spec_regex_matches(pattern: Seq<char>, text: Seq<char>) -> bool;

#[verifier::external_type_specification]
#[verifier::external_body]
pub struct ExRegex(regex::Regex);

/// A regular expression that can be tested for equality, by its source text.
#[derive(Debug)]
pub struct EqRegex {
    source: String,
    compiled: regex::Regex,
}

impl EqRegex {
    /// The pattern text this value was compiled from.
    pub closed spec fn view(&self) -> Seq<char> {
        self.source@
    }

    /// Relies on `regex::Regex::new`: compilation succeeds exactly on
    /// well-formed pattern text, and the compiled value matches as the
    /// pattern text prescribes.
    #[verifier::external_body]
    pub fn new(pattern: &str) -> (r: Option<EqRegex>)
        ensures
            r.is_some() == spec_regex_compiles(pattern@),
            r.is_some() ==> r.unwrap()@ == pattern@,
    {
        match regex::Regex::new(pattern) {
            Ok(compiled) => Some(EqRegex { source: pattern.to_owned(), compiled }),
            Err(_) => None,
        }
    }

    /// Relies on `regex::Regex::is_match`: true exactly when there is a
    /// match for the pattern anywhere in the text; the result is a
    /// function of the pattern text and the text alone.
    #[verifier::external_body]
    pub fn is_match(&self, text: &str) -> (r: bool)
        ensures
            r == spec_regex_matches(self@, text@),
    {
        self.compiled.is_match(text)
    }

    /// The pattern text.
    pub fn as_str(&self) -> (r: &str)
        ensures
            r@ == self@,
    {
        self.source.as_str()
    }

    /// Whether two patterns have the same source text.
    pub fn same_pattern(&self, other: &EqRegex) -> (r: bool)
        ensures
            r == (self@ == other@),
    {
        crate::strutil::str_eq(self.as_str(), other.as_str())
    }
}

} // verus!
