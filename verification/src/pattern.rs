//! Compiled regular expressions, held behind a type whose contracts speak of
//! the pattern's source text alone.

use vstd::prelude::*;

use crate::errors::ContentTypeError;

verus! {

/// Whether `regex::Regex::new` accepts `pattern` as a regular expression.
pub uninterp spec fn regex_valid(pattern: Seq<char>) -> bool;

/// Whether the regular expression compiled from `pattern` matches somewhere
/// inside `text`.
pub uninterp spec fn regex_match(pattern: Seq<char>, text: Seq<char>) -> bool;

#[verifier::external_type_specification]
#[verifier::external_body]
pub struct ExRegex(regex::Regex);

#[verifier::external_type_specification]
#[verifier::external_body]
pub struct ExRegexError(regex::Error);

/// A compiled pattern paired with the source text it was compiled from.
pub struct RegexWrapper {
    source: String,
    compiled: regex::Regex,
}

impl RegexWrapper {
    /// The source text the pattern was compiled from.
    pub closed spec fn src(&self) -> Seq<char> {
        self.source@
    }

    /// Relies on regex::Regex::new: with the default configuration it accepts
    /// or rejects a pattern as a function of the pattern text alone, and the
    /// returned value matches exactly as that pattern prescribes.
    #[verifier::external_body]
    fn compile(pattern: &str) -> (r: Result<RegexWrapper, regex::Error>)
        ensures
            r is Ok <==> regex_valid(pattern@),
            r matches Ok(w) ==> w.src() == pattern@,
    {
        match regex::Regex::new(pattern) {
            Ok(compiled) => Ok(RegexWrapper { source: pattern.to_string(), compiled }),
            Err(e) => Err(e),
        }
    }

    /// Builds a pattern from source text; fails exactly on text the
    /// regular-expression engine rejects, with a bad-request decoding error.
    pub fn new(pattern: &str) -> (r: Result<RegexWrapper, ContentTypeError>)
        ensures
            r is Ok <==> regex_valid(pattern@),
            r matches Ok(w) ==> w.src() == pattern@,
            r matches Err(e) ==> e == (ContentTypeError::Other {
                status: crate::errors::STATUS_BAD_REQUEST,
            }),
    {
        match Self::compile(pattern) {
            Ok(w) => Ok(w),
            Err(_) => Err(ContentTypeError::invalid_pattern()),
        }
    }

    /// Relies on regex::Regex::is_match: whether a compiled pattern matches a
    /// text depends on the pattern source and the text alone.
    #[verifier::external_body]
    pub(crate) fn is_match(&self, text: &str) -> (r: bool)
        ensures
            r == regex_match(self.src(), text@),
    {
        self.compiled.is_match(text)
    }
}

} // verus!
