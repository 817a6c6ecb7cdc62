//! Compiled regular expressions (the `regex` crate) with the pattern text
//! they were compiled from.

use vstd::prelude::*;

verus! {

#[verifier::external_type_specification]
#[verifier::external_body]
pub struct ExRegex(regex::Regex);

/// Whether `regex::Regex::new` accepts a pattern (with its default limits).
pub uninterp spec fn regex_compiles(pattern: Seq<char>) -> bool;

/// Whether `regex::Regex::is_match` finds a match of `pattern` anywhere in `haystack`.
pub uninterp spec fn regex_finds(pattern: Seq<char>, haystack: Seq<char>) -> bool;

/// A compiled regular expression together with its pattern text.
#[derive(Debug)]
pub struct CompiledPattern {
    regex: regex::Regex,
    source: String,
}

impl View for CompiledPattern {
    type V = Seq<char>;

    /// The pattern text the expression was compiled from.
    closed spec fn view(&self) -> Seq<char> {
        self.source@
    }
}

impl CompiledPattern {
    /// Compiles a pattern with `regex::Regex::new`; on failure, the regex
    /// crate's error message.
    #[verifier::external_body]
    pub(crate) fn compile(pattern: &str) -> (r: Result<CompiledPattern, String>)
        ensures
            r is Ok <==> regex_compiles(pattern@),
            r matches Ok(p) ==> p@ == pattern@,
    {
        match regex::Regex::new(pattern) {
            Ok(regex) => Ok(CompiledPattern { regex, source: pattern.to_string() }),
            Err(e) => Err(e.to_string()),
        }
    }

    /// Whether the expression matches anywhere in `haystack` (`regex::Regex::is_match`).
    #[verifier::external_body]
    pub(crate) fn is_match(&self, haystack: &str) -> (r: bool)
        ensures
            r == regex_finds(self@, haystack@),
    {
        self.regex.is_match(haystack)
    }
}

} // verus!
