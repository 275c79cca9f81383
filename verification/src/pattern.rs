//! Compiled line and title patterns, backed by the regex crate.
//!
//! A `Pattern` pairs a compiled regular expression with the pattern text it
//! was compiled from; contracts speak of the pattern text alone, through the
//! two named results below. Whether a pattern compiles, and whether it
//! matches a given text, are functions of the pattern and text characters
//! alone, so both get uninterpreted names.

use vstd::prelude::*;

verus! {

#[verifier::external_type_specification]
#[verifier::external_body]
pub struct ExRegex(regex::Regex);

/// Relies on `regex::Regex::clone`: lets patterns and filters be cloned;
/// nothing is claimed of the cloned handle, which contracts never inspect.
pub assume_specification[ <regex::Regex as Clone>::clone ](re: &regex::Regex) -> regex::Regex;

/// Whether the regex crate accepts `pattern` as a regular expression.
pub uninterp spec fn regex_valid(pattern: Seq<char>) -> bool;

/// Whether the regular expression `pattern` matches somewhere in `text`.
pub uninterp spec fn regex_is_match(pattern: Seq<char>, text: Seq<char>) -> bool;

/// A compiled pattern, remembering its source text. The view of a `Pattern`
/// is the character sequence it was compiled from.
#[derive(Clone)]
pub struct Pattern {
    re: regex::Regex,
    source: String,
}

impl View for Pattern {
    type V = Seq<char>;

    closed spec fn view(&self) -> Seq<char> {
        self.source@
    }
}

/// Relies on `regex::Regex::new`: compiles `pattern`, succeeding exactly on
/// the patterns the regex crate accepts. The compiled expression is stored
/// beside its source text, so that `matches` may speak of the source.
#[verifier::external_body]
fn compile(pattern: &str) -> (r: Option<Pattern>)
    ensures
        r is Some <==> regex_valid(pattern@),
        r matches Some(p) ==> p@ == pattern@,
{
    match regex::Regex::new(pattern) {
        Ok(re) => Some(Pattern { re, source: pattern.to_owned() }),
        Err(_) => None,
    }
}

impl Pattern {
    /// Compiles `pattern`; `None` exactly when the regex crate rejects it.
    pub fn new(pattern: &str) -> (r: Option<Pattern>)
        ensures
            r is Some <==> regex_valid(pattern@),
            r matches Some(p) ==> p@ == pattern@,
    {
        compile(pattern)
    }

    /// Relies on `regex::Regex::is_match`: the result depends only on the
    /// pattern the expression was compiled from and on the text searched.
    #[verifier::external_body]
    pub(crate) fn is_match(&self, text: &str) -> (r: bool)
        ensures
            r == regex_is_match(self@, text@),
    {
        self.re.is_match(text)
    }
}

} // verus!
