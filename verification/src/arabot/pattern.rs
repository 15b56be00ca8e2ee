use vstd::prelude::*;

verus! {

/// `regex::Regex`, a compiled regular expression; opaque here.
#[verifier::external_type_specification]
#[verifier::external_body]
pub struct ExRegex(regex::Regex);

/// `regex::Error`, why a pattern does not compile; opaque here.
#[verifier::external_type_specification]
#[verifier::external_body]
pub struct ExRegexError(regex::Error);

/// Whether `regex::Regex::new` accepts `pattern` (valid syntax, within the default size limit).
pub uninterp spec fn regex_compiles(pattern: Seq<char>) -> bool;

/// What `regex::Regex::is_match` answers for a regex built from `pattern` on `haystack`.
pub uninterp spec fn regex_is_match(pattern: Seq<char>, haystack: Seq<char>) -> bool;

/// The text of the leftmost-first match that `regex::Regex::find` reports for a regex built
/// from `pattern` on `haystack` (meaningful where there is a match).
pub uninterp spec fn regex_find(pattern: Seq<char>, haystack: Seq<char>) -> Seq<char>;

/// The text of capture group 1 in what `regex::Regex::captures` reports for a regex built from
/// `pattern` on `haystack`; `None` where there is no match or the group took no part in it.
pub uninterp spec fn regex_group1(pattern: Seq<char>, haystack: Seq<char>) -> Option<Seq<char>>;

/// A compiled regular expression together with the pattern it was compiled from.
/// Only `compile_pattern` builds one, so the two always belong together.
pub struct Pattern {
    source: String,
    compiled: regex::Regex,
}

impl Pattern {
    /// The pattern this regular expression was compiled from.
    pub closed spec fn source(&self) -> Seq<char> {
        self.source@
    }

    /// The pattern this regular expression was compiled from.
    pub fn source_text(&self) -> (r: &String)
        ensures
            r@ == self.source(),
    {
        &self.source
    }
}

/// Calls `regex::Regex::new(pattern)`. Claims that it succeeds exactly where the pattern
/// compiles, and that the result keeps the pattern it came from; the error is handed back as is.
#[verifier::external_body]
pub(crate) fn compile_pattern(pattern: &str) -> (r: Result<Pattern, regex::Error>)
    ensures
        r is Ok <==> regex_compiles(pattern@),
        r matches Ok(p) ==> p.source() == pattern@,
{
    match regex::Regex::new(pattern) {
        Ok(compiled) => Ok(Pattern { source: pattern.to_string(), compiled }),
        Err(e) => Err(e),
    }
}

/// Calls `regex::Regex::is_match`. Claims only that the answer is the one named
/// `regex_is_match` for the pattern and the haystack; what that answer is stays unsaid.
#[verifier::external_body]
pub(crate) fn pattern_is_match(p: &Pattern, haystack: &str) -> (r: bool)
    ensures
        r == regex_is_match(p.source(), haystack@),
{
    p.compiled.is_match(haystack)
}

/// Calls `regex::Regex::find` and takes the text of the match. Claims that a match is
/// reported exactly where `is_match` answers true (both say whether the haystack holds a
/// match), and that its text is the one named `regex_find`.
#[verifier::external_body]
pub(crate) fn pattern_find(p: &Pattern, haystack: &str) -> (r: Option<String>)
    ensures
        r is Some <==> regex_is_match(p.source(), haystack@),
        r matches Some(m) ==> m@ == regex_find(p.source(), haystack@),
{
    match p.compiled.find(haystack) {
        Some(m) => Some(m.as_str().to_string()),
        None => None,
    }
}

/// Calls `regex::Regex::captures` and takes the text of group 1. Claims only that the
/// result is the one named `regex_group1` for the pattern and the haystack.
#[verifier::external_body]
pub(crate) fn pattern_group1(p: &Pattern, haystack: &str) -> (r: Option<String>)
    ensures
        r is None <==> regex_group1(p.source(), haystack@) is None,
        r matches Some(g) ==> regex_group1(p.source(), haystack@) == Some(g@),
{
    match p.compiled.captures(haystack) {
        Some(caps) => match caps.get(1) {
            Some(m) => Some(m.as_str().to_string()),
            None => None,
        },
        None => None,
    }
}

} // verus!
