//! Regular expressions.  Matching is the work of the `regex` crate; this
//! module gives its results names and hands them on as plain strings, and the
//! rest of the crate is verified against those names.

use vstd::prelude::*;
use regex::Regex;

verus! {

/// `regex::Regex`, a compiled regular expression.  Nothing of what it holds
/// is visible here.
#[verifier::external_type_specification]
#[verifier::external_body]
pub struct ExRegex(regex::Regex);

/// `regex::Error`, the reason why a pattern did not compile.  Nothing of what
/// it holds is visible here.
#[verifier::external_type_specification]
#[verifier::external_body]
pub struct ExRegexError(regex::Error);

/// What one search with a pattern captured: the text of each group, first the
/// whole match, then the groups of the pattern in the order of their opening
/// brackets; `None` for a group that took no part in the match.
pub type Groups = Vec<Option<String>>;

/// Whether `pattern` is a regular expression that `regex` accepts.
pub uninterp spec fn pattern_compiles(pattern: Seq<char>) -> bool;

/// The groups of the first match of `pattern` in `haystack`, `None` where the
/// pattern matches nowhere in it.
pub uninterp spec fn captures_of(pattern: Seq<char>, haystack: Seq<char>) -> Option<
    Seq<Option<Seq<char>>>,
>;

/// What `pattern` captures in `haystack` once it is compiled; nothing where
/// the pattern does not compile.
pub open spec fn search_of(pattern: Seq<char>, haystack: Seq<char>) -> Option<
    Seq<Option<Seq<char>>>,
> {
    if pattern_compiles(pattern) {
        captures_of(pattern, haystack)
    } else {
        None
    }
}

/// Compiles a pattern.
///
/// Trusted: `Regex::new` succeeds on exactly the patterns that
/// `pattern_compiles` names.
#[verifier::external_body]
fn compile(source: &str) -> (r: Result<Regex, regex::Error>)
    ensures
        r is Ok <==> pattern_compiles(source@),
{
    Regex::new(source)
}

/// A compiled pattern, kept with the text that it was compiled from.  Only
/// `Pattern::new` makes one, so the two always belong together.
pub(crate) struct Pattern {
    source: String,
    compiled: Regex,
}

impl Pattern {
    /// The text that the pattern was compiled from.
    pub(crate) closed spec fn source(&self) -> Seq<char> {
        self.source@
    }

    /// Compiles `source`; `None` where it does not compile.
    pub(crate) fn new(source: &str) -> (r: Option<Pattern>)
        ensures
            r is Some <==> pattern_compiles(source@),
            r matches Some(p) ==> p.source() == source@,
    {
        match compile(source) {
            Ok(compiled) => Some(Pattern { source: source.to_owned(), compiled }),
            Err(_) => None,
        }
    }

    /// Searches `haystack` for the first match of the pattern.
    ///
    /// Trusted: `Regex::captures` on the expression that `Regex::new` made of
    /// `source()`, with every group of the match copied out as a string; the
    /// result is the one that `captures_of` names for that pattern and the
    /// text of `haystack`.
    #[verifier::external_body]
    pub(crate) fn captures(&self, haystack: &str) -> (r: Option<Groups>)
        ensures
            r.deep_view() == captures_of(self.source(), haystack@),
    {
        self.compiled.captures(haystack).map(
            |found| found.iter().map(|group| group.map(|m| m.as_str().to_string())).collect(),
        )
    }
}

/// Compiles `pattern` and searches `haystack` with it.
pub fn search(pattern: &str, haystack: &str) -> (r: Option<Groups>)
    ensures
        r.deep_view() == search_of(pattern@, haystack@),
{
    match Pattern::new(pattern) {
        Some(compiled) => compiled.captures(haystack),
        None => None,
    }
}

} // verus!
