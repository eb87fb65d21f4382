//! Regular-expression matching, done by the `fancy_regex` crate.
use vstd::prelude::*;
use fancy_regex::Regex;

verus! {

#[verifier::external_type_specification]
#[verifier::external_body]
pub struct ExRegex(Regex);

/// Whether `fancy_regex::Regex::new` accepts `pattern`.
pub uninterp spec fn regex_compiles(pattern: Seq<char>) -> bool;

/// What `fancy_regex::Regex::is_match` reports for the regex compiled from
/// `pattern` on `text`: whether it matches, or `None` where it reports an
/// error.
pub uninterp spec fn regex_is_match(pattern: Seq<char>, text: Seq<char>) -> Option<bool>;

/// What `fancy_regex::Regex::captures` reports for the regex compiled from
/// `pattern` on `text`: whether it found a match, or `None` where it reports
/// an error.
pub uninterp spec fn regex_captures_found(pattern: Seq<char>, text: Seq<char>) -> Option<bool>;

/// A compiled regular expression, with the pattern it was compiled from.
pub struct Pattern {
    source: String,
    compiled: Regex,
}

impl Pattern {
    /// The pattern this regular expression was compiled from.
    pub closed spec fn source(&self) -> Seq<char> {
        self.source@
    }
}

/// Compiles `pattern` with `fancy_regex::Regex::new`; `None` where that
/// reports an error. Claimed: the result is `Some` exactly when the pattern
/// compiles, and it remembers the pattern.
#[verifier::external_body]
pub(crate) fn compile(pattern: &str) -> (r: Option<Pattern>)
    ensures
        r is Some <==> regex_compiles(pattern@),
        r matches Some(p) ==> p.source() == pattern@,
{
    match Regex::new(pattern) {
        Ok(compiled) => Some(Pattern { source: pattern.to_string(), compiled }),
        Err(_) => None,
    }
}

/// Calls `fancy_regex::Regex::is_match`; an error becomes `None`. Claimed: the
/// result is the named outcome for the compiled pattern and the text.
#[verifier::external_body]
pub(crate) fn is_match_in(p: &Pattern, text: &str) -> (r: Option<bool>)
    ensures
        r == regex_is_match(p.source(), text@),
{
    p.compiled.is_match(text).ok()
}

/// Calls `fancy_regex::Regex::captures` and reports whether it found a match;
/// an error becomes `None`. Claimed: the result is the named outcome for the
/// compiled pattern and the text.
#[verifier::external_body]
pub(crate) fn captures_found_in(p: &Pattern, text: &str) -> (r: Option<bool>)
    ensures
        r == regex_captures_found(p.source(), text@),
{
    match p.compiled.captures(text) {
        Ok(found) => Some(found.is_some()),
        Err(_) => None,
    }
}

/// Whether `pattern` matches `text`, by `is_match`; `None` where compiling or
/// matching fails.
pub open spec fn matches_spec(pattern: Seq<char>, text: Seq<char>) -> Option<bool> {
    if regex_compiles(pattern) {
        regex_is_match(pattern, text)
    } else {
        None
    }
}

/// Whether `pattern` finds a match in `text`, by `captures`; `None` where
/// compiling or matching fails.
pub open spec fn captures_spec(pattern: Seq<char>, text: Seq<char>) -> Option<bool> {
    if regex_compiles(pattern) {
        regex_captures_found(pattern, text)
    } else {
        None
    }
}

/// Compiles `pattern` and matches it against `text` (see `matches_spec`).
pub fn is_match(pattern: &str, text: &str) -> (r: Option<bool>)
    ensures
        r == matches_spec(pattern@, text@),
{
    match compile(pattern) {
        Some(p) => is_match_in(&p, text),
        None => None,
    }
}

/// Compiles `pattern` and looks for a match in `text` (see `captures_spec`).
pub fn captures(pattern: &str, text: &str) -> (r: Option<bool>)
    ensures
        r == captures_spec(pattern@, text@),
{
    match compile(pattern) {
        Some(p) => captures_found_in(&p, text),
        None => None,
    }
}

} // verus!
