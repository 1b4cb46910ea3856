//! Regular expressions, compiled and run by the `regex` crate.
//!
//! A `Pattern` keeps the compiled expression together with the source text it
//! was compiled from; the fields are private and the only constructor is
//! `compile_pattern`, so the source always names the expression. What the
//! `regex` crate computes for a source and a haystack is named by the
//! uninterpreted functions below.

use vstd::prelude::*;

verus! {

#[verifier::external_type_specification]
#[verifier::external_body]
pub struct ExRegex(regex::Regex);

/// What `regex::Regex::new(pattern)` reports: `None` when it compiles the
/// pattern, `Some(message)` with the error's `Display` text when it refuses it.
pub uninterp spec fn regex_error(pattern: Seq<char>) -> Option<Seq<char>>;

/// What `Regex::is_match(text)` returns for the expression compiled from `pattern`.
pub uninterp spec fn regex_is_match(pattern: Seq<char>, text: Seq<char>) -> bool;

/// What `Regex::captures(text)` returns for the expression compiled from
/// `pattern`: for the first match, the text of each capture group (group 0 is
/// the whole match; `None` for a group that did not take part).
pub uninterp spec fn regex_captures(pattern: Seq<char>, text: Seq<char>) -> Option<
    Seq<Option<Seq<char>>>,
>;

/// A compiled regular expression with its source text.
pub struct Pattern {
    re: regex::Regex,
    source: String,
}

impl Pattern {
    /// The source text this expression was compiled from.
    pub closed spec fn source(&self) -> Seq<char> {
        self.source@
    }
}

/// The views of capture-group texts.
pub open spec fn groups_view(g: Seq<Option<String>>) -> Seq<Option<Seq<char>>> {
    g.map_values(
        |o: Option<String>|
            match o {
                Some(s) => Some(s@),
                None => None,
            },
    )
}

/// `regex::Regex::new`. On success the pattern keeps `pattern` as its source;
/// on failure the error's `Display` text is returned. Which patterns compile,
/// and the error text, are named by `regex_error`.
#[verifier::external_body]
pub(crate) fn compile_pattern(pattern: &str) -> (r: Result<Pattern, String>)
    ensures
        match r {
            Ok(p) => regex_error(pattern@) is None && p.source() == pattern@,
            Err(e) => regex_error(pattern@) == Some(e@),
        },
{
    match regex::Regex::new(pattern) {
        Ok(re) => Ok(Pattern { re, source: pattern.to_string() }),
        Err(e) => Err(e.to_string()),
    }
}

/// `regex::Regex::is_match`: whether the expression matches anywhere in `text`.
#[verifier::external_body]
pub(crate) fn pattern_is_match(p: &Pattern, text: &str) -> (r: bool)
    ensures
        r == regex_is_match(p.source(), text@),
{
    p.re.is_match(text)
}

/// `regex::Regex::captures`, each group's match converted to its text. The
/// crate documents that it finds a match exactly when `is_match` is true, and
/// that group 0 is always present in a match.
#[verifier::external_body]
pub(crate) fn pattern_captures(p: &Pattern, text: &str) -> (r: Option<Vec<Option<String>>>)
    ensures
        match r {
            Some(g) => {
                &&& regex_captures(p.source(), text@) == Some(groups_view(g@))
                &&& g@.len() > 0
                &&& g@[0] is Some
            },
            None => regex_captures(p.source(), text@) is None,
        },
        r is Some <==> regex_is_match(p.source(), text@),
{
    p.re.captures(text).map(|c| c.iter().map(|m| m.map(|m| m.as_str().to_string())).collect())
}

} // verus!
