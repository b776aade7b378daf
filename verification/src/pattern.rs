//! Patterns on names: compiled by the `regex` crate, described here by what
//! they match.

use crate::print::{highlighted, mark, marked};
use regex::Regex;
use vstd::prelude::*;

verus! {

/// The compiled form of a pattern, as the `regex` crate keeps it.
#[verifier::external_type_specification]
#[verifier::external_body]
pub struct ExRegex(regex::Regex);

/// What the `regex` crate returns for a pattern that it cannot compile.
#[verifier::external_type_specification]
#[verifier::external_body]
pub struct ExRegexError(regex::Error);

/// Whether the pattern with the text `pattern` has a match somewhere in
/// `haystack`: what `Regex::is_match` returns for the regex that `Regex::new`
/// compiled from `pattern`.
pub uninterp spec fn regex_is_match(pattern: Seq<char>, haystack: Seq<char>) -> bool;

/// Where the first match of a pattern lies in `haystack`, counted in
/// characters, from its first to behind its last: the match that
/// `Regex::replacen` replaces first, for the regex that `Regex::new` compiled
/// from `pattern`. `None` where the pattern has no match.
pub uninterp spec fn regex_first_match(pattern: Seq<char>, haystack: Seq<char>) -> Option<
    (int, int),
>;

/// Whether a name satisfies a pattern. The empty pattern is satisfied by
/// every name; for any other pattern the `regex` crate decides.
pub open spec fn pattern_accepts(pattern: Seq<char>, name: Seq<char>) -> bool {
    pattern.len() == 0 || regex_is_match(pattern, name)
}

/// Where the first match of a pattern lies in `name`, counted in characters,
/// from its first to behind its last. The empty pattern matches nothing at
/// the very start; for any other pattern the `regex` crate decides.
pub open spec fn first_match(pattern: Seq<char>, name: Seq<char>) -> Option<(int, int)> {
    if pattern.len() == 0 {
        Some((0, 0))
    } else {
        regex_first_match(pattern, name)
    }
}

/// A pattern that compiled, together with the text it was compiled from.
///
/// Its view is that text. Only [`Pattern::new`] makes one, so the compiled
/// form always belongs to the text.
pub struct Pattern {
    source: String,
    regex: Regex,
}

/// Why a pattern did not compile.
#[derive(Debug)]
pub struct PatternError {
    /// The message of the `regex` crate.
    pub message: String,
}

impl View for Pattern {
    type V = Seq<char>;

    closed spec fn view(&self) -> Seq<char> {
        self.source@
    }
}

/// Calls `Regex::new`. The crate's documentation calls the empty regex valid;
/// of any other text nothing is claimed, since a size limit decides too.
#[verifier::external_body]
fn regex_new(source: &str) -> (compiled: Result<Regex, regex::Error>)
    ensures
        source@.len() == 0 ==> compiled is Ok,
{
    Regex::new(source)
}

/// Calls `Regex::is_match` on the compiled form of `pattern`: whether the
/// pattern has a match anywhere in `haystack`. The crate's documentation says
/// that the empty regex matches every haystack, at its start.
#[verifier::external_body]
fn regex_matches(pattern: &Pattern, haystack: &str) -> (found: bool)
    ensures
        found == regex_is_match(pattern@, haystack@),
        pattern@.len() == 0 ==> found,
{
    pattern.regex.is_match(haystack)
}

/// Calls `Regex::replacen` with a limit of one on the compiled form of
/// `pattern`: `haystack` with its first match replaced by what [`mark`] makes
/// of it, and `haystack` itself where there is no match. The match lies
/// within `haystack`, on character boundaries. The crate's documentation says
/// that the empty regex matches every haystack at position 0.
#[verifier::external_body]
fn regex_replace_first(pattern: &Pattern, haystack: &str) -> (out: String)
    ensures
        out@ == highlighted(haystack@, regex_first_match(pattern@, haystack@)),
        pattern@.len() == 0 ==> out@ == marked(Seq::empty()) + haystack@,
{
    pattern.regex.replacen(haystack, 1, |found: &regex::Captures| mark(&found[0])).into_owned()
}

/// Calls `to_string` on the error of the `regex` crate, for its message.
#[verifier::external_body]
fn regex_error_text(error: &regex::Error) -> (message: String)
{
    error.to_string()
}

impl Pattern {
    /// The pattern of the text `source`, where `compiled` is what the
    /// `regex` crate made of that text: a pattern where it compiled, and the
    /// message of the crate where it did not.
    fn from_compiled(source: &str, compiled: Result<Regex, regex::Error>) -> (pattern: Result<
        Pattern,
        PatternError,
    >)
        ensures
            pattern is Ok <==> compiled is Ok,
            pattern matches Ok(pattern) ==> pattern@ == source@,
    {
        match compiled {
            Ok(regex) => Ok(Pattern { source: source.to_owned(), regex }),
            Err(error) => Err(PatternError { message: regex_error_text(&error) }),
        }
    }

    /// Compiles `source`. The empty pattern always compiles; of any other
    /// the `regex` crate decides.
    pub fn new(source: &str) -> (compiled: Result<Pattern, PatternError>)
        ensures
            compiled matches Ok(pattern) ==> pattern@ == source@,
            source@.len() == 0 ==> compiled is Ok,
    {
        Pattern::from_compiled(source, regex_new(source))
    }

    /// Whether `name` holds a match of the pattern.
    pub fn is_match(&self, name: &str) -> (found: bool)
        ensures
            found == pattern_accepts(self@, name@),
    {
        regex_matches(self, name)
    }

    /// `name` with the first match of the pattern in red.
    pub fn highlight(&self, name: &str) -> (out: String)
        ensures
            out@ == highlighted(name@, first_match(self@, name@)),
    {
        regex_replace_first(self, name)
    }
}

} // verus!
