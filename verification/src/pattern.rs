//! Category patterns compiled with the `regex` crate (RE2 syntax).
use vstd::prelude::*;
use vstd::string::*;

verus! {

#[verifier::external_type_specification]
#[verifier::external_body]
pub struct ExRegex(regex::Regex);

/// What `regex::Regex::new` reports for `pattern`: `None` when it compiles
/// it (valid syntax, within the crate's default size limit), otherwise the
/// text its `regex::Error` displays.
pub uninterp spec fn regex_new_error(pattern: Seq<char>) -> Option<Seq<char>>;

/// Whether `regex::Regex::new` accepts `pattern`.
pub open spec fn regex_compiles(pattern: Seq<char>) -> bool {
    regex_new_error(pattern) is None
}

/// Whether the regex `regex::Regex::new` compiles from `pattern` matches
/// anywhere in `haystack` (`Regex::is_match`).
pub uninterp spec fn regex_is_match(pattern: Seq<char>, haystack: Seq<char>) -> bool;

/// A compiled pattern, together with the pattern text it was compiled from.
/// Only [`compile`] builds one, so the two always belong together.
pub struct CompiledPattern {
    source: String,
    regex: regex::Regex,
}

impl View for CompiledPattern {
    type V = Seq<char>;

    /// The pattern text the regex was compiled from.
    closed spec fn view(&self) -> Seq<char> {
        self.source@
    }
}

/// `regex::Regex::new`, with a rejection given as the text its
/// `regex::Error` displays: succeeds exactly when `regex_new_error` is
/// `None`, and otherwise fails with that text. What the compiled value holds
/// is not stated.
#[verifier::external_body]
fn regex_new(pattern: &str) -> (r: Result<regex::Regex, String>)
    ensures
        match r {
            Ok(_) => regex_new_error(pattern@) is None,
            Err(t) => regex_new_error(pattern@) == Some(t@),
        },
{
    match regex::Regex::new(pattern) {
        Ok(regex) => Ok(regex),
        Err(e) => Err(e.to_string()),
    }
}

/// Compiles `pattern`; fails with the regex crate's error text exactly when
/// the crate rejects it.
pub fn compile(pattern: &str) -> (r: Result<CompiledPattern, String>)
    ensures
        match r {
            Ok(c) => regex_compiles(pattern@) && c@ == pattern@,
            Err(t) => regex_new_error(pattern@) == Some(t@),
        },
{
    match regex_new(pattern) {
        Ok(regex) => Ok(CompiledPattern { source: pattern.to_owned(), regex }),
        Err(e) => Err(e),
    }
}

/// `regex::Regex::is_match` on the regex of `c`: whether the regex compiled
/// from `c`'s pattern text matches anywhere in `haystack`. That the regex
/// was compiled from that text holds because only `compile` builds a
/// `CompiledPattern`.
#[verifier::external_body]
pub(crate) fn is_match(c: &CompiledPattern, haystack: &str) -> (b: bool)
    ensures
        b == regex_is_match(c@, haystack@),
{
    c.regex.is_match(haystack)
}

} // verus!
