//! Regular-expression matching through the `regex` crate.
use vstd::prelude::*;

verus! {

/// Whether the `regex` crate finds a match of `pattern` anywhere in
/// `haystack` (false when `pattern` does not compile).
pub uninterp spec fn regex_matches(pattern: Seq<char>, haystack: Seq<char>) -> bool;

/// `regex::Regex::new` followed by `Regex::is_match`. Claims only that the
/// result is the named match relation of the pattern and the haystack; the
/// regex semantics are not restated. A pattern that does not compile gives
/// `false`.
#[verifier::external_body]
pub fn regex_is_match(pattern: &str, haystack: &str) -> (r: bool)
    ensures
        r == regex_matches(pattern@, haystack@),
{
    match regex::Regex::new(pattern) {
        Ok(re) => re.is_match(haystack),
        Err(_) => false,
    }
}

} // verus!
