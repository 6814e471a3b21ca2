//! Regular-expression tests, made with the `regex` crate.
use vstd::prelude::*;

verus! {

/// Whether `regex::Regex::new` accepts `pattern` (it refuses a pattern with a
/// syntax error or one whose compiled form exceeds the default size limit).
pub uninterp spec fn regex_compiles(pattern: Seq<char>) -> bool;

/// What `regex::Regex::is_match` answers for the regex compiled from `pattern`
/// on `haystack`: whether the regex matches anywhere in it.
pub uninterp spec fn regex_finds(pattern: Seq<char>, haystack: Seq<char>) -> bool;

/// Whether `pattern` compiles and matches somewhere in `haystack`.
pub open spec fn pattern_matches(pattern: Seq<char>, haystack: Seq<char>) -> bool {
    regex_compiles(pattern) && regex_finds(pattern, haystack)
}

/// Compiles `pattern` with `regex::Regex::new` and, when that succeeds, asks
/// `regex::Regex::is_match` about `haystack`. Claimed: `None` exactly when the
/// pattern does not compile, else the answer of `is_match`, a function of the
/// pattern and the haystack alone.
#[verifier::external_body]
fn regex_is_match(pattern: &str, haystack: &str) -> (r: Option<bool>)
    ensures
        r is Some <==> regex_compiles(pattern@),
        r matches Some(b) ==> b == regex_finds(pattern@, haystack@),
{
    match regex::Regex::new(pattern) {
        Ok(re) => Some(re.is_match(haystack)),
        Err(_) => None,
    }
}

/// Whether the regex `pattern` matches somewhere in `haystack`; a pattern that
/// does not compile matches nothing.
pub fn matches_pattern(pattern: &str, haystack: &str) -> (r: bool)
    ensures
        r == pattern_matches(pattern@, haystack@),
{
    match regex_is_match(pattern, haystack) {
        Some(b) => b,
        None => false,
    }
}

} // verus!
