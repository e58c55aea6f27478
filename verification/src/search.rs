//! Regular-expression search through the `regex` crate, for the one
//! pattern whose Unicode classes and case folding the library does not
//! scan for itself.
use vstd::prelude::*;

verus! {

/// Whether the regular expression `pattern` matches somewhere in
/// `haystack`, as `regex::Regex::is_match` decides it; `None` when
/// `regex::Regex::new` refuses the pattern.
pub uninterp spec fn regex_search(pattern: Seq<char>, haystack: Seq<char>) -> Option<bool>;

/// Compiles `pattern` with `regex::Regex::new` and, when that succeeds,
/// runs `is_match` on `haystack`. The contract names the answer and says
/// nothing of it: matching depends on the pattern and the text alone.
#[verifier::external_body]
pub(crate) fn regex_is_match(pattern: &str, haystack: &str) -> (r: Option<bool>)
    ensures
        r == regex_search(pattern@, haystack@),
{
    match regex::Regex::new(pattern) {
        Ok(re) => Some(re.is_match(haystack)),
        Err(_) => None,
    }
}

} // verus!
