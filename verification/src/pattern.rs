//! Regular expressions, searched by the `regex` crate.

use vstd::prelude::*;

verus! {

/// What a search for the regular expression `pattern` in `haystack` finds:
/// `None` where `pattern` is no regular expression that `regex` compiles,
/// else whether some part of `haystack` matches it.
pub uninterp spec fn regex_search(pattern: Seq<char>, haystack: Seq<char>) -> Option<bool>;

/// Compiles `pattern` with `regex::Regex::new` and searches `haystack` with
/// `Regex::is_match`, which reports a match anywhere in the haystack. Both
/// depend on the two texts alone; nothing more is claimed of them here.
#[verifier::external_body]
pub(crate) fn search(pattern: &str, haystack: &str) -> (found: Option<bool>)
    ensures
        found == regex_search(pattern@, haystack@),
{
    match regex::Regex::new(pattern) {
        Ok(compiled) => Some(compiled.is_match(haystack)),
        Err(_) => None,
    }
}

} // verus!
