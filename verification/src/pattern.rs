//! Regular expressions, as the `regex` crate understands them.
//!
//! What a pattern means is not restated here. Two names stand for what the
//! crate answers, and the rest of the library reasons over those names.
use vstd::prelude::*;

verus! {

/// Whether `regex::Regex::new` accepts `pattern`.
pub uninterp spec fn regex_compiles(pattern: Seq<char>) -> bool;

/// Whether the regular expression compiled from `pattern` finds a match
/// anywhere in `text`.
pub uninterp spec fn regex_matches(pattern: Seq<char>, text: Seq<char>) -> bool;

/// Compiles `pattern` with `regex::Regex::new` and, where that succeeds,
/// asks `regex::Regex::is_match` whether it matches somewhere in `text`.
///
/// Not proved: that the result is `None` exactly for the patterns that the
/// crate rejects (bad syntax, or a compiled program over the crate's default
/// size limit), and that otherwise it holds what `is_match` returned. Both
/// depend on the two texts alone.
#[verifier::external_body]
pub(crate) fn match_pattern(pattern: &str, text: &str) -> (r: Option<bool>)
    ensures
        r is Some == regex_compiles(pattern@),
        r matches Some(found) ==> found == regex_matches(pattern@, text@),
{
    match regex::Regex::new(pattern) {
        Ok(re) => Some(re.is_match(text)),
        Err(_) => None,
    }
}

} // verus!
