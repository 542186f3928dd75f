//! Regular-expression captures, delegated to the `regex` crate.
use vstd::prelude::*;

use crate::text::opt_view;

verus! {

/// `regex::Regex::new` accepts `pattern`.
pub uninterp spec fn pattern_compiles(pattern: Seq<char>) -> bool;

/// What `regex::Regex::captures` gives for capture group `group` of the
/// leftmost-first match of `pattern` in `haystack`: `None` when there is no
/// match or the group took no part in it.
pub uninterp spec fn pattern_group(pattern: Seq<char>, haystack: Seq<char>, group: nat) -> Option<
    Seq<char>,
>;

#[verifier::external_type_specification]
#[verifier::external_body]
pub struct ExRegexError(regex::Error);

/// Compiles `pattern` with `regex::Regex::new` and returns capture group
/// `group` of `regex::Regex::captures` on `haystack`. Trusted: the contract
/// claims that compiling succeeds exactly when `pattern_compiles` holds and
/// that the capture is `pattern_group` of the pattern, the haystack and the
/// group number, which holds because both calls depend on their arguments
/// alone. Nothing more of the regular-expression language is stated.
#[verifier::external_body]
pub(crate) fn capture_group(pattern: &str, haystack: &str, group: usize) -> (r: Result<
    Option<String>,
    regex::Error,
>)
    ensures
        r is Ok <==> pattern_compiles(pattern@),
        r matches Ok(g) ==> opt_view(g) == pattern_group(pattern@, haystack@, group as nat),
{
    let re = regex::Regex::new(pattern)?;
    Ok(re.captures(haystack).and_then(|c| c.get(group)).map(|m| m.as_str().to_string()))
}

} // verus!
