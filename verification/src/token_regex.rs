//! The regular-expression search that splits source text into tokens, done by the `regex`
//! crate.
use vstd::prelude::*;

verus! {

/// The error of the `regex` crate when a pattern does not compile.
#[verifier::external_type_specification]
#[verifier::external_body]
pub struct ExRegexError(regex::Error);

/// Whether the `regex` crate compiles `pattern` (with its default size limit).
pub uninterp spec fn regex_compiles(pattern: Seq<char>) -> bool;

/// For each successive non-overlapping match of `pattern` in `haystack`, as the `regex`
/// crate finds them, the text of capture group 1 (`None` where that group took no part).
pub uninterp spec fn regex_group1(pattern: Seq<char>, haystack: Seq<char>) -> Seq<Option<Seq<char>>>;

/// The models of optional strings.
pub open spec fn option_texts(v: Seq<Option<String>>) -> Seq<Option<Seq<char>>> {
    Seq::new(v.len(), |i: int| match v[i] { Some(s) => Some(s@), None => None })
}

/// Calls the `regex` crate: `Regex::new(pattern)`, then `captures_iter(haystack)`, and for
/// each match capture group 1 (`Captures::get(1)`, `Match::as_str`).
///
/// Trusted: the result is `Ok` exactly when the pattern compiles, and then holds, in order,
/// group 1 of each match, as [`regex_group1`] names it. Which matches the crate finds is not
/// stated here; it is a function of the pattern and the haystack alone.
#[verifier::external_body]
pub fn regex_group1_captures(pattern: &str, haystack: &str) -> (r: Result<Vec<Option<String>>, regex::Error>)
    ensures
        r is Ok <==> regex_compiles(pattern@),
        r matches Ok(v) ==> option_texts(v@) == regex_group1(pattern@, haystack@),
{
    let re = regex::Regex::new(pattern)?;
    Ok(re.captures_iter(haystack).map(|caps| caps.get(1).map(|m| m.as_str().to_string())).collect())
}

} // verus!
