//! Replacement by regular expression, as the `regex` crate does it.
//!
//! The crate is not verified here: this file states, without proof, what the
//! library takes from it.

use regex::Regex;
use vstd::prelude::*;

verus! {

/// The error of the `regex` crate: why a pattern was refused.
#[verifier::external_type_specification]
#[verifier::external_body]
pub struct ExRegexError(regex::Error);

/// What comes of compiling `pattern` with `Regex::new` and replacing, with
/// `Regex::replace_all`, every match in `haystack` by `rep`: the new text, or
/// `None` where `Regex::new` refuses the pattern.
pub uninterp spec fn regex_replace_all(
    pattern: Seq<char>,
    haystack: Seq<char>,
    rep: Seq<char>,
) -> Option<Seq<char>>;

/// Calls `regex::Regex::new` on `pattern` and then `regex::Regex::replace_all`
/// on `haystack` with the replacement text `rep`.
///
/// Trusted: the outcome is the one that [`regex_replace_all`] names. This
/// claims that the outcome depends on the three texts and on nothing else, and
/// that an error comes back exactly when the pattern does not compile.
#[verifier::external_body]
pub(crate) fn replace_all(pattern: &str, haystack: &str, rep: &str) -> (replaced: Result<
    String,
    regex::Error,
>)
    ensures
        match replaced {
            Ok(text) => regex_replace_all(pattern@, haystack@, rep@) == Some(text@),
            Err(_) => regex_replace_all(pattern@, haystack@, rep@) is None,
        },
{
    match Regex::new(pattern) {
        Ok(re) => Ok(re.replace_all(haystack, rep).into_owned()),
        Err(e) => Err(e),
    }
}

} // verus!
