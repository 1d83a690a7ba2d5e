//! Validation of user-supplied names by regular expressions.

use vstd::prelude::*;

verus! {

/// What searching `haystack` with the regular expression `pattern` gives:
/// `None` where `pattern` does not compile, else whether a match exists
/// anywhere in `haystack`.
pub uninterp spec fn regex_search(pattern: Seq<char>, haystack: Seq<char>) -> Option<bool>;

/// Whether `pattern` compiles and finds a match in `text`.
pub open spec fn pattern_matches(pattern: Seq<char>, text: Seq<char>) -> bool {
    regex_search(pattern, text) == Some(true)
}

/// Compiles `pattern` and searches `haystack` with it.
///
/// Wraps `regex::Regex::new` followed by `regex::Regex::is_match`. Both are
/// functions of their arguments alone: the first fails on an invalid or
/// oversized pattern, the second says whether the expression matches anywhere
/// in the haystack. The contract only names that outcome.
#[verifier::external_body]
pub(crate) fn regex_is_match(pattern: &str, haystack: &str) -> (r: Option<bool>)
    ensures
        r == regex_search(pattern@, haystack@),
{
    match regex::Regex::new(pattern) {
        Ok(re) => Some(re.is_match(haystack)),
        Err(_) => None,
    }
}

/// The expression a profile name has to match.
pub const PROFILE_NAME_PATTERN: &'static str = "^[a-zA-Z0-9-_]{2,}$";

/// The expression a UUID has to match.
pub const UUID_PATTERN: &'static str =
    "^[0-9a-f]{8}-[0-9a-f]{4}-[0-9a-f]{4}-[0-9a-f]{4}-[0-9a-f]{12}$";

/// The expression an endpoint URL has to match.
pub const URL_PATTERN: &'static str =
    "https?://(www\\.)?[-a-zA-Z0-9@:%._+~#=]{2,256}\\.[a-z]{2,4}\\b([-a-zA-Z0-9@:%_+.~#?&/=]*)";

/// Whether `name` is acceptable as a profile name.
pub open spec fn valid_profile_name(name: Seq<char>) -> bool {
    pattern_matches(PROFILE_NAME_PATTERN@, name)
}

/// Whether `name` is acceptable as a profile name: it matches
/// `PROFILE_NAME_PATTERN`.
pub fn check_profile_name(name: &str) -> (r: bool)
    ensures
        r == valid_profile_name(name@),
{
    regex_is_match(PROFILE_NAME_PATTERN, name) == Some(true)
}

/// Whether `text` is a lower-case UUID: it matches `UUID_PATTERN`.
pub fn is_uuid(text: &String) -> (r: bool)
    ensures
        r == pattern_matches(UUID_PATTERN@, text@),
{
    regex_is_match(UUID_PATTERN, text.as_str()) == Some(true)
}

/// Whether `text` holds an http or https URL: it matches `URL_PATTERN`.
pub fn is_url(text: &String) -> (r: bool)
    ensures
        r == pattern_matches(URL_PATTERN@, text@),
{
    regex_is_match(URL_PATTERN, text.as_str()) == Some(true)
}

} // verus!
