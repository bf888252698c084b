//! The calls into globset and regex, with what the library relies on of them.
use vstd::prelude::*;

verus! {

#[verifier::external_type_specification]
#[verifier::external_body]
pub struct ExRegexSet(regex::bytes::RegexSet);

#[verifier::external_type_specification]
#[verifier::external_body]
pub struct ExRegexError(regex::Error);

#[verifier::external_type_specification]
#[verifier::external_body]
pub struct ExGlobError(globset::Error);

/// The regular expression that globset translates a glob into, or `None` where
/// the glob is malformed.
pub uninterp spec fn glob_regex(pattern: Seq<char>) -> Option<Seq<char>>;

/// The sources a regex set was built from, in order.
pub uninterp spec fn set_sources(set: regex::bytes::RegexSet) -> Seq<Seq<char>>;

/// Whether a regex set can be built from these sources (each is valid and no
/// size limit is exceeded).
pub uninterp spec fn set_compiles(sources: Seq<Seq<char>>) -> bool;

/// Whether the regex with this source matches somewhere in the haystack.
pub uninterp spec fn regex_is_match(source: Seq<char>, haystack: Seq<u8>) -> bool;

/// Relies on globset::Glob::new, which parses a glob with default options, and
/// on Glob::regex, which gives the regular expression it was translated into.
#[verifier::external_body]
pub(crate) fn translate_glob(pattern: &str) -> (r: Result<String, globset::Error>)
    ensures
        match r {
            Ok(s) => glob_regex(pattern@) == Some(s@),
            Err(_) => glob_regex(pattern@) is None,
        },
{
    globset::Glob::new(pattern).map(|g| g.regex().to_string())
}

/// Relies on regex::bytes::RegexSetBuilder::new and build: the set keeps the
/// sources in the order given; building fails where one of them is invalid or
/// a size limit is exceeded.
#[verifier::external_body]
pub(crate) fn build_regex_set(sources: &Vec<String>) -> (r: Result<regex::bytes::RegexSet, regex::Error>)
    ensures
        r is Ok == set_compiles(sources@.map_values(|s: String| s@)),
        r matches Ok(set) ==> set_sources(set) == sources@.map_values(|s: String| s@),
{
    regex::bytes::RegexSetBuilder::new(sources).build()
}

/// Relies on regex::bytes::RegexSet::is_match: true if and only if one of the
/// set's regexes matches the haystack.
#[verifier::external_body]
pub(crate) fn set_is_match(set: &regex::bytes::RegexSet, haystack: &[u8]) -> (r: bool)
    ensures
        r == (exists|i: int| 0 <= i < set_sources(*set).len()
            && #[trigger] regex_is_match(set_sources(*set)[i], haystack@)),
{
    set.is_match(haystack)
}

} // verus!
