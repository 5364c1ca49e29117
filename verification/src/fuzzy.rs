//! The fuzzy relevance score used by the search filter and the
//! ranking, computed by the `fuzzy_matcher` crate.

use vstd::prelude::*;

verus! {

/// The score that skim's fuzzy matching assigns to a choice string
/// against a pattern, `None` when the pattern does not match. The
/// algorithm is a function of the two strings alone.
pub uninterp spec fn fuzzy_score(choice: Seq<char>, pattern: Seq<char>) -> Option<i64>;

/// Relies on fuzzy_matcher's `SkimMatcherV2::fuzzy_match` with the
/// default configuration: the result depends only on the two strings,
/// and an empty pattern matches everything with score 0.
#[verifier::external_body]
pub fn fuzzy_match(choice: &str, pattern: &str) -> (r: Option<i64>)
    ensures
        r == fuzzy_score(choice@, pattern@),
        pattern@.len() == 0 ==> r == Option::Some(0i64),
{
    let matcher = fuzzy_matcher::skim::SkimMatcherV2::default();
    fuzzy_matcher::FuzzyMatcher::fuzzy_match(&matcher, choice, pattern)
}

/// The rank a record's name earns in the ordering: the fuzzy score,
/// with a non-match counted as zero.
pub open spec fn score_or_zero(choice: Seq<char>, pattern: Seq<char>) -> i64 {
    match fuzzy_score(choice, pattern) {
        Option::Some(s) => s,
        Option::None => 0,
    }
}

/// Computes the rank of one name against the search text.
pub fn score_of(choice: &str, pattern: &str) -> (r: i64)
    ensures
        r == score_or_zero(choice@, pattern@),
{
    match fuzzy_match(choice, pattern) {
        Option::Some(s) => s,
        Option::None => 0,
    }
}

} // verus!
