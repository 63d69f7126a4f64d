//! How well a query matches a name.

use fuzzy_matcher::skim::SkimMatcherV2;
use fuzzy_matcher::FuzzyMatcher;
use vstd::prelude::*;

verus! {

/// Whether `c` is one of the letters `A` to `Z`.
pub open spec fn is_ascii_upper(c: char) -> bool {
    0x41 <= c as u32 <= 0x5a
}

/// The code of `c`, with the letters `A` to `Z` taken as `a` to `z`.
pub open spec fn ascii_folded(c: char) -> int {
    if is_ascii_upper(c) {
        c as u32 + 0x20
    } else {
        c as u32 as int
    }
}

/// A query with a letter from `A` to `Z` in it is matched with regard to case.
pub open spec fn respects_case(query: Seq<char>) -> bool {
    exists|i: int| 0 <= i < query.len() && is_ascii_upper(#[trigger] query[i])
}

/// Whether a character of a name stands for a character of the query.
pub open spec fn same_char(in_name: char, in_query: char, with_case: bool) -> bool {
    if with_case {
        in_name == in_query
    } else {
        ascii_folded(in_name) == ascii_folded(in_query)
    }
}

/// `places` says where in `name` each character of `query` is found, in order.
pub open spec fn found_at(name: Seq<char>, query: Seq<char>, places: Seq<int>) -> bool {
    &&& places.len() == query.len()
    &&& forall|k: int|
        0 <= k < places.len() ==> 0 <= #[trigger] places[k] < name.len() && same_char(
            name[places[k]],
            query[k],
            respects_case(query),
        )
    &&& forall|k: int, l: int|
        0 <= k < l < places.len() ==> #[trigger] places[k] < #[trigger] places[l]
}

/// A name admits a query when the characters of the query occur in the name in
/// the same order, not necessarily next to each other.
pub open spec fn admits(name: Seq<char>, query: Seq<char>) -> bool {
    exists|places: Seq<int>| found_at(name, query, places)
}

/// The quality that the skim matcher, in its default configuration, gives to
/// `pattern` in `choice`: `None` where it finds no match, else a number that is
/// larger for a better match.
pub uninterp spec fn skim_quality(choice: Seq<char>, pattern: Seq<char>) -> Option<i64>;

/// Calls `fuzzy_match` of `fuzzy_matcher::skim::SkimMatcherV2` in its default
/// configuration. Nothing of the scoring is proved here. The contract takes from
/// the matcher's source that the outcome depends on the two texts alone, that an
/// empty pattern is answered with quality 0 before anything is compared, that a
/// quality is only given once every character of the pattern was found in the
/// choice in order (case counts only if the pattern has an upper-case ASCII
/// letter), and that the quality is computed in 32 bits.
#[verifier::external_body]
pub(crate) fn fuzzy_match(choice: &str, pattern: &str) -> (matched: Option<i64>)
    ensures
        matched == skim_quality(choice@, pattern@),
        pattern@.len() == 0 ==> matched == Some(0i64),
        matched is Some ==> admits(choice@, pattern@),
        matched matches Some(quality) ==> i32::MIN <= quality <= i32::MAX,
{
    SkimMatcherV2::default().fuzzy_match(choice, pattern)
}

/// The score for an outcome of the matcher: its quality with the sign turned, so
/// that a better match has a smaller score, and 0 where nothing matched.
pub open spec fn score_from(matched: Option<i64>) -> int {
    match matched {
        Some(quality) => -quality,
        None => 0,
    }
}

/// Turns an outcome of the matcher into a score.
pub fn score_from_match(matched: Option<i64>) -> (score: i64)
    requires
        matched != Some(i64::MIN),
    ensures
        score == score_from(matched),
{
    match matched {
        Some(quality) => -quality,
        None => 0,
    }
}

/// The score of `query` against `name`. It is 0 for an empty query and for a
/// query that the name does not admit; where the name admits the query it is the
/// matcher's quality with the sign turned, so that the best match has the
/// smallest score.
pub open spec fn score_of(name: Seq<char>, query: Seq<char>) -> int {
    if query.len() == 0 || !admits(name, query) {
        0
    } else {
        score_from(skim_quality(name, query))
    }
}

/// The empty query is no better than a query that does not match: against any
/// name, a query that the name does not admit scores what the empty query
/// scores, which is 0.
pub proof fn lemma_empty_query_scores_no_worse(name: Seq<char>, query: Seq<char>)
    requires
        !admits(name, query),
    ensures
        score_of(name, Seq::empty()) <= score_of(name, query),
        score_of(name, query) == 0,
{
}

/// Only a query that the name admits, and that is not empty, can score other
/// than 0.
pub proof fn lemma_scored_query_is_admitted(name: Seq<char>, query: Seq<char>)
    requires
        score_of(name, query) != 0,
    ensures
        admits(name, query),
        query.len() > 0,
{
}

} // verus!
