//! The order in which matching directories are shown.

use crate::directory::{views, Directory, DirectoryView};
use crate::matching::{admits, score_of};
use itertools::Itertools;
use vstd::prelude::*;

verus! {

/// Whether the candidate at place `i` is shown before the candidate at place
/// `j`: the smaller score goes first, and of two equal scores the one that came
/// first.
pub open spec fn ranks_before(scores: Seq<int>, i: int, j: int) -> bool {
    scores[i] < scores[j] || (scores[i] == scores[j] && i < j)
}

/// Each place of `order` is shown before every later one.
pub open spec fn in_rank_order(scores: Seq<int>, order: Seq<int>) -> bool {
    forall|k: int, l: int|
        0 <= k < l < order.len() ==> ranks_before(scores, #[trigger] order[k], #[trigger] order[l])
}

/// `order` ranks `scores`: it holds the places of the scores below 0, which are
/// the matches, and no other; each before every place that it `ranks_before`.
pub open spec fn is_ranking(scores: Seq<int>, order: Seq<int>) -> bool {
    &&& forall|k: int|
        0 <= k < order.len() ==> 0 <= #[trigger] order[k] < scores.len() && scores[order[k]] < 0
    &&& forall|i: int|
        #![trigger scores[i]]
        0 <= i < scores.len() && scores[i] < 0 ==> order.contains(i)
    &&& in_rank_order(scores, order)
}

/// The places of the matches among `scores`, best first.
pub open spec fn ranking_order(scores: Seq<int>) -> Seq<int> {
    choose|order: Seq<int>| is_ranking(scores, order)
}

/// The score of each entry for `query`.
pub open spec fn scores_of(entries: Seq<DirectoryView>, query: Seq<char>) -> Seq<int> {
    Seq::new(entries.len(), |i: int| score_of(entries[i].name, query))
}

/// The entries that match `query`, best first; entries that match equally well
/// stay in the order in which they came.
pub open spec fn ranking(entries: Seq<DirectoryView>, query: Seq<char>) -> Seq<DirectoryView> {
    ranking_order(scores_of(entries, query)).map_values(|i: int| entries[i])
}

/// Puts the place `next`, which lies behind every place of `order`, where it
/// belongs in `order`.
proof fn lemma_insert_in_rank_order(scores: Seq<int>, order: Seq<int>, next: int) -> (longer: Seq<
    int,
>)
    requires
        in_rank_order(scores, order),
        forall|k: int| 0 <= k < order.len() ==> #[trigger] order[k] < next,
    ensures
        in_rank_order(scores, longer),
        longer.len() == order.len() + 1,
        forall|i: int| longer.contains(i) <==> (order.contains(i) || i == next),
    decreases order.len(),
{
    if order.len() == 0 || scores[order.last()] <= scores[next] {
        let longer = order.push(next);
        assert forall|i: int| longer.contains(i) <==> (order.contains(i) || i == next) by {
            if longer.contains(i) {
                let k = choose|k: int| 0 <= k < longer.len() && longer[k] == i;
                if k < order.len() {
                    assert(order[k] == i);
                }
            }
            if order.contains(i) {
                let k = choose|k: int| 0 <= k < order.len() && order[k] == i;
                assert(longer[k] == i);
            }
            if i == next {
                assert(longer[order.len() as int] == i);
            }
        }
        assert forall|k: int, l: int| 0 <= k < l < longer.len() implies ranks_before(
            scores,
            #[trigger] longer[k],
            #[trigger] longer[l],
        ) by {
            if l < order.len() {
                assert(ranks_before(scores, order[k], order[l]));
            } else if k < order.len() - 1 {
                assert(ranks_before(scores, order[k], order[order.len() - 1]));
            } else {
                assert(longer[k] == order.last());
            }
        }
        longer
    } else {
        let last = order.last();
        let front = order.drop_last();
        assert forall|k: int, l: int| 0 <= k < l < front.len() implies ranks_before(
            scores,
            #[trigger] front[k],
            #[trigger] front[l],
        ) by {
            assert(ranks_before(scores, order[k], order[l]));
        }
        assert forall|k: int| 0 <= k < front.len() implies #[trigger] front[k] < next by {
            assert(order[k] < next);
        }
        let inner = lemma_insert_in_rank_order(scores, front, next);
        let longer = inner.push(last);
        assert forall|i: int| longer.contains(i) <==> (order.contains(i) || i == next) by {
            if longer.contains(i) {
                let k = choose|k: int| 0 <= k < longer.len() && longer[k] == i;
                if k < inner.len() {
                    assert(inner.contains(i));
                    if front.contains(i) {
                        let f = choose|f: int| 0 <= f < front.len() && front[f] == i;
                        assert(order[f] == i);
                    }
                } else {
                    assert(order[order.len() - 1] == i);
                }
            }
            if order.contains(i) {
                let k = choose|k: int| 0 <= k < order.len() && order[k] == i;
                if k < front.len() {
                    assert(front[k] == i);
                    assert(front.contains(i));
                    assert(inner.contains(i));
                    let f = choose|f: int| 0 <= f < inner.len() && inner[f] == i;
                    assert(longer[f] == i);
                } else {
                    assert(longer[inner.len() as int] == i);
                }
            }
            if i == next {
                assert(inner.contains(i));
                let f = choose|f: int| 0 <= f < inner.len() && inner[f] == i;
                assert(longer[f] == i);
            }
        }
        assert forall|k: int, l: int| 0 <= k < l < longer.len() implies ranks_before(
            scores,
            #[trigger] longer[k],
            #[trigger] longer[l],
        ) by {
            if l < inner.len() {
                assert(ranks_before(scores, inner[k], inner[l]));
            } else {
                assert(inner.contains(inner[k]));
                if front.contains(inner[k]) {
                    let f = choose|f: int| 0 <= f < front.len() && front[f] == inner[k];
                    assert(ranks_before(scores, order[f], order[order.len() - 1]));
                }
            }
        }
        longer
    }
}

/// A ranking of the first `upto` scores.
proof fn lemma_rank_front(scores: Seq<int>, upto: int) -> (order: Seq<int>)
    requires
        0 <= upto <= scores.len(),
    ensures
        is_ranking(scores.take(upto), order),
    decreases upto,
{
    if upto == 0 {
        let order = Seq::<int>::empty();
        assert(is_ranking(scores.take(upto), order));
        order
    } else {
        let next = upto - 1;
        let front = scores.take(next);
        let upper = scores.take(upto);
        let before = lemma_rank_front(scores, next);
        assert forall|k: int, l: int| 0 <= k < l < before.len() implies ranks_before(
            upper,
            #[trigger] before[k],
            #[trigger] before[l],
        ) by {
            assert(ranks_before(front, before[k], before[l]));
        }
        if scores[next] < 0 {
            let order = lemma_insert_in_rank_order(upper, before, next);
            assert forall|k: int| 0 <= k < order.len() implies 0 <= #[trigger] order[k]
                < upper.len() && upper[order[k]] < 0 by {
                assert(order.contains(order[k]));
                if before.contains(order[k]) {
                    let b = choose|b: int| 0 <= b < before.len() && before[b] == order[k];
                    assert(front[before[b]] < 0);
                }
            }
            assert forall|i: int|
                #![trigger upper[i]]
                0 <= i < upper.len() && upper[i] < 0 implies order.contains(i) by {
                if i < next {
                    assert(front[i] < 0);
                    assert(before.contains(i));
                }
            }
            order
        } else {
            assert forall|k: int| 0 <= k < before.len() implies 0 <= #[trigger] before[k]
                < upper.len() && upper[before[k]] < 0 by {
                assert(front[before[k]] < 0);
            }
            assert forall|i: int|
                #![trigger upper[i]]
                0 <= i < upper.len() && upper[i] < 0 implies before.contains(i) by {
                assert(front[i] < 0);
            }
            before
        }
    }
}

/// Two orders that hold the same places, each in rank order, are one order.
proof fn lemma_rank_order_is_unique(scores: Seq<int>, a: Seq<int>, b: Seq<int>)
    requires
        in_rank_order(scores, a),
        in_rank_order(scores, b),
        forall|i: int| a.contains(i) <==> b.contains(i),
    ensures
        a == b,
    decreases a.len(),
{
    if a.len() == 0 {
        if b.len() > 0 {
            assert(b.contains(b[0]));
        }
        assert(a =~= b);
    } else {
        let last = a.last();
        assert(a.contains(a[a.len() - 1]));
        assert(b.contains(last));
        let at = choose|at: int| 0 <= at < b.len() && b[at] == last;
        if at < b.len() - 1 {
            assert(ranks_before(scores, b[at], b[b.len() - 1]));
            assert(b.contains(b[b.len() - 1]));
            let back = choose|back: int| 0 <= back < a.len() && a[back] == b.last();
            if back < a.len() - 1 {
                assert(ranks_before(scores, a[back], a[a.len() - 1]));
            }
        }
        assert(b.last() == last);
        let front_a = a.drop_last();
        let front_b = b.drop_last();
        assert forall|i: int| front_a.contains(i) <==> front_b.contains(i) by {
            if front_a.contains(i) {
                let k = choose|k: int| 0 <= k < front_a.len() && front_a[k] == i;
                assert(ranks_before(scores, a[k], a[a.len() - 1]));
                assert(a.contains(a[k]));
                let l = choose|l: int| 0 <= l < b.len() && b[l] == i;
                assert(front_b[l] == i);
            }
            if front_b.contains(i) {
                let k = choose|k: int| 0 <= k < front_b.len() && front_b[k] == i;
                assert(ranks_before(scores, b[k], b[b.len() - 1]));
                assert(b.contains(b[k]));
                let l = choose|l: int| 0 <= l < a.len() && a[l] == i;
                assert(front_a[l] == i);
            }
        }
        assert forall|k: int, l: int| 0 <= k < l < front_a.len() implies ranks_before(
            scores,
            #[trigger] front_a[k],
            #[trigger] front_a[l],
        ) by {
            assert(ranks_before(scores, a[k], a[l]));
        }
        assert forall|k: int, l: int| 0 <= k < l < front_b.len() implies ranks_before(
            scores,
            #[trigger] front_b[k],
            #[trigger] front_b[l],
        ) by {
            assert(ranks_before(scores, b[k], b[l]));
        }
        lemma_rank_order_is_unique(scores, front_a, front_b);
        assert(a =~= front_a.push(last));
        assert(b =~= front_b.push(last));
    }
}

/// Every sequence of scores has a ranking, and `ranking_order` is one.
pub proof fn lemma_ranking_order_ranks(scores: Seq<int>)
    ensures
        is_ranking(scores, ranking_order(scores)),
{
    let order = lemma_rank_front(scores, scores.len() as int);
    assert(scores.take(scores.len() as int) =~= scores);
}

/// A sequence of scores has one ranking only.
pub proof fn lemma_ranking_is_unique(scores: Seq<int>, order: Seq<int>)
    requires
        is_ranking(scores, order),
    ensures
        order == ranking_order(scores),
{
    let other = ranking_order(scores);
    assert forall|i: int| order.contains(i) <==> other.contains(i) by {
        if order.contains(i) {
            let k = choose|k: int| 0 <= k < order.len() && order[k] == i;
            assert(scores[order[k]] < 0);
        }
        if other.contains(i) {
            let k = choose|k: int| 0 <= k < other.len() && other[k] == i;
            assert(scores[other[k]] < 0);
        }
    }
    lemma_rank_order_is_unique(scores, order, other);
}

/// A ranking shows matches only: each of its entries is one of the entries that
/// were given, scores below 0, and has a name that admits the query.
pub proof fn lemma_ranking_shows_matches_only(
    entries: Seq<DirectoryView>,
    query: Seq<char>,
    k: int,
)
    requires
        0 <= k < ranking(entries, query).len(),
    ensures
        entries.contains(ranking(entries, query)[k]),
        score_of(ranking(entries, query)[k].name, query) < 0,
        admits(ranking(entries, query)[k].name, query),
{
    let scores = scores_of(entries, query);
    lemma_ranking_order_ranks(scores);
    let place = ranking_order(scores)[k];
    assert(scores[place] < 0);
    assert(entries[place] == ranking(entries, query)[k]);
}

/// A ranking shows every match: an entry that scores below 0 is in it.
pub proof fn lemma_ranking_shows_every_match(
    entries: Seq<DirectoryView>,
    query: Seq<char>,
    i: int,
)
    requires
        0 <= i < entries.len(),
        score_of(entries[i].name, query) < 0,
    ensures
        ranking(entries, query).contains(entries[i]),
{
    let scores = scores_of(entries, query);
    lemma_ranking_order_ranks(scores);
    assert(scores[i] < 0);
    let order = ranking_order(scores);
    assert(order.contains(i));
    let k = choose|k: int| 0 <= k < order.len() && order[k] == i;
    assert(ranking(entries, query)[k] == entries[i]);
}

/// A ranking shows the better match first: of two of its entries, the one with
/// the smaller score stands before the other, so that the scores never fall from
/// one place to the next.
pub proof fn lemma_ranking_shows_best_first(
    entries: Seq<DirectoryView>,
    query: Seq<char>,
    k: int,
    l: int,
)
    requires
        0 <= k < ranking(entries, query).len(),
        0 <= l < ranking(entries, query).len(),
    ensures
        score_of(ranking(entries, query)[k].name, query) < score_of(
            ranking(entries, query)[l].name,
            query,
        ) ==> k < l,
        k <= l ==> score_of(ranking(entries, query)[k].name, query) <= score_of(
            ranking(entries, query)[l].name,
            query,
        ),
{
    let scores = scores_of(entries, query);
    lemma_ranking_order_ranks(scores);
    let order = ranking_order(scores);
    assert(scores[order[k]] == score_of(ranking(entries, query)[k].name, query));
    assert(scores[order[l]] == score_of(ranking(entries, query)[l].name, query));
    if k < l {
        assert(ranks_before(scores, order[k], order[l]));
    }
    if l < k {
        assert(ranks_before(scores, order[l], order[k]));
    }
}

/// Matches that score the same are shown in the order in which they were given.
pub proof fn lemma_ranking_keeps_ties_in_order(scores: Seq<int>, k: int, l: int)
    requires
        0 <= k < ranking_order(scores).len(),
        0 <= l < ranking_order(scores).len(),
        scores[ranking_order(scores)[k]] == scores[ranking_order(scores)[l]],
        ranking_order(scores)[k] < ranking_order(scores)[l],
    ensures
        k < l,
{
    lemma_ranking_order_ranks(scores);
    let order = ranking_order(scores);
    if l < k {
        assert(ranks_before(scores, order[l], order[k]));
    }
}

/// Where there is nothing to rank, the ranking is empty.
pub proof fn lemma_ranking_of_nothing(query: Seq<char>)
    ensures
        ranking(Seq::empty(), query) == Seq::<DirectoryView>::empty(),
{
    let scores = scores_of(Seq::empty(), query);
    lemma_ranking_order_ranks(scores);
    let order = ranking_order(scores);
    if order.len() > 0 {
        assert(0 <= order[0] < scores.len());
    }
    assert(ranking(Seq::empty(), query) =~= Seq::<DirectoryView>::empty());
}

/// The empty query matches nothing: its ranking is empty, whatever the entries.
pub proof fn lemma_ranking_of_empty_query(entries: Seq<DirectoryView>)
    ensures
        ranking(entries, Seq::empty()) == Seq::<DirectoryView>::empty(),
{
    let scores = scores_of(entries, Seq::empty());
    lemma_ranking_order_ranks(scores);
    let order = ranking_order(scores);
    if order.len() > 0 {
        assert(scores[order[0]] < 0);
    }
    assert(ranking(entries, Seq::empty()) =~= Seq::<DirectoryView>::empty());
}

/// `sorted` holds the pairs of `pairs` by ascending first part, and pairs with
/// equal first parts in the order that they had in `pairs`. `from` tells where
/// each came from: the pair at place `a` of `sorted` stood at place `from[a]` of
/// `pairs`, and every place of `pairs` is named once.
pub open spec fn is_stable_sort(
    pairs: Seq<(i64, usize)>,
    sorted: Seq<(i64, usize)>,
    from: Seq<int>,
) -> bool {
    &&& sorted.len() == pairs.len()
    &&& from.len() == pairs.len()
    &&& forall|a: int|
        0 <= a < from.len() ==> 0 <= #[trigger] from[a] < pairs.len() && sorted[a]
            == pairs[from[a]]
    &&& forall|i: int| 0 <= i < pairs.len() ==> #[trigger] from.contains(i)
    &&& forall|a: int, b: int|
        0 <= a < b < from.len() ==> sorted[a].0 < sorted[b].0 || (sorted[a].0 == sorted[b].0
            && #[trigger] from[a] < #[trigger] from[b])
}

/// Calls `sorted_by_key` of `itertools::Itertools` with the first part of a pair
/// as the key. Its documentation says that all elements are sorted into ascending
/// order and that the sort is stable, which is what the contract states.
#[verifier::external_body]
pub(crate) fn sorted_by_score(pairs: Vec<(i64, usize)>) -> (sorted: Vec<(i64, usize)>)
    ensures
        exists|from: Seq<int>| is_stable_sort(pairs@, sorted@, from),
{
    pairs.into_iter().sorted_by_key(|pair| pair.0).collect()
}

/// The directories whose name matches `query`, the best match first. Directories
/// that match equally well stay in the order in which they were given.
pub fn sort_and_filter_matching_directories(directories: Vec<Directory>, query: String) -> (ranked:
    Vec<Directory>)
    ensures
        views(ranked@) == ranking(views(directories@), query@),
{
    let ghost entries = views(directories@);
    let ghost scores = scores_of(entries, query@);
    let mut pairs: Vec<(i64, usize)> = Vec::new();
    let mut i: usize = 0;
    while i < directories.len()
        invariant
            i <= directories.len(),
            pairs.len() == i,
            entries == views(directories@),
            scores == scores_of(entries, query@),
            forall|j: int| 0 <= j < i ==> (#[trigger] pairs[j]).0 == scores[j] && pairs[j].1 == j,
        decreases directories.len() - i,
    {
        let score: i64 = directories[i].calculate_matching_score(query.clone());
        pairs.push((score, i));
        i += 1;
    }
    let ghost keyed = pairs@;
    let sorted = sorted_by_score(pairs);
    let ghost from = choose|from: Seq<int>| is_stable_sort(keyed, sorted@, from);
    let mut ranked: Vec<Directory> = Vec::new();
    let ghost mut order: Seq<int> = Seq::empty();
    let ghost mut taken: Seq<int> = Seq::empty();
    let mut a: usize = 0;
    while a < sorted.len()
        invariant
            a <= sorted.len(),
            keyed.len() == directories.len(),
            entries == views(directories@),
            scores == scores_of(entries, query@),
            forall|j: int|
                0 <= j < keyed.len() ==> (#[trigger] keyed[j]).0 == scores[j] && keyed[j].1 == j,
            is_stable_sort(keyed, sorted@, from),
            ranked.len() == order.len(),
            taken.len() == order.len(),
            forall|k: int|
                0 <= k < order.len() ==> 0 <= #[trigger] taken[k] < a && order[k] == from[taken[k]]
                    && scores[order[k]] < 0,
            forall|k: int| 0 <= k < order.len() ==> (#[trigger] ranked[k])@ == entries[order[k]],
            forall|k: int, l: int|
                0 <= k < l < taken.len() ==> #[trigger] taken[k] < #[trigger] taken[l],
            forall|b: int| 0 <= b < a && (#[trigger] sorted[b]).0 < 0 ==> taken.contains(b),
        decreases sorted.len() - a,
    {
        let pair = sorted[a];
        assert(sorted[a as int] == keyed[from[a as int]]);
        if pair.0 < 0 {
            let copy = directories[pair.1].clone();
            ranked.push(copy);
            proof {
                let ghost before = taken;
                order = order.push(pair.1 as int);
                taken = taken.push(a as int);
                assert forall|b: int| 0 <= b < a + 1 && (#[trigger] sorted[b]).0
                    < 0 implies taken.contains(b) by {
                    if b < a {
                        assert(before.contains(b));
                        let k = choose|k: int| 0 <= k < before.len() && before[k] == b;
                        assert(taken[k] == b);
                    } else {
                        assert(taken[before.len() as int] == b);
                    }
                }
            }
        }
        a += 1;
    }
    proof {
        assert forall|i: int|
            #![trigger scores[i]]
            0 <= i < scores.len() && scores[i] < 0 implies order.contains(i) by {
            assert(from.contains(i));
            let b = choose|b: int| 0 <= b < from.len() && from[b] == i;
            assert(sorted[b] == keyed[from[b]]);
            assert(keyed[i].0 == scores[i]);
            assert(taken.contains(b));
            let k = choose|k: int| 0 <= k < taken.len() && taken[k] == b;
            assert(order[k] == from[taken[k]]);
        }
        assert forall|k: int, l: int| 0 <= k < l < order.len() implies ranks_before(
            scores,
            #[trigger] order[k],
            #[trigger] order[l],
        ) by {
            assert(taken[k] < taken[l]);
            assert(sorted[taken[k]] == keyed[from[taken[k]]]);
            assert(sorted[taken[l]] == keyed[from[taken[l]]]);
            assert(keyed[order[k]].0 == scores[order[k]]);
            assert(keyed[order[l]].0 == scores[order[l]]);
        }
        assert forall|k: int| 0 <= k < order.len() implies 0 <= #[trigger] order[k] < scores.len()
            && scores[order[k]] < 0 by {
            assert(order[k] == from[taken[k]]);
        }
        lemma_ranking_is_unique(scores, order);
        assert(views(ranked@) =~= ranking(entries, query@));
    }
    ranked
}

} // verus!
