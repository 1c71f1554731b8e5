//! Ranking of a corpus by similarity score.
//!
//! Scores are ranked as unsigned integers, the highest first.  Entries with
//! the same score keep the order in which the corpus holds them.  A caller
//! whose scores are non-negative floating-point numbers ranks them by their
//! IEEE-754 bit patterns, which are ordered as the numbers are.

use vstd::prelude::*;

verus! {

/// Entry `a` of the corpus ranks before entry `b`: its score is higher, or
/// the scores are the same and `a` stands earlier in the corpus.
pub open spec fn ranks_before(scores: Seq<u64>, a: int, b: int) -> bool {
    scores[a] > scores[b] || (scores[a] == scores[b] && a < b)
}

/// `order` lists every entry of the corpus once, each before all that it
/// ranks before.
pub open spec fn is_ranking(scores: Seq<u64>, order: Seq<usize>) -> bool {
    &&& order.len() == scores.len()
    &&& forall|i: int| 0 <= i < order.len() ==> (#[trigger] order[i]) < scores.len()
    &&& forall|entry: int| 0 <= entry < scores.len() ==> lists(order, entry)
    &&& forall|i: int, j: int|
        0 <= i < j < order.len() ==> ranks_before(
            scores,
            #[trigger] order[i] as int,
            #[trigger] order[j] as int,
        )
}

/// `entry` stands somewhere in `order`.
pub open spec fn lists(order: Seq<usize>, entry: int) -> bool {
    exists|i: int| 0 <= i < order.len() && #[trigger] order[i] == entry
}

/// `order` ranks the first `count` entries of the corpus.
spec fn ranks_prefix(scores: Seq<u64>, order: Seq<usize>, count: int) -> bool {
    &&& order.len() == count
    &&& forall|i: int| 0 <= i < order.len() ==> (#[trigger] order[i]) < count
    &&& forall|entry: int| 0 <= entry < count ==> lists(order, entry)
    &&& forall|i: int, j: int|
        0 <= i < j < order.len() ==> ranks_before(
            scores,
            #[trigger] order[i] as int,
            #[trigger] order[j] as int,
        )
}

/// Putting the next entry of the corpus behind the ranked entries that score
/// no less, and before those that score less, ranks one entry more.
proof fn lemma_insert_ranks_next(scores: Seq<u64>, order: Seq<usize>, next: usize, position: int)
    requires
        next < scores.len(),
        ranks_prefix(scores, order, next as int),
        0 <= position <= order.len(),
        forall|i: int| 0 <= i < position ==> scores[(#[trigger] order[i]) as int] >= scores[next as int],
        forall|i: int|
            position <= i < order.len() ==> scores[(#[trigger] order[i]) as int] < scores[next as int],
    ensures
        ranks_prefix(scores, order.insert(position, next), next + 1),
{
    let longer = order.insert(position, next);
    order.insert_ensures(position, next);
    assert forall|entry: int| 0 <= entry < next + 1 implies lists(longer, entry) by {
        if entry == next {
            assert(longer[position] == entry);
        } else {
            assert(lists(order, entry));
            let i = choose|i: int| 0 <= i < order.len() && #[trigger] order[i] == entry;
            if i < position {
                assert(longer[i] == entry);
            } else {
                assert(longer[i + 1] == entry);
            }
        }
    }
    assert forall|i: int, j: int| 0 <= i < j < longer.len() implies ranks_before(
        scores,
        #[trigger] longer[i] as int,
        #[trigger] longer[j] as int,
    ) by {
        let before = |k: int|
            if k < position {
                k
            } else {
                k - 1
            };
        if i != position {
            assert(longer[i] == order[before(i)]);
        }
        if j != position {
            assert(longer[j] == order[before(j)]);
        }
        if i != position && j != position {
            assert(ranks_before(scores, order[before(i)] as int, order[before(j)] as int));
        }
    }
    assert forall|i: int| 0 <= i < longer.len() implies (#[trigger] longer[i]) < next + 1 by {
        if i < position {
            assert(longer[i] == order[i]);
        } else if i > position {
            assert(longer[i] == order[i - 1]);
        }
    }
}

/// Ranks the entries of a corpus by their scores: the result lists the
/// indices of all entries, those with the highest score first, and those with
/// the same score in corpus order.
pub fn rank_by_score(scores: &Vec<u64>) -> (order: Vec<usize>)
    ensures
        is_ranking(scores@, order@),
{
    let mut order: Vec<usize> = Vec::new();
    let mut next: usize = 0;
    while next < scores.len()
        invariant
            next <= scores@.len(),
            ranks_prefix(scores@, order@, next as int),
        decreases scores@.len() - next,
    {
        let score: u64 = scores[next];
        let mut low: usize = 0;
        let mut high: usize = order.len();
        while low < high
            invariant
                next < scores@.len(),
                score == scores@[next as int],
                ranks_prefix(scores@, order@, next as int),
                low <= high <= order@.len(),
                forall|i: int| 0 <= i < low ==> scores@[(#[trigger] order@[i]) as int] >= score,
                forall|i: int|
                    high <= i < order@.len() ==> scores@[(#[trigger] order@[i]) as int] < score,
            decreases high - low,
        {
            let middle: usize = low + (high - low) / 2;
            let entry: usize = order[middle];
            if scores[entry] >= score {
                proof {
                    assert forall|i: int| 0 <= i < middle + 1 implies scores@[(
                    #[trigger] order@[i]) as int] >= score by {
                        if i < middle {
                            assert(ranks_before(scores@, order@[i] as int, order@[middle as int] as int));
                        }
                    }
                }
                low = middle + 1;
            } else {
                proof {
                    assert forall|i: int| middle <= i < order@.len() implies scores@[(
                    #[trigger] order@[i]) as int] < score by {
                        if i > middle {
                            assert(ranks_before(scores@, order@[middle as int] as int, order@[i] as int));
                        }
                    }
                }
                high = middle;
            }
        }
        proof {
            lemma_insert_ranks_next(scores@, order@, next, low as int);
        }
        order.insert(low, next);
        next += 1;
    }
    order
}

/// The best `k` entries of a ranking, or all of them where there are fewer.
pub fn top_k(order: &Vec<usize>, k: usize) -> (best: Vec<usize>)
    ensures
        best@ == order@.take(
            if k <= order@.len() {
                k as int
            } else {
                order@.len() as int
            },
        ),
{
    let count: usize = if k <= order.len() {
        k
    } else {
        order.len()
    };
    let mut best: Vec<usize> = Vec::new();
    let mut i: usize = 0;
    while i < count
        invariant
            i <= count <= order@.len(),
            best@ == order@.take(i as int),
        decreases count - i,
    {
        best.push(order[i]);
        assert(order@.take(i as int).push(order@[i as int]) =~= order@.take(i + 1));
        i += 1;
    }
    best
}

/// A corpus has one ranking only: two rankings of the same scores are the
/// same list.
pub proof fn lemma_ranking_is_unique(scores: Seq<u64>, first: Seq<usize>, second: Seq<usize>)
    requires
        is_ranking(scores, first),
        is_ranking(scores, second),
    ensures
        first == second,
{
    assert forall|i: int| 0 <= i < first.len() implies first[i] == second[i] by {
        lemma_rankings_agree_at(scores, first, second, i);
    }
    assert(first =~= second);
}

/// Two rankings of the same scores hold the same entry at every place.
proof fn lemma_rankings_agree_at(scores: Seq<u64>, first: Seq<usize>, second: Seq<usize>, at: int)
    requires
        is_ranking(scores, first),
        is_ranking(scores, second),
        0 <= at < first.len(),
    ensures
        first[at] == second[at],
    decreases at,
{
    assert forall|i: int| 0 <= i < at implies first[i] == second[i] by {
        lemma_rankings_agree_at(scores, first, second, i);
    }
    let a = first[at];
    let b = second[at];
    if a != b {
        // Each ranking lists the other's entry, and can do so only further back.
        assert(lists(second, a as int));
        let in_second = choose|i: int| 0 <= i < second.len() && #[trigger] second[i] == a as int;
        assert(lists(first, b as int));
        let in_first = choose|i: int| 0 <= i < first.len() && #[trigger] first[i] == b as int;
        if in_second < at {
            assert(first[in_second] == a);
            assert(ranks_before(scores, first[in_second] as int, first[at] as int));
        }
        if in_first < at {
            assert(second[in_first] == b);
            assert(ranks_before(scores, second[in_first] as int, second[at] as int));
        }
        assert(ranks_before(scores, first[at] as int, first[in_first] as int));
        assert(ranks_before(scores, second[at] as int, second[in_second] as int));
    }
}

/// Entries with the same score stand in a ranking in corpus order.
pub proof fn lemma_ties_keep_corpus_order(scores: Seq<u64>, order: Seq<usize>, i: int, j: int)
    requires
        is_ranking(scores, order),
        0 <= i < j < order.len(),
        scores[order[i] as int] == scores[order[j] as int],
    ensures
        order[i] < order[j],
{
    assert(ranks_before(scores, order[i] as int, order[j] as int));
}

/// A ranking never lists a lower score before a higher one.
pub proof fn lemma_ranking_descends(scores: Seq<u64>, order: Seq<usize>, i: int, j: int)
    requires
        is_ranking(scores, order),
        0 <= i <= j < order.len(),
    ensures
        scores[order[i] as int] >= scores[order[j] as int],
{
    if i < j {
        assert(ranks_before(scores, order[i] as int, order[j] as int));
    }
}

} // verus!
