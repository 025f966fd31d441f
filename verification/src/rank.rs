use vstd::prelude::*;
use vstd::set_lib::{lemma_int_range, lemma_len_subset, set_int_range};

verus! {

/// Candidate `a` is ranked ahead of candidate `b`: the higher score comes
/// first, and of two equal scores the lower id.
pub open spec fn ranks_before(scores: Seq<i64>, a: int, b: int) -> bool {
    scores[a] > scores[b] || (scores[a] == scores[b] && a < b)
}

/// `id` is one of the first `n` ids and is not excluded.
pub open spec fn eligible(excluded: Set<int>, n: int, id: int) -> bool {
    0 <= id < n && !excluded.contains(id)
}

/// `id` occurs in `ranking`.
pub open spec fn listed(ranking: Seq<usize>, id: int) -> bool {
    exists|i: int| 0 <= i < ranking.len() && #[trigger] ranking[i] == id
}

/// `ranking` holds the `k` best eligible candidates among the first `n`
/// ids, best first; where fewer than `k` are eligible, it holds them all.
pub open spec fn is_ranking(
    ranking: Seq<usize>,
    scores: Seq<i64>,
    excluded: Set<int>,
    n: int,
    k: int,
) -> bool {
    &&& ranking.len() <= k
    &&& forall|i: int| 0 <= i < ranking.len() ==> eligible(excluded, n, #[trigger] ranking[i] as int)
    &&& forall|i: int, j: int|
        0 <= i < j < ranking.len() ==> ranks_before(
            scores,
            #[trigger] ranking[i] as int,
            #[trigger] ranking[j] as int,
        )
    &&& forall|id: int|
        eligible(excluded, n, id) && !#[trigger] listed(ranking, id) ==> ranking.len() == k
    &&& forall|id: int, i: int|
        eligible(excluded, n, id) && !#[trigger] listed(ranking, id) && 0 <= i < ranking.len()
            ==> ranks_before(scores, #[trigger] ranking[i] as int, id)
}

/// The ids that a mask marks.
pub open spec fn marked(mask: Seq<bool>) -> Set<int> {
    Set::new(|id: int| 0 <= id < mask.len() && mask[id])
}

/// A ranking is determined by the scores, the excluded ids and the bound:
/// two sequences that both are the ranking are equal.
pub proof fn lemma_ranking_is_unique(
    first: Seq<usize>,
    second: Seq<usize>,
    scores: Seq<i64>,
    excluded: Set<int>,
    n: int,
    k: int,
)
    requires
        is_ranking(first, scores, excluded, n, k),
        is_ranking(second, scores, excluded, n, k),
    ensures
        first == second,
{
    lemma_rankings_share_prefix(first, second, scores, excluded, n, k, first.len() as int);
    lemma_rankings_share_prefix(second, first, scores, excluded, n, k, second.len() as int);
}

/// Two rankings agree on the first `m` places of the first one, all of
/// which the second one has.
proof fn lemma_rankings_share_prefix(
    first: Seq<usize>,
    second: Seq<usize>,
    scores: Seq<i64>,
    excluded: Set<int>,
    n: int,
    k: int,
    m: int,
)
    requires
        is_ranking(first, scores, excluded, n, k),
        is_ranking(second, scores, excluded, n, k),
        0 <= m <= first.len(),
    ensures
        m <= second.len(),
        forall|i: int| 0 <= i < m ==> first[i] == second[i],
    decreases m,
{
    if m > 0 {
        lemma_rankings_share_prefix(first, second, scores, excluded, n, k, m - 1);
        let p = m - 1;
        // The id at place `p` of either ranking stands in the other at a
        // place that can be neither before nor after `p`.
        if listed(second, first[p] as int) {
            let j = choose|j: int| 0 <= j < second.len() && #[trigger] second[j] == first[p];
            assert(second[j] == first[p]);
        }
        if p < second.len() && listed(first, second[p] as int) {
            let i = choose|i: int| 0 <= i < first.len() && #[trigger] first[i] == second[p];
            assert(first[i] == second[p]);
        }
    }
}

/// The candidates of a ranking: the ids below `n` that are not excluded.
pub open spec fn candidates(excluded: Set<int>, n: int) -> Set<int> {
    Set::new(|id: int| eligible(excluded, n, id))
}

/// A ranking holds `k` candidates, or all of them where they are fewer.
pub proof fn lemma_ranking_length(
    ranking: Seq<usize>,
    scores: Seq<i64>,
    excluded: Set<int>,
    n: int,
    k: int,
)
    requires
        is_ranking(ranking, scores, excluded, n, k),
        0 <= n,
    ensures
        candidates(excluded, n).finite(),
        ranking.len() == if k <= candidates(excluded, n).len() {
            k
        } else {
            candidates(excluded, n).len() as int
        },
{
    let all = candidates(excluded, n);
    let ids = Seq::new(ranking.len(), |i: int| ranking[i] as int);
    lemma_int_range(0, n);
    lemma_len_subset(all, set_int_range(0, n));
    // No id stands twice in a ranking, and all its ids are candidates.
    assert forall|i: int, j: int| 0 <= i < ids.len() && 0 <= j < ids.len() && i != j implies ids[i]
        != ids[j] by {
        if i < j {
            assert(ranks_before(scores, ranking[i] as int, ranking[j] as int));
        } else {
            assert(ranks_before(scores, ranking[j] as int, ranking[i] as int));
        }
    }
    ids.unique_seq_to_set();
    assert forall|id: int| ids.to_set().contains(id) implies all.contains(id) by {
        let i = choose|i: int| 0 <= i < ids.len() && ids[i] == id;
        assert(eligible(excluded, n, ranking[i] as int));
    }
    lemma_len_subset(ids.to_set(), all);
    if ranking.len() < k {
        // A ranking with room left holds every candidate.
        assert forall|id: int| all.contains(id) implies ids.to_set().contains(id) by {
            assert(listed(ranking, id));
            let i = choose|i: int| 0 <= i < ranking.len() && #[trigger] ranking[i] == id;
            assert(ids[i] == id);
        }
        assert(ids.to_set() =~= all);
    }
}

/// Ranks the ids `0 .. scores.len()` that `excluded` does not mark and
/// returns the `k` best, best first.
///
/// The time taken grows with the number of ids times `k`.
pub fn top_ranked(scores: &Vec<i64>, excluded: &Vec<bool>, k: usize) -> (ranking: Vec<usize>)
    requires
        excluded.len() == scores.len(),
    ensures
        is_ranking(ranking@, scores@, marked(excluded@), scores.len() as int, k as int),
{
    let n: usize = scores.len();
    let ghost out = marked(excluded@);
    let mut best: Vec<usize> = Vec::new();
    let mut a: usize = 0;
    while a < n
        invariant
            a <= n,
            n == scores.len(),
            excluded.len() == n,
            out == marked(excluded@),
            is_ranking(best@, scores@, out, a as int, k as int),
        decreases n - a,
    {
        let ghost before = best@;
        if !excluded[a] {
            // The place of `a` is behind every entry that does not score
            // less: the ids of the entries are lower.
            let mut p: usize = best.len();
            while p > 0 && scores[best[p - 1]] < scores[a]
                invariant
                    p <= best.len(),
                    best@ == before,
                    a < n,
                    n == scores.len(),
                    is_ranking(before, scores@, out, a as int, k as int),
                    forall|i: int|
                        p <= i < best.len() ==> scores[#[trigger] best[i] as int] < scores[a as int],
                decreases p,
            {
                p -= 1;
            }
            // Where the place is beyond the `k` best, `a` is not among them.
            if p < k {
                best.insert(p, a);
                let ghost grown = best@;
                proof {
                    assert forall|id: int| listed(before, id) implies listed(grown, id) by {
                        let i = choose|i: int| 0 <= i < before.len() && #[trigger] before[i] == id;
                        if i < p {
                            assert(grown[i] == id);
                        } else {
                            assert(grown[i + 1] == id);
                        }
                    }
                    assert(grown[p as int] == a);
                    assert forall|id: int, i: int|
                        #![trigger listed(grown, id), grown[i]]
                        eligible(out, a + 1, id) && !listed(grown, id) && 0 <= i < grown.len()
                        implies ranks_before(scores@, grown[i] as int, id) by {
                        assert(ranks_before(scores@, before[p as int] as int, id));
                    }
                }
                if best.len() > k {
                    // The entry that leaves is ranked behind all that stay.
                    best.pop();
                    proof {
                        let kept = best@;
                        assert forall|id: int, i: int|
                            #![trigger listed(kept, id), kept[i]]
                            eligible(out, a + 1, id) && !listed(kept, id) && 0 <= i < kept.len()
                            implies ranks_before(scores@, kept[i] as int, id) by {
                            if listed(grown, id) {
                                let j = choose|j: int| 0 <= j < grown.len() && #[trigger] grown[j] == id;
                                if j < k {
                                    assert(kept[j] == id);
                                }
                            }
                        }
                    }
                }
            }
        }
        a += 1;
    }
    best
}

} // verus!
