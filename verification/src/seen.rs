use crate::rank::listed;
use crate::store::{ballots_of, voted_in, votes_in_range, Vote};
use vstd::prelude::*;

verus! {

/// The ids of the list grow strictly from each place to the next.
pub open spec fn ascending(ids: Seq<usize>) -> bool {
    forall|i: int, j: int| 0 <= i < j < ids.len() ==> ids[i] < ids[j]
}

/// The views of the id lists of a list, in order.
pub open spec fn rows_of(lists: Seq<Vec<usize>>) -> Seq<Seq<usize>> {
    Seq::new(lists.len(), |i: int| lists[i]@)
}

/// `seen` has a list for each of the `users` users, and the list of a user
/// holds every article that the user has voted on.
pub open spec fn covers_votes(seen: Seq<Seq<usize>>, votes: Seq<Seq<Vote>>, users: nat) -> bool {
    &&& seen.len() == users
    &&& forall|a: int, j: int|
        0 <= a < votes.len() && 0 <= j < votes[a].len() && (#[trigger] votes[a][j]).0 < users
            ==> listed(seen[votes[a][j].0 as int], a)
}

/// `seen` lists, for each of the `users` users, exactly the articles the
/// user has voted on, each once, by ascending id.
pub open spec fn is_seen_filter(seen: Seq<Seq<usize>>, votes: Seq<Seq<Vote>>, users: nat) -> bool {
    &&& covers_votes(seen, votes, users)
    &&& forall|u: int| 0 <= u < seen.len() ==> ascending(#[trigger] seen[u])
    &&& forall|u: int, i: int|
        0 <= u < seen.len() && 0 <= i < seen[u].len() ==> (#[trigger] seen[u][i]) < votes.len()
            && voted_in(votes[seen[u][i] as int], u)
}

/// Two ascending lists that hold the same ids are the same list.
pub proof fn lemma_ascending_lists_are_equal(first: Seq<usize>, second: Seq<usize>)
    requires
        ascending(first),
        ascending(second),
        forall|id: int| listed(first, id) <==> listed(second, id),
    ensures
        first == second,
{
    lemma_ascending_lists_share_prefix(first, second, first.len() as int);
    lemma_ascending_lists_share_prefix(second, first, second.len() as int);
}

/// Two ascending lists that hold the same ids agree on the first `m`
/// places of the first one, all of which the second one has.
proof fn lemma_ascending_lists_share_prefix(first: Seq<usize>, second: Seq<usize>, m: int)
    requires
        ascending(first),
        ascending(second),
        forall|id: int| listed(first, id) <==> listed(second, id),
        0 <= m <= first.len(),
    ensures
        m <= second.len(),
        forall|i: int| 0 <= i < m ==> first[i] == second[i],
    decreases m,
{
    if m > 0 {
        lemma_ascending_lists_share_prefix(first, second, m - 1);
        let p = m - 1;
        // The id at place `p` of either list stands in the other at a
        // place that can be neither before nor after `p`.
        assert(listed(first, first[p] as int));
        let j = choose|j: int| 0 <= j < second.len() && #[trigger] second[j] == first[p];
        assert(second[j] == first[p]);
        if p < second.len() {
            assert(listed(second, second[p] as int));
            let i = choose|i: int| 0 <= i < first.len() && #[trigger] first[i] == second[p];
            assert(first[i] == second[p]);
        }
    }
}

/// The filter of seen articles is determined by the votes: two lists of
/// lists that both are the filter are equal.
pub proof fn lemma_seen_filter_is_unique(
    first: Seq<Seq<usize>>,
    second: Seq<Seq<usize>>,
    votes: Seq<Seq<Vote>>,
    users: nat,
)
    requires
        is_seen_filter(first, votes, users),
        is_seen_filter(second, votes, users),
    ensures
        first == second,
{
    assert forall|u: int| 0 <= u < users implies #[trigger] first[u] == second[u] by {
        lemma_filter_lists_the_voted(first, votes, users, u);
        lemma_filter_lists_the_voted(second, votes, users, u);
        lemma_ascending_lists_are_equal(first[u], second[u]);
    }
}

/// The list of a user in the filter holds an article if and only if the
/// user has voted on it.
pub proof fn lemma_filter_lists_the_voted(
    seen: Seq<Seq<usize>>,
    votes: Seq<Seq<Vote>>,
    users: nat,
    user: int,
)
    requires
        is_seen_filter(seen, votes, users),
        0 <= user < users,
    ensures
        forall|article: int|
            listed(seen[user], article) <==> 0 <= article < votes.len() && voted_in(
                votes[article],
                user,
            ),
{
    assert forall|article: int| listed(seen[user], article) implies 0 <= article < votes.len()
        && voted_in(votes[article], user) by {
        let i = choose|i: int| 0 <= i < seen[user].len() && #[trigger] seen[user][i] == article;
        assert(seen[user][i] < votes.len());
    }
    assert forall|article: int|
        0 <= article < votes.len() && voted_in(votes[article], user) implies listed(
        seen[user],
        article,
    ) by {
        let j = choose|j: int| 0 <= j < votes[article].len() && (#[trigger] votes[article][j]).0 == user;
        assert(listed(seen[votes[article][j].0 as int], article));
    }
}

/// Builds the filter of seen articles in one pass over the votes.
pub fn seen_filter(votes: &Vec<Vec<Vote>>, users: usize) -> (seen: Vec<Vec<usize>>)
    requires
        forall|a: int| 0 <= a < votes.len() ==> votes_in_range(#[trigger] votes[a]@, users as nat),
    ensures
        is_seen_filter(rows_of(seen@), ballots_of(votes@), users as nat),
{
    let mut seen: Vec<Vec<usize>> = Vec::new();
    while seen.len() < users
        invariant
            seen.len() <= users,
            forall|u: int| 0 <= u < seen.len() ==> (#[trigger] seen[u]@).len() == 0,
        decreases users - seen.len(),
    {
        seen.push(Vec::new());
    }
    let mut a: usize = 0;
    while a < votes.len()
        invariant
            a <= votes.len(),
            seen.len() == users,
            forall|b: int| 0 <= b < votes.len() ==> votes_in_range(#[trigger] votes[b]@, users as nat),
            forall|u: int| 0 <= u < seen.len() ==> ascending(#[trigger] seen[u]@),
            forall|u: int, i: int|
                0 <= u < seen.len() && 0 <= i < seen[u]@.len() ==> (#[trigger] seen[u]@[i]) < a
                    && voted_in(votes[seen[u]@[i] as int]@, u),
            forall|b: int, j: int|
                0 <= b < a && 0 <= j < votes[b]@.len() ==> listed(
                    seen[(#[trigger] votes[b]@[j]).0 as int]@,
                    b,
                ),
        decreases votes.len() - a,
    {
        let list = &votes[a];
        let mut j: usize = 0;
        while j < list.len()
            invariant
                j <= list.len(),
                a < votes.len(),
                *list == votes[a as int],
                seen.len() == users,
                forall|b: int|
                    0 <= b < votes.len() ==> votes_in_range(#[trigger] votes[b]@, users as nat),
                forall|u: int| 0 <= u < seen.len() ==> ascending(#[trigger] seen[u]@),
                forall|u: int, i: int|
                    0 <= u < seen.len() && 0 <= i < seen[u]@.len() ==> (#[trigger] seen[u]@[i]) <= a
                        && voted_in(votes[seen[u]@[i] as int]@, u),
                forall|b: int, i: int|
                    0 <= b < a && 0 <= i < votes[b]@.len() ==> listed(
                        seen[(#[trigger] votes[b]@[i]).0 as int]@,
                        b,
                    ),
                forall|i: int| 0 <= i < j ==> listed(seen[(#[trigger] list@[i]).0 as int]@, a as int),
            decreases list.len() - j,
        {
            let user: usize = list[j].0;
            let ghost before = seen@;
            let known: usize = seen[user].len();
            if known == 0 || seen[user][known - 1] != a {
                seen[user].push(a);
                proof {
                    let row = before[user as int]@;
                    assert forall|b: int, i: int| 0 <= b < a && 0 <= i < votes[b]@.len() implies listed(
                        seen[(#[trigger] votes[b]@[i]).0 as int]@,
                        b,
                    ) by {
                        lemma_listed_after_push(before, seen@, user as int, a, votes[b]@[i].0 as int, b);
                    }
                    assert forall|i: int| 0 <= i < j + 1 implies listed(
                        seen[(#[trigger] list@[i]).0 as int]@,
                        a as int,
                    ) by {
                        if i < j {
                            lemma_listed_after_push(
                                before,
                                seen@,
                                user as int,
                                a,
                                list@[i].0 as int,
                                a as int,
                            );
                        } else {
                            assert(seen[user as int]@[row.len() as int] == a);
                        }
                    }
                }
            }
            j += 1;
        }
        a += 1;
    }
    proof {
        let rows = rows_of(seen@);
        let ballots = ballots_of(votes@);
    }
    seen
}

/// What a row lists, it still lists after an id was appended to one row.
proof fn lemma_listed_after_push(
    before: Seq<Vec<usize>>,
    after: Seq<Vec<usize>>,
    row: int,
    added: usize,
    u: int,
    id: int,
)
    requires
        0 <= row < before.len(),
        0 <= u < before.len(),
        after.len() == before.len(),
        after[row]@ == before[row]@.push(added),
        forall|v: int| 0 <= v < before.len() && v != row ==> after[v] == before[v],
        listed(before[u]@, id),
    ensures
        listed(after[u]@, id),
{
    let i = choose|i: int| 0 <= i < before[u]@.len() && #[trigger] before[u]@[i] == id;
    assert(after[u]@[i] == id);
}

/// Marks, among the ids below `n`, those that `ids` holds.
pub fn mark_ids(ids: &Vec<usize>, n: usize) -> (mask: Vec<bool>)
    ensures
        mask.len() == n,
        forall|a: int| 0 <= a < n ==> #[trigger] mask[a] == listed(ids@, a),
{
    let mut mask: Vec<bool> = Vec::new();
    while mask.len() < n
        invariant
            mask.len() <= n,
            forall|a: int| 0 <= a < mask.len() ==> !#[trigger] mask[a],
        decreases n - mask.len(),
    {
        mask.push(false);
    }
    let mut i: usize = 0;
    while i < ids.len()
        invariant
            i <= ids.len(),
            mask.len() == n,
            forall|a: int| 0 <= a < n ==> #[trigger] mask[a] == listed(ids@.subrange(0, i as int), a),
        decreases ids.len() - i,
    {
        let id: usize = ids[i];
        if id < n {
            mask[id] = true;
        }
        proof {
            let done = ids@.subrange(0, i as int);
            let next = ids@.subrange(0, i + 1);
            assert(next[i as int] == id);
            assert forall|a: int| 0 <= a < n implies #[trigger] mask[a] == listed(next, a) by {
                if listed(done, a) {
                    let x = choose|x: int| 0 <= x < done.len() && #[trigger] done[x] == a;
                    assert(next[x] == a);
                }
                if listed(next, a) && a != id {
                    let x = choose|x: int| 0 <= x < next.len() && #[trigger] next[x] == a;
                    assert(done[x] == a);
                }
            }
        }
        i += 1;
    }
    proof {
        assert(ids@.subrange(0, ids.len() as int) =~= ids@);
    }
    mask
}

/// Marks, among the user ids below `n`, those that cast one of `votes`.
pub fn mark_voters(votes: &Vec<Vote>, n: usize) -> (mask: Vec<bool>)
    ensures
        mask.len() == n,
        forall|u: int| 0 <= u < n ==> #[trigger] mask[u] == voted_in(votes@, u),
{
    let mut mask: Vec<bool> = Vec::new();
    while mask.len() < n
        invariant
            mask.len() <= n,
            forall|u: int| 0 <= u < mask.len() ==> !#[trigger] mask[u],
        decreases n - mask.len(),
    {
        mask.push(false);
    }
    let mut i: usize = 0;
    while i < votes.len()
        invariant
            i <= votes.len(),
            mask.len() == n,
            forall|u: int|
                0 <= u < n ==> #[trigger] mask[u] == voted_in(votes@.subrange(0, i as int), u),
        decreases votes.len() - i,
    {
        let id: usize = votes[i].0;
        if id < n {
            mask[id] = true;
        }
        proof {
            let done = votes@.subrange(0, i as int);
            let next = votes@.subrange(0, i + 1);
            assert(next[i as int].0 == id);
            assert forall|u: int| 0 <= u < n implies #[trigger] mask[u] == voted_in(next, u) by {
                if voted_in(done, u) {
                    let x = choose|x: int| 0 <= x < done.len() && (#[trigger] done[x]).0 == u;
                    assert(next[x].0 == u);
                }
                if voted_in(next, u) && u != id {
                    let x = choose|x: int| 0 <= x < next.len() && (#[trigger] next[x]).0 == u;
                    assert(done[x].0 == u);
                }
            }
        }
        i += 1;
    }
    proof {
        assert(votes@.subrange(0, votes.len() as int) =~= votes@);
    }
    mask
}

} // verus!
