//! Ranking scored candidates and selecting the best of them.
//!
//! Candidates are known by their position in the input. A candidate ranks
//! before another when its score is higher, or when the scores rank alike and
//! it came earlier in the input. That order is total, so for every input and
//! every limit there is exactly one ranking.

use crate::score::Score;
use vstd::prelude::*;

verus! {

/// The number of results returned when nothing else is asked for.
pub const DEFAULT_TOP_K: usize = 3;

/// Positions as mathematical integers.
pub open spec fn positions(order: Seq<usize>) -> Seq<int> {
    Seq::new(order.len(), |i: int| order[i] as int)
}

/// Whether the candidate at position `p` ranks before the one at position `q`:
/// its score is higher, or neither score is higher and `p` came first.
pub open spec fn ranks_before(scores: Seq<Score>, p: int, q: int) -> bool {
    scores[p].outranks(scores[q]) || (!scores[q].outranks(scores[p]) && p < q)
}

/// Whether `order` lists the best `k` of the first `n` candidates, best first.
///
/// It has `k` entries, or `n` where there are fewer candidates. Every entry is
/// a position below `n`. Each entry ranks before the entries behind it, and
/// every entry ranks before every candidate that is left out.
pub open spec fn is_ranking_of(scores: Seq<Score>, n: int, k: nat, order: Seq<int>) -> bool {
    &&& order.len() == if k <= n {
        k as int
    } else {
        n
    }
    &&& forall|i: int| 0 <= i < order.len() ==> 0 <= #[trigger] order[i] < n
    &&& forall|i: int, j: int|
        #![trigger order[i], order[j]]
        0 <= i < j < order.len() ==> ranks_before(scores, order[i], order[j])
    &&& forall|i: int, q: int|
        0 <= i < order.len() && 0 <= q < n && !order.contains(q) ==> #[trigger] ranks_before(
            scores,
            order[i],
            q,
        )
}

/// Whether `order` lists the best `k` of all candidates, best first.
pub open spec fn is_ranking(scores: Seq<Score>, k: nat, order: Seq<int>) -> bool {
    is_ranking_of(scores, scores.len() as int, k, order)
}

/// The ranking of the best `k` candidates.
pub open spec fn ranking(scores: Seq<Score>, k: nat) -> Seq<int> {
    choose|order: Seq<int>| is_ranking(scores, k, order)
}

/// Ranking before is a strict total order on positions.
pub proof fn lemma_ranks_before_is_total_order(scores: Seq<Score>, a: int, b: int, c: int)
    ensures
        !ranks_before(scores, a, a),
        ranks_before(scores, a, b) ==> !ranks_before(scores, b, a),
        ranks_before(scores, a, b) && ranks_before(scores, b, c) ==> ranks_before(scores, a, c),
        a != b ==> ranks_before(scores, a, b) || ranks_before(scores, b, a),
{
}

/// The order after the candidate at position `p` has been placed at index `at`
/// of a ranking that holds at most `k` entries.
spec fn placed(order: Seq<int>, p: int, k: nat, at: int) -> Seq<int> {
    if at < k {
        let len: nat = if order.len() < k {
            order.len() + 1
        } else {
            k
        };
        Seq::new(
            len,
            |j: int|
                if j < at {
                    order[j]
                } else if j == at {
                    p
                } else {
                    order[j - 1]
                },
        )
    } else {
        order
    }
}

/// Whether a ranking that is not yet full holds every candidate seen so far.
spec fn holds_all_unless_full(n: int, k: nat, order: Seq<int>) -> bool {
    order.len() < k ==> forall|q: int| 0 <= q < n ==> order.contains(q)
}

proof fn lemma_placed_is_ranking(scores: Seq<Score>, p: int, k: nat, order: Seq<int>, at: int)
    requires
        0 <= p < scores.len(),
        k > 0,
        is_ranking_of(scores, p, k, order),
        holds_all_unless_full(p, k, order),
        0 <= at <= order.len(),
        forall|i: int| 0 <= i < at ==> !scores[p].outranks(scores[#[trigger] order[i]]),
        at < order.len() ==> scores[p].outranks(scores[order[at]]),
    ensures
        is_ranking_of(scores, p + 1, k, placed(order, p, k, at)),
        holds_all_unless_full(p + 1, k, placed(order, p, k, at)),
{
    let new = placed(order, p, k, at);
    assert forall|i: int| 0 <= i < at implies ranks_before(scores, #[trigger] order[i], p) by {
        assert(order[i] < p);
    }
    if at < k {
        assert forall|i: int| at <= i < order.len() implies ranks_before(
            scores,
            p,
            #[trigger] order[i],
        ) by {
            if i > at {
                assert(ranks_before(scores, order[at], order[i]));
            }
        }
        assert(new[at] == p);
        assert forall|i: int| 0 <= i < new.len() implies 0 <= #[trigger] new[i] < p + 1 by {
            if i < at {
                assert(0 <= order[i] < p);
            } else if i > at {
                assert(0 <= order[i - 1] < p);
            }
        }
        assert forall|i: int, j: int|
            #![trigger new[i], new[j]]
            0 <= i < j < new.len() implies ranks_before(scores, new[i], new[j]) by {
            if j < at {
                assert(ranks_before(scores, order[i], order[j]));
            } else if j == at {
                assert(ranks_before(scores, order[i], p));
            } else if i < at {
                assert(ranks_before(scores, order[i], order[j - 1]));
            } else if i == at {
                assert(ranks_before(scores, p, order[j - 1]));
            } else {
                assert(ranks_before(scores, order[i - 1], order[j - 1]));
            }
        }
        assert forall|i: int, q: int|
            0 <= i < new.len() && 0 <= q < p + 1 && !new.contains(q) implies #[trigger] ranks_before(
            scores,
            new[i],
            q,
        ) by {
            assert(q != p);
            if order.contains(q) {
                let m = choose|m: int| 0 <= m < order.len() && order[m] == q;
                if m < at {
                    assert(new[m] == q);
                } else if m + 1 < new.len() {
                    assert(new[m + 1] == q);
                } else {
                    if i < at {
                        assert(ranks_before(scores, order[i], order[m]));
                    } else if i == at {
                        assert(ranks_before(scores, p, order[m]));
                    } else {
                        assert(ranks_before(scores, order[i - 1], order[m]));
                    }
                }
            } else {
                assert(order.len() == k);
                assert(ranks_before(scores, order[at], q));
                if i < at {
                    assert(ranks_before(scores, order[i], q));
                } else if i > at {
                    assert(ranks_before(scores, order[i - 1], q));
                }
            }
        }
        if new.len() < k {
            assert forall|q: int| 0 <= q < p + 1 implies new.contains(q) by {
                if q == p {
                    assert(new[at] == q);
                } else {
                    assert(order.contains(q));
                    let m = choose|m: int| 0 <= m < order.len() && order[m] == q;
                    if m < at {
                        assert(new[m] == q);
                    } else {
                        assert(new[m + 1] == q);
                    }
                }
            }
        }
    } else {
        assert forall|i: int, q: int|
            0 <= i < new.len() && 0 <= q < p + 1 && !new.contains(q) implies #[trigger] ranks_before(
            scores,
            new[i],
            q,
        ) by {
            if q == p {
                assert(ranks_before(scores, order[i], p));
            }
        }
    }
}

/// Ranks the candidates with the given scores and returns the positions of the
/// best `k`, best first. Where fewer than `k` candidates exist, all of them
/// are returned.
pub fn rank(scores: &Vec<Score>, k: usize) -> (order: Vec<usize>)
    ensures
        is_ranking(scores@, k as nat, positions(order@)),
        positions(order@) == ranking(scores@, k as nat),
{
    let n = scores.len();
    let mut best: Vec<usize> = Vec::new();
    if k > 0 {
        let mut p: usize = 0;
        while p < n
            invariant
                p <= n,
                n == scores.len(),
                k > 0,
                is_ranking_of(scores@, p as int, k as nat, positions(best@)),
                holds_all_unless_full(p as int, k as nat, positions(best@)),
            decreases n - p,
        {
            let ghost before = positions(best@);
            assert forall|i: int| 0 <= i < best.len() implies #[trigger] best@[i] < p by {
                assert(before[i] == best@[i]);
            }
            let mut at: usize = 0;
            while at < best.len() && !scores[p].beats(&scores[best[at]])
                invariant
                    at <= best.len(),
                    p < n,
                    n == scores.len(),
                    before == positions(best@),
                    forall|i: int| 0 <= i < best.len() ==> #[trigger] best@[i] < p,
                    forall|i: int|
                        0 <= i < at ==> !scores@[p as int].outranks(scores@[#[trigger] before[i]]),
                decreases best.len() - at,
            {
                assert(before[at as int] == best@[at as int]);
                at = at + 1;
            }
            proof {
                if at < best.len() {
                    assert(before[at as int] == best@[at as int]);
                }
                lemma_placed_is_ranking(scores@, p as int, k as nat, before, at as int);
            }
            if at < k {
                best.insert(at, p);
                if best.len() > k {
                    best.pop();
                }
                assert(positions(best@) =~= placed(before, p as int, k as nat, at as int));
            }
            p = p + 1;
        }
    } else {
        assert(is_ranking(scores@, 0, positions(best@)));
    }
    proof {
        lemma_ranking_is_unique(
            scores@,
            k as nat,
            positions(best@),
            ranking(scores@, k as nat),
        );
    }
    best
}

proof fn lemma_first_difference(
    scores: Seq<Score>,
    k: nat,
    first: Seq<int>,
    second: Seq<int>,
    i: int,
)
    requires
        is_ranking(scores, k, first),
        is_ranking(scores, k, second),
        0 <= i < first.len(),
        forall|j: int| 0 <= j < i ==> first[j] == second[j],
    ensures
        !ranks_before(scores, first[i], second[i]),
{
    let a = first[i];
    if ranks_before(scores, a, second[i]) {
        if second.contains(a) {
            let j = choose|j: int| 0 <= j < second.len() && second[j] == a;
            if j < i {
                assert(ranks_before(scores, first[j], first[i]));
            } else if j > i {
                assert(ranks_before(scores, second[i], second[j]));
            }
        } else {
            assert(ranks_before(scores, second[i], a));
        }
    }
}

/// There is at most one ranking: two orders that both list the best `k`
/// candidates, best first, are the same order.
pub proof fn lemma_ranking_is_unique(
    scores: Seq<Score>,
    k: nat,
    first: Seq<int>,
    second: Seq<int>,
)
    requires
        is_ranking(scores, k, first),
    ensures
        is_ranking(scores, k, second) ==> first == second,
        is_ranking(scores, k, ranking(scores, k)),
        first == ranking(scores, k),
{
    assert forall|other: Seq<int>| is_ranking(scores, k, other) implies first == other by {
        assert forall|i: int| 0 <= i < first.len() implies first[i] == other[i] by {
            lemma_equal_up_to(scores, k, first, other, i);
        }
        assert(first =~= other);
    }
}

proof fn lemma_equal_up_to(scores: Seq<Score>, k: nat, first: Seq<int>, second: Seq<int>, i: int)
    requires
        is_ranking(scores, k, first),
        is_ranking(scores, k, second),
        0 <= i < first.len(),
    ensures
        first[i] == second[i],
    decreases i,
{
    assert forall|j: int| 0 <= j < i implies first[j] == second[j] by {
        lemma_equal_up_to(scores, k, first, second, j);
    }
    if first[i] != second[i] {
        if ranks_before(scores, first[i], second[i]) {
            lemma_first_difference(scores, k, first, second, i);
        } else {
            assert(ranks_before(scores, second[i], first[i]));
            lemma_first_difference(scores, k, second, first, i);
        }
    }
}

/// The first index from `from` on whose entry the candidate at `p` outranks,
/// or the length of `order` where there is none.
spec fn first_outranked(scores: Seq<Score>, order: Seq<int>, p: int, from: int) -> int
    decreases order.len() - from,
{
    if from < 0 || from >= order.len() || scores[p].outranks(scores[order[from]]) {
        from
    } else {
        first_outranked(scores, order, p, from + 1)
    }
}

proof fn lemma_first_outranked(scores: Seq<Score>, order: Seq<int>, p: int, from: int)
    requires
        0 <= from <= order.len(),
    ensures
        from <= first_outranked(scores, order, p, from) <= order.len(),
        forall|i: int|
            from <= i < first_outranked(scores, order, p, from) ==> !scores[p].outranks(
                scores[#[trigger] order[i]],
            ),
        first_outranked(scores, order, p, from) < order.len() ==> scores[p].outranks(
            scores[order[first_outranked(scores, order, p, from)]],
        ),
    decreases order.len() - from,
{
    if from < order.len() && !scores[p].outranks(scores[order[from]]) {
        lemma_first_outranked(scores, order, p, from + 1);
    }
}

/// The ranking of the first `n` candidates, built by placing one candidate
/// after the other.
spec fn built(scores: Seq<Score>, n: nat, k: nat) -> Seq<int>
    decreases n,
{
    if n == 0 {
        Seq::empty()
    } else {
        let earlier = built(scores, (n - 1) as nat, k);
        placed(earlier, n - 1, k, first_outranked(scores, earlier, n - 1, 0))
    }
}

proof fn lemma_built_is_ranking(scores: Seq<Score>, n: nat, k: nat)
    requires
        k > 0,
        n <= scores.len(),
    ensures
        is_ranking_of(scores, n as int, k, built(scores, n, k)),
        holds_all_unless_full(n as int, k, built(scores, n, k)),
    decreases n,
{
    if n > 0 {
        let earlier = built(scores, (n - 1) as nat, k);
        lemma_built_is_ranking(scores, (n - 1) as nat, k);
        lemma_first_outranked(scores, earlier, n - 1, 0);
        lemma_placed_is_ranking(
            scores,
            n - 1,
            k,
            earlier,
            first_outranked(scores, earlier, n - 1, 0),
        );
    }
}

/// There is a ranking for every list of scores and every limit, so `ranking`
/// names the one there is.
pub proof fn lemma_ranking_exists(scores: Seq<Score>, k: nat)
    ensures
        is_ranking(scores, k, ranking(scores, k)),
{
    if k == 0 {
        assert(is_ranking(scores, k, Seq::<int>::empty()));
    } else {
        lemma_built_is_ranking(scores, scores.len(), k);
        assert(is_ranking(scores, k, built(scores, scores.len(), k)));
    }
}

/// Along a ranking the scores never rise, and no entry occurs twice.
pub proof fn lemma_ranking_is_sorted(scores: Seq<Score>, k: nat, order: Seq<int>, i: int, j: int)
    requires
        is_ranking(scores, k, order),
        0 <= i < j < order.len(),
    ensures
        !scores[order[j]].outranks(scores[order[i]]),
        scores[order[i]].rank_key() >= scores[order[j]].rank_key(),
        order[i] != order[j],
{
    assert(ranks_before(scores, order[i], order[j]));
}

/// A ranking holds `k` entries, or as many as there are candidates where there
/// are fewer than `k`.
pub proof fn lemma_ranking_length(scores: Seq<Score>, k: nat, order: Seq<int>)
    requires
        is_ranking(scores, k, order),
    ensures
        order.len() <= k,
        order.len() <= scores.len(),
        order.len() == k || order.len() == scores.len(),
{
}

} // verus!
