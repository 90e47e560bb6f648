//! Ranking of plaintext entries against a search query.
use vstd::prelude::*;

use crate::primitives::{fuzzy_score, fuzzy_score_of};
use crate::vault::VaultEntry;

verus! {

/// The fuzzy score of each entry's name against the query.
pub open spec fn match_scores(entries: Seq<VaultEntry>, query: Seq<char>) -> Seq<Option<i64>> {
    entries.map_values(|e: VaultEntry| fuzzy_score_of(e.name@, query))
}

/// Entry `i` ranks before entry `j`: a higher score, or the same score and an
/// earlier entry.
pub open spec fn ranks_before(scores: Seq<Option<i64>>, i: int, j: int) -> bool {
    ||| scores[i]->Some_0 > scores[j]->Some_0
    ||| scores[i]->Some_0 == scores[j]->Some_0 && i < j
}

/// `order` lists each entry that matches, and only those, from best to worst
/// score, equal scores in entry order.
pub open spec fn is_ranking(order: Seq<usize>, scores: Seq<Option<i64>>) -> bool {
    &&& forall|k: int| 0 <= k < order.len() ==> order[k] < scores.len() && scores[order[k] as int] is Some
    &&& forall|m: int| 0 <= m < scores.len() && scores[m] is Some ==> order.contains(m as usize)
    &&& forall|j: int, k: int|
        0 <= j < k < order.len() ==> ranks_before(scores, order[j] as int, order[k] as int)
}

/// The positions of the entries whose name matches the query, best match
/// first.
pub fn rank(entries: &Vec<VaultEntry>, query: &str) -> (r: Vec<usize>)
    ensures
        is_ranking(r@, match_scores(entries@, query@)),
{
    let ghost scores = match_scores(entries@, query@);
    let mut order: Vec<usize> = Vec::new();
    let mut order_scores: Vec<i64> = Vec::new();
    let mut i: usize = 0;
    while i < entries.len()
        invariant
            scores == match_scores(entries@, query@),
            scores.len() == entries@.len(),
            0 <= i <= entries@.len(),
            order@.len() == order_scores@.len(),
            forall|k: int|
                0 <= k < order@.len() ==> order@[k] < i && scores[order@[k] as int] == Some(
                    order_scores@[k],
                ),
            forall|m: int| 0 <= m < i && scores[m] is Some ==> order@.contains(m as usize),
            forall|j: int, k: int|
                0 <= j < k < order@.len() ==> ranks_before(
                    scores,
                    order@[j] as int,
                    order@[k] as int,
                ),
        decreases entries@.len() - i,
    {
        match fuzzy_score(entries[i].name.as_str(), query) {
            None => {},
            Some(s) => {
                assert(scores[i as int] == Some(s));
                let mut p: usize = 0;
                while p < order_scores.len() && order_scores[p] >= s
                    invariant
                        0 <= p <= order_scores@.len(),
                        forall|q: int| 0 <= q < p ==> order_scores@[q] >= s,
                    decreases order_scores@.len() - p,
                {
                    p = p + 1;
                }
                let ghost old_order = order@;
                order.insert(p, i);
                order_scores.insert(p, s);
                proof {
                    assert forall|k: int| p <= k < old_order.len() implies scores[old_order[k] as int]->Some_0
                        < s by {
                        if k > p {
                            assert(ranks_before(scores, old_order[p as int] as int, old_order[k] as int));
                        }
                    }
                    assert forall|j: int, k: int| 0 <= j < k < order@.len() implies ranks_before(
                        scores,
                        order@[j] as int,
                        order@[k] as int,
                    ) by {
                        if k < p {
                            assert(order@[j] == old_order[j] && order@[k] == old_order[k]);
                        } else if k == p {
                            assert(order@[j] == old_order[j]);
                        } else if j > p {
                            assert(order@[j] == old_order[j - 1] && order@[k] == old_order[k - 1]);
                        } else if j == p {
                            assert(order@[k] == old_order[k - 1]);
                        } else {
                            assert(order@[j] == old_order[j] && order@[k] == old_order[k - 1]);
                        }
                    }
                    assert forall|m: int| 0 <= m <= i && scores[m] is Some implies order@.contains(
                        m as usize,
                    ) by {
                        if m == i {
                            assert(order@[p as int] == i);
                        } else {
                            let k = choose|k: int| 0 <= k < old_order.len() && old_order[k] == m as usize;
                            if k < p {
                                assert(order@[k] == m as usize);
                            } else {
                                assert(order@[k + 1] == m as usize);
                            }
                        }
                    }
                }
            },
        }
        i = i + 1;
    }
    order
}

} // verus!
