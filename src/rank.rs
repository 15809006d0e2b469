//! Scoring every candidate and ranking them.

use vstd::prelude::*;
use crate::context::KernelContext;
use crate::kernel::KernelInfo;
use crate::scoring::{explanation, score_and_reason_kernel, score_of};

verus! {

/// A candidate with its score and explanation.
#[derive(Clone, Debug)]
pub struct ScoredKernel {
    pub kernel: KernelInfo,
    pub score: i32,
    pub explanation: String,
}

/// Scores each candidate, keeping catalog order.
pub fn score_all(candidates: &Vec<KernelInfo>, ctx: &KernelContext) -> (r: Vec<ScoredKernel>)
    ensures
        r@.len() == candidates@.len(),
        forall|i: int|
            0 <= i < r@.len() ==> {
                &&& (#[trigger] r@[i]).kernel == candidates@[i]
                &&& r@[i].score == score_of(candidates@[i], *ctx)
                &&& r@[i].explanation@ == explanation(candidates@[i], *ctx)
            },
{
    let mut r: Vec<ScoredKernel> = Vec::new();
    let mut i: usize = 0;
    while i < candidates.len()
        invariant
            i <= candidates.len(),
            r@.len() == i,
            forall|j: int|
                0 <= j < i ==> {
                    &&& (#[trigger] r@[j]).kernel == candidates@[j]
                    &&& r@[j].score == score_of(candidates@[j], *ctx)
                    &&& r@[j].explanation@ == explanation(candidates@[j], *ctx)
                },
        decreases candidates.len() - i,
    {
        let (score, text) = score_and_reason_kernel(&candidates[i], ctx);
        r.push(ScoredKernel { kernel: candidates[i].duplicate(), score, explanation: text });
        i += 1;
    }
    r
}

/// Position `a` ranks before position `b`: a higher score, or an equal
/// score and an earlier position.
pub open spec fn ranks_before(scores: Seq<i32>, a: int, b: int) -> bool {
    scores[a] > scores[b] || (scores[a] == scores[b] && a < b)
}

/// `order` lists every position of `scores` once, best first; equal scores
/// keep their input order.
pub open spec fn is_ranking(scores: Seq<i32>, order: Seq<usize>) -> bool {
    &&& order.len() == scores.len()
    &&& order.no_duplicates()
    &&& forall|k: int| 0 <= k < order.len() ==> #[trigger] order[k] < scores.len()
    &&& forall|x: usize| x < scores.len() ==> #[trigger] order.contains(x)
    &&& forall|k1: int, k2: int|
        0 <= k1 < k2 < order.len() ==> ranks_before(scores, #[trigger] order[k1] as int, #[trigger] order[k2] as int)
}

/// The positions of the scores, by score descending; a stable sort.
pub fn rank_order(scores: &Vec<i32>) -> (r: Vec<usize>)
    ensures
        is_ranking(scores@, r@),
{
    let mut r: Vec<usize> = Vec::new();
    let mut m: usize = 0;
    while m < scores.len()
        invariant
            m <= scores.len(),
            r@.len() == m,
            r@.no_duplicates(),
            forall|k: int| 0 <= k < r@.len() ==> #[trigger] r@[k] < m,
            forall|x: usize| x < m ==> #[trigger] r@.contains(x),
            forall|k1: int, k2: int|
                0 <= k1 < k2 < r@.len() ==> ranks_before(scores@, #[trigger] r@[k1] as int, #[trigger] r@[k2] as int),
        decreases scores.len() - m,
    {
        let s = scores[m];
        let mut p: usize = 0;
        while p < r.len() && scores[r[p]] >= s
            invariant
                p <= r@.len(),
                r@.len() == m,
                m < scores.len(),
                s == scores@[m as int],
                forall|k: int| 0 <= k < r@.len() ==> #[trigger] r@[k] < m,
                forall|k: int| 0 <= k < p ==> scores@[#[trigger] r@[k] as int] >= s,
            decreases r@.len() - p,
        {
            p += 1;
        }
        let ghost old_r = r@;
        proof {
            assert forall|k: int| p <= k < old_r.len() implies scores@[#[trigger] old_r[k] as int] < s by {
                if k > p {
                    assert(ranks_before(scores@, old_r[p as int] as int, old_r[k] as int));
                }
            }
        }
        r.insert(p, m);
        proof {
            assert(r@ == old_r.insert(p as int, m));
            assert forall|k: int| 0 <= k < r@.len() implies #[trigger] r@[k] < m + 1 by {
                if k < p {
                    assert(r@[k] == old_r[k]);
                } else if k > p {
                    assert(r@[k] == old_r[k - 1]);
                }
            }
            assert forall|k1: int, k2: int|
                0 <= k1 < k2 < r@.len() implies ranks_before(scores@, #[trigger] r@[k1] as int, #[trigger] r@[k2] as int) by {
                let a = if k1 < p { k1 } else { k1 - 1 };
                let b = if k2 < p { k2 } else { k2 - 1 };
                if k1 != p && k2 != p {
                    assert(r@[k1] == old_r[a]);
                    assert(r@[k2] == old_r[b]);
                } else if k1 == p {
                    assert(r@[k2] == old_r[k2 - 1]);
                } else {
                    assert(r@[k1] == old_r[k1]);
                }
            }
            assert forall|x: usize| x < m + 1 implies #[trigger] r@.contains(x) by {
                if x < m {
                    assert(old_r.contains(x));
                    let k = choose|k: int| 0 <= k < old_r.len() && old_r[k] == x;
                    if k < p {
                        assert(r@[k] == x);
                    } else {
                        assert(r@[k + 1] == x);
                    }
                } else {
                    assert(r@[p as int] == x);
                }
            }
            assert forall|i: int, j: int| 0 <= i < r@.len() && 0 <= j < r@.len() && i != j implies r@[i] != r@[j] by {
                if i != p && j != p {
                    let a = if i < p { i } else { i - 1 };
                    let b = if j < p { j } else { j - 1 };
                    assert(r@[i] == old_r[a]);
                    assert(r@[j] == old_r[b]);
                } else if i == p {
                    let b = if j < p { j } else { j - 1 };
                    assert(r@[j] == old_r[b]);
                } else {
                    let a = if i < p { i } else { i - 1 };
                    assert(r@[i] == old_r[a]);
                }
            }
        }
        m += 1;
    }
    r
}

/// The scores of scored candidates.
pub fn scores_of(scored: &Vec<ScoredKernel>) -> (r: Vec<i32>)
    ensures
        r@.len() == scored@.len(),
        forall|i: int| 0 <= i < r@.len() ==> #[trigger] r@[i] == scored@[i].score,
{
    let mut r: Vec<i32> = Vec::new();
    let mut i: usize = 0;
    while i < scored.len()
        invariant
            i <= scored.len(),
            r@.len() == i,
            forall|j: int| 0 <= j < i ==> #[trigger] r@[j] == scored@[j].score,
        decreases scored.len() - i,
    {
        r.push(scored[i].score);
        i += 1;
    }
    r
}

/// The positions of the best `limit` scored candidates, best first; ties
/// keep catalog order.
pub fn top_positions(scored: &Vec<ScoredKernel>, limit: usize) -> (r: Vec<usize>)
    ensures
        exists|order: Seq<usize>|
            is_ranking(scored@.map_values(|s: ScoredKernel| s.score), order) && r@ == order.take(
                if limit < order.len() {
                    limit as int
                } else {
                    order.len() as int
                },
            ),
{
    let scores = scores_of(scored);
    assert(scores@ =~= scored@.map_values(|s: ScoredKernel| s.score));
    let order = rank_order(&scores);
    let n = if limit < order.len() {
        limit
    } else {
        order.len()
    };
    let mut r: Vec<usize> = Vec::new();
    let mut i: usize = 0;
    while i < n
        invariant
            n <= order.len(),
            i <= n,
            r@ == order@.take(i as int),
        decreases n - i,
    {
        r.push(order[i]);
        i += 1;
        assert(r@ =~= order@.take(i as int));
    }
    r
}

/// In a ranking, two positions with equal scores come out in their
/// input (catalog) order.
pub proof fn lemma_ties_keep_order(scores: Seq<i32>, order: Seq<usize>, k1: int, k2: int)
    requires
        is_ranking(scores, order),
        0 <= k1 < k2 < order.len(),
        scores[order[k1] as int] == scores[order[k2] as int],
    ensures
        order[k1] < order[k2],
{
    assert(ranks_before(scores, order[k1] as int, order[k2] as int));
}

/// A ranking is determined by the scores: two rankings of the same scores
/// are equal.
pub proof fn lemma_ranking_unique(scores: Seq<i32>, a: Seq<usize>, b: Seq<usize>)
    requires
        is_ranking(scores, a),
        is_ranking(scores, b),
    ensures
        a == b,
{
    assert forall|k: int| 0 <= k < a.len() implies a[k] == b[k] by {
        lemma_ranking_agree(scores, a, b, k);
    }
    assert(a =~= b);
}

proof fn lemma_ranking_agree(scores: Seq<i32>, a: Seq<usize>, b: Seq<usize>, k: int)
    requires
        is_ranking(scores, a),
        is_ranking(scores, b),
        0 <= k < a.len(),
    ensures
        a[k] == b[k],
    decreases k,
{
    let x = a[k];
    let y = b[k];
    if x != y {
        assert forall|j: int| 0 <= j < k implies a[j] == b[j] by {
            lemma_ranking_agree(scores, a, b, j);
        }
        assert(b[k] < scores.len());
        assert(a.contains(y));
        let p = choose|p: int| 0 <= p < a.len() && a[p] == y;
        if p < k {
            assert(a[p] == b[p]);
            assert(b[p] != b[k]);
        }
        assert(a[k] < scores.len());
        assert(b.contains(x));
        let q = choose|q: int| 0 <= q < b.len() && b[q] == x;
        if q < k {
            assert(a[q] == b[q]);
            assert(a[q] != a[k]);
        }
        assert(ranks_before(scores, a[k] as int, a[p] as int));
        assert(ranks_before(scores, b[k] as int, b[q] as int));
    }
}

} // verus!
