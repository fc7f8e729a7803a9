//! Top-N selection over a table of scores.
use vstd::prelude::*;

verus! {

/// The smaller of `n` and `limit`.
pub open spec fn capped_len(n: int, limit: int) -> int {
    if n < limit {
        n
    } else {
        limit
    }
}

/// `picks` names, by index into `scores`, the `limit` highest scores (all of
/// them when there are fewer), each index once, in non-increasing order of
/// score; every score left out is at most every score picked.
pub open spec fn is_ranking(scores: Seq<u64>, picks: Seq<usize>, limit: int) -> bool {
    &&& picks.len() == capped_len(scores.len() as int, limit)
    &&& forall|k: int| 0 <= k < picks.len() ==> picks[k] < scores.len()
    &&& forall|a: int, b: int| 0 <= a < b < picks.len() ==> picks[a] != picks[b]
    &&& forall|a: int, b: int|
        0 <= a < b < picks.len() ==> scores[picks[a] as int] >= scores[picks[b] as int]
    &&& forall|i: int, k: int|
        0 <= i < scores.len() && 0 <= k < picks.len() && !picks.contains(i as usize)
            ==> #[trigger] scores[i] <= #[trigger] scores[picks[k] as int]
}

/// Some position of `work` holds `x`.
spec fn holds_index(work: Seq<usize>, x: int) -> bool {
    exists|j: int| 0 <= j < work.len() && work[j] == x
}

/// The indices of the `limit` highest entries of `scores`, highest first.
pub fn rank_top(scores: &Vec<u64>, limit: usize) -> (picks: Vec<usize>)
    ensures
        is_ranking(scores@, picks@, limit as int),
{
    let n = scores.len();
    let mut work: Vec<usize> = Vec::new();
    let mut i: usize = 0;
    while i < n
        invariant
            n == scores@.len(),
            i <= n,
            work@.len() == i,
            forall|j: int| 0 <= j < i ==> work@[j] == j,
        decreases n - i,
    {
        work.push(i);
        i = i + 1;
    }
    assert forall|x: int| 0 <= x < n implies #[trigger] holds_index(work@, x) by {
        assert(work@[x] == x);
    }
    let m: usize = if n < limit { n } else { limit };
    let mut k: usize = 0;
    while k < m
        invariant
            n == scores@.len(),
            m == capped_len(n as int, limit as int),
            k <= m,
            work@.len() == n,
            forall|j: int| 0 <= j < n ==> work@[j] < n,
            forall|a: int, b: int| 0 <= a < b < n ==> work@[a] != work@[b],
            forall|x: int| 0 <= x < n ==> #[trigger] holds_index(work@, x),
            forall|a: int, b: int|
                0 <= a < b < k ==> scores@[work@[a] as int] >= scores@[work@[b] as int],
            forall|a: int, b: int|
                0 <= a < k <= b < n ==> scores@[work@[a] as int] >= scores@[work@[b] as int],
        decreases m - k,
    {
        let mut best: usize = k;
        let mut j: usize = k + 1;
        while j < n
            invariant
                n == scores@.len(),
                work@.len() == n,
                forall|t: int| 0 <= t < n ==> work@[t] < n,
                k < n,
                k <= best < n,
                best < j <= n,
                forall|t: int| k <= t < j ==> scores@[work@[t] as int] <= scores@[work@[best as int] as int],
            decreases n - j,
        {
            if scores[work[j]] > scores[work[best]] {
                best = j;
            }
            j = j + 1;
        }
        let old_work = Ghost(work@);
        let a = work[k];
        let b = work[best];
        work.set(k, b);
        work.set(best, a);
        assert(work@ == old_work@.update(k as int, b).update(best as int, a));
        assert forall|x: int| 0 <= x < n implies #[trigger] holds_index(work@, x) by {
            assert(holds_index(old_work@, x));
            let t0 = choose|t: int| 0 <= t < n && old_work@[t] == x;
            if t0 == k {
                assert(work@[best as int] == x);
            } else if t0 == best {
                assert(work@[k as int] == x);
            } else {
                assert(work@[t0] == x);
            }
        }
        k = k + 1;
    }
    let mut picks: Vec<usize> = Vec::new();
    let mut p: usize = 0;
    while p < m
        invariant
            m <= n,
            work@.len() == n,
            p <= m,
            picks@ == work@.subrange(0, p as int),
        decreases m - p,
    {
        picks.push(work[p]);
        p = p + 1;
        assert(picks@ =~= work@.subrange(0, p as int));
    }
    assert forall|x: int, q: int|
        0 <= x < n && 0 <= q < picks@.len() && !picks@.contains(x as usize)
        implies #[trigger] scores@[x] <= #[trigger] scores@[picks@[q] as int] by {
        assert(holds_index(work@, x));
        let t = choose|t: int| 0 <= t < n && work@[t] == x;
        if t < m {
            assert(picks@[t] == x);
        }
    }
    picks
}

} // verus!
