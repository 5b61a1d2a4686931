//! The weighted selector: draws one index out of a weight table with
//! probability proportional to its weight.
//!
//! The draw is split in two. `pick_index` is deterministic: given a draw `r`
//! taken uniformly from `[0, W)` where `W` is the total weight, it returns
//! the unique index whose block of the cumulative-weight array contains `r`.
//! `select_weighted` supplies the uniform draw and is the randomized entry
//! point.

use vstd::prelude::*;

use crate::GenError;
use crate::rng::rand_u64_range;

verus! {

/// The total of a weight table, as a mathematical integer.
pub open spec fn sum_weights(s: Seq<u64>) -> int
    decreases s.len(),
{
    if s.len() == 0 {
        0
    } else {
        sum_weights(s.drop_last()) + s.last()
    }
}

pub proof fn lemma_sum_weights_nonneg(s: Seq<u64>)
    ensures
        sum_weights(s) >= 0,
    decreases s.len(),
{
    if s.len() > 0 {
        lemma_sum_weights_nonneg(s.drop_last());
    }
}

pub proof fn lemma_sum_take_succ(s: Seq<u64>, j: int)
    requires
        0 <= j < s.len(),
    ensures
        sum_weights(s.take(j + 1)) == sum_weights(s.take(j)) + s[j],
{
    assert(s.take(j + 1).drop_last() =~= s.take(j));
    assert(s.take(j + 1).last() == s[j]);
}

pub proof fn lemma_sum_take_mono(s: Seq<u64>, a: int, b: int)
    requires
        0 <= a <= b <= s.len(),
    ensures
        sum_weights(s.take(a)) <= sum_weights(s.take(b)),
    decreases b - a,
{
    if a < b {
        lemma_sum_take_mono(s, a, b - 1);
        lemma_sum_take_succ(s, b - 1);
    }
}

pub proof fn lemma_sum_take_all(s: Seq<u64>)
    ensures
        sum_weights(s.take(s.len() as int)) == sum_weights(s),
{
    assert(s.take(s.len() as int) =~= s);
}

pub proof fn lemma_sum_push(s: Seq<u64>, x: u64)
    ensures
        sum_weights(s.push(x)) == sum_weights(s) + x,
{
    assert(s.push(x).drop_last() =~= s);
    assert(s.push(x).last() == x);
}

/// A weight table with no zero entries and at least one entry has a positive
/// total.
pub proof fn lemma_sum_pos(s: Seq<u64>)
    requires
        s.len() > 0,
        forall|k: int| 0 <= k < s.len() ==> s[k] > 0,
    ensures
        sum_weights(s) > 0,
{
    assert(sum_weights(s.take(0)) == 0);
    lemma_sum_take_succ(s, 0);
    lemma_sum_take_mono(s, 1, s.len() as int);
    lemma_sum_take_all(s);
}

/// Each candidate `i` owns a block of exactly `s[i]` of the `sum_weights(s)`
/// equally likely draws in `[0, sum_weights(s))`: the draws `r` with
/// `sum_weights(s.take(i)) <= r < sum_weights(s.take(i + 1))` are the ones on
/// which `pick_index` answers `i`. Over a uniform draw, candidate `i` is
/// therefore selected with frequency `s[i] / sum_weights(s)`.
pub proof fn lemma_draw_share(s: Seq<u64>, i: int)
    requires
        0 <= i < s.len(),
    ensures
        sum_weights(s.take(i + 1)) - sum_weights(s.take(i)) == s[i],
        0 <= sum_weights(s.take(i)),
        sum_weights(s.take(i + 1)) <= sum_weights(s),
{
    lemma_sum_take_succ(s, i);
    lemma_sum_weights_nonneg(s.take(i));
    lemma_sum_take_mono(s, i + 1, s.len() as int);
    lemma_sum_take_all(s);
}

/// The blocks of two distinct candidates never share a draw: a draw `r`
/// falling in the blocks of both `i` and `j` forces `i == j`.
pub proof fn lemma_draw_blocks_disjoint(s: Seq<u64>, i: int, j: int, r: int)
    requires
        0 <= i < s.len(),
        0 <= j < s.len(),
        sum_weights(s.take(i)) <= r < sum_weights(s.take(i + 1)),
        sum_weights(s.take(j)) <= r < sum_weights(s.take(j + 1)),
    ensures
        i == j,
{
    if i < j {
        lemma_sum_take_mono(s, i + 1, j);
    }
    if j < i {
        lemma_sum_take_mono(s, j + 1, i);
    }
}

/// The total of a weight table, computed exactly.
pub fn total_weight(ws: &Vec<u64>) -> (t: u64)
    requires
        sum_weights(ws@) <= u64::MAX,
    ensures
        t == sum_weights(ws@),
{
    let mut t: u64 = 0;
    let mut j: usize = 0;
    proof {
        assert(sum_weights(ws@.take(0)) == 0);
    }
    while j < ws.len()
        invariant
            j <= ws@.len(),
            t == sum_weights(ws@.take(j as int)),
            sum_weights(ws@) <= u64::MAX,
        decreases ws@.len() - j,
    {
        proof {
            lemma_sum_take_succ(ws@, j as int);
            lemma_sum_take_mono(ws@, j as int + 1, ws@.len() as int);
            lemma_sum_take_all(ws@);
            lemma_sum_weights_nonneg(ws@.take(j as int));
        }
        t = t + ws[j];
        j = j + 1;
    }
    proof {
        lemma_sum_take_all(ws@);
    }
    t
}

/// The deterministic half of the weighted draw: maps a uniform draw `r` to
/// the unique index whose cumulative-weight block contains `r`, by binary
/// search over the cumulative-weight array.
pub fn pick_index(ws: &Vec<u64>, r: u64) -> (i: usize)
    requires
        sum_weights(ws@) <= u64::MAX,
        (r as int) < sum_weights(ws@),
    ensures
        i < ws@.len(),
        sum_weights(ws@.take(i as int)) <= r as int,
        (r as int) < sum_weights(ws@.take(i as int + 1)),
        ws@[i as int] > 0,
{
    proof {
        if ws@.len() == 0 {
            assert(sum_weights(ws@) == 0);
        }
        lemma_sum_weights_nonneg(ws@);
    }
    // Cumulative weights: pre[k] == ws[0] + ... + ws[k].
    let mut pre: Vec<u64> = Vec::new();
    let mut j: usize = 0;
    while j < ws.len()
        invariant
            j <= ws@.len(),
            pre@.len() == j,
            forall|k: int| 0 <= k < j ==> pre@[k] == sum_weights(ws@.take(k + 1)),
            sum_weights(ws@) <= u64::MAX,
        decreases ws@.len() - j,
    {
        proof {
            assert(sum_weights(ws@.take(0)) == 0);
            lemma_sum_take_succ(ws@, j as int);
            lemma_sum_take_mono(ws@, j as int + 1, ws@.len() as int);
            lemma_sum_take_all(ws@);
            lemma_sum_weights_nonneg(ws@.take(j as int));
        }
        let prev: u64 = if j == 0 { 0 } else { pre[j - 1] };
        pre.push(prev + ws[j]);
        j = j + 1;
    }
    let mut lo: usize = 0;
    let mut hi: usize = ws.len() - 1;
    proof {
        assert(sum_weights(ws@.take(0)) == 0);
        lemma_sum_take_all(ws@);
    }
    while lo < hi
        invariant
            lo <= hi < ws@.len(),
            pre@.len() == ws@.len(),
            forall|k: int| 0 <= k < ws@.len() ==> pre@[k] == sum_weights(ws@.take(k + 1)),
            sum_weights(ws@.take(lo as int)) <= r as int,
            (r as int) < sum_weights(ws@.take(hi as int + 1)),
        decreases hi - lo,
    {
        let mid = lo + (hi - lo) / 2;
        if pre[mid] <= r {
            lo = mid + 1;
        } else {
            hi = mid;
        }
    }
    proof {
        lemma_sum_take_succ(ws@, lo as int);
    }
    lo
}

/// The weighted selector: draws one index of the weight table with
/// probability proportional to its weight, by a fresh uniform draw over
/// `[0, total weight)`. No state persists between calls.
///
/// Fails with `InvalidDistribution` exactly when the table is empty or all
/// weights are zero; a negative weight cannot be stated in this table.
pub fn select_weighted(ws: &Vec<u64>) -> (res: Result<usize, GenError>)
    requires
        sum_weights(ws@) <= u64::MAX,
    ensures
        match res {
            Ok(i) => {
                &&& sum_weights(ws@) > 0
                &&& i < ws@.len()
                &&& ws@[i as int] > 0
            },
            Err(e) => e == GenError::InvalidDistribution && sum_weights(ws@) == 0,
        },
{
    let total = total_weight(ws);
    if total == 0 {
        Err(GenError::InvalidDistribution)
    } else {
        let r = rand_u64_range(0, total);
        Ok(pick_index(ws, r))
    }
}

} // verus!
