//! The generic item chooser: builds a fixed-size, duplicate-free selection of
//! candidate items by repeated weighted draws, respecting the exclusion-pool
//! state of the session.
//!
//! Each draw goes over the currently eligible candidates: those not yet
//! chosen, not blocked by a full pool, and of positive weight. When the
//! eligible set empties before the requested count is reached the session
//! fails with `InfeasibleSelection` instead of drawing forever; the caller
//! stays responsible for asking for feasible counts.

use vstd::prelude::*;
use vstd::pervasive::unreached;

use crate::GenError;
use crate::items::{GenericItem, item_eq, item_group, item_weights, item_weights_vec, items_equal};
use crate::pools::{ExPool, pool_names, pools_built_from, pools_wf};
use crate::select::{
    select_weighted, sum_weights, total_weight, lemma_sum_take_succ, lemma_sum_take_all,
    lemma_sum_push, lemma_sum_pos,
};

verus! {

/// Some record of `items` equals `it`, field for field.
pub open spec fn item_in(items: Seq<GenericItem>, it: GenericItem) -> bool {
    exists|k: int| 0 <= k < items.len() && item_eq(#[trigger] items[k], it)
}

/// No two records of the list are equal, field for field.
pub open spec fn distinct_items(items: Seq<GenericItem>) -> bool {
    forall|i: int, j: int| 0 <= i < j < items.len() ==> !item_eq(items[i], items[j])
}

/// How many records of `items` carry the exclusion group `g`.
pub open spec fn count_in_group(items: Seq<GenericItem>, g: Seq<char>) -> int
    decreases items.len(),
{
    if items.len() == 0 {
        0
    } else {
        count_in_group(items.drop_last(), g) + if item_group(items.last()) == Option::Some(g) {
            1int
        } else {
            0int
        }
    }
}

pub proof fn lemma_count_in_group_push(items: Seq<GenericItem>, it: GenericItem, g: Seq<char>)
    ensures
        count_in_group(items.push(it), g) == count_in_group(items, g) + if item_group(it)
            == Option::Some(g) {
            1int
        } else {
            0int
        },
{
    assert(items.push(it).drop_last() =~= items);
    assert(items.push(it).last() == it);
}

/// No pool answering to the item's exclusion group is full. An item without
/// a group, or whose group no pool answers to, is never blocked.
pub open spec fn group_open(pools: Seq<ExPool>, it: GenericItem) -> bool {
    match item_group(it) {
        Option::None => true,
        Option::Some(g) => forall|k: int|
            0 <= k < pools.len() && (#[trigger] pools[k]).name@ == g ==> pools[k].count
                < pools[k].max_count,
    }
}

/// Candidate `j` of the table may be drawn next: positive weight, not a
/// duplicate of an already chosen record, not blocked by a full pool.
pub open spec fn eligible(
    ls: Seq<GenericItem>,
    chosen: Seq<GenericItem>,
    pools: Seq<ExPool>,
    j: int,
) -> bool {
    &&& 0 <= j < ls.len()
    &&& ls[j].weight > 0
    &&& !item_in(chosen, ls[j])
    &&& group_open(pools, ls[j])
}

/// How one selection session moves a pool set: length, names and capacities
/// stay; each pool's count grows by exactly the number of chosen records
/// carrying its group, and never passes its capacity.
pub open spec fn session_pools(
    before: Seq<ExPool>,
    after: Seq<ExPool>,
    chosen: Seq<GenericItem>,
) -> bool {
    &&& after.len() == before.len()
    &&& forall|k: int|
        0 <= k < after.len() ==> {
            &&& (#[trigger] after[k]).name@ == before[k].name@
            &&& after[k].max_count == before[k].max_count
            &&& after[k].count == before[k].count + count_in_group(chosen, after[k].name@)
            &&& after[k].count <= after[k].max_count
        }
}

/// A selection session that ran dry: some lawful partial selection, shorter
/// than the requested count, leaves no candidate of the table eligible —
/// every remaining record is a duplicate, blocked by a full pool, or of zero
/// weight. The pool set ends in the state that partial selection produced.
pub open spec fn stuck_session(
    ls: Seq<GenericItem>,
    before: Seq<ExPool>,
    after: Seq<ExPool>,
    partial: Seq<GenericItem>,
    num: int,
) -> bool {
    &&& partial.len() < num
    &&& distinct_items(partial)
    &&& (forall|k: int| 0 <= k < partial.len() ==> item_in(ls, #[trigger] partial[k]))
    &&& session_pools(before, after, partial)
    &&& (forall|j: int| 0 <= j < ls.len() ==> !eligible(ls, partial, after, j))
}

/// Whether some record of the list equals `it`, field for field.
pub fn vec_contains_item(items: &Vec<GenericItem>, it: &GenericItem) -> (r: bool)
    ensures
        r == item_in(items@, *it),
{
    let mut found = false;
    let mut j: usize = 0;
    while j < items.len()
        invariant
            j <= items@.len(),
            found == item_in(items@.take(j as int), *it),
        decreases items@.len() - j,
    {
        let here = items_equal(&items[j], it);
        proof {
            if here {
                assert(item_eq(items@.take(j as int + 1)[j as int], *it));
            }
            if item_in(items@.take(j as int), *it) {
                let w = choose|k: int|
                    0 <= k < j && item_eq(#[trigger] items@.take(j as int)[k], *it);
                assert(item_eq(items@.take(j as int + 1)[w], *it));
            }
            if item_in(items@.take(j as int + 1), *it) && !here {
                let w = choose|k: int|
                    0 <= k < j + 1 && item_eq(#[trigger] items@.take(j as int + 1)[k], *it);
                if w < j {
                    assert(item_eq(items@.take(j as int)[w], *it));
                }
            }
        }
        found = found || here;
        j = j + 1;
    }
    proof {
        assert(items@.take(items@.len() as int) =~= items@);
    }
    found
}

/// Builds a selection of exactly `num` pairwise distinct records of `ls`,
/// drawn one at a time by the weighted selector over the eligible candidates,
/// and counts each chosen record against the pool of its exclusion group.
///
/// Fails with `InvalidDistribution` when the table is empty or all its
/// weights are zero (the pool set is then left untouched), and with
/// `InfeasibleSelection` when the eligible candidates run out before `num`
/// records are chosen.
pub fn choose_generic_items(
    ls: &Vec<GenericItem>,
    expools: &mut Vec<ExPool>,
    num: usize,
) -> (res: Result<Vec<GenericItem>, GenError>)
    requires
        sum_weights(item_weights(ls@)) <= u64::MAX,
        pools_wf(old(expools)@),
    ensures
        final(expools)@.len() == old(expools)@.len(),
        forall|k: int|
            0 <= k < old(expools)@.len() ==> (#[trigger] final(expools)@[k]).name@ == old(
                expools,
            )@[k].name@ && final(expools)@[k].max_count == old(expools)@[k].max_count,
        pools_wf(final(expools)@),
        match res {
            Ok(items) => {
                &&& sum_weights(item_weights(ls@)) > 0
                &&& items@.len() == num
                &&& distinct_items(items@)
                &&& forall|k: int| 0 <= k < items@.len() ==> item_in(ls@, #[trigger] items@[k])
                &&& forall|k: int| 0 <= k < items@.len() ==> (#[trigger] items@[k]).weight > 0
                &&& session_pools(old(expools)@, final(expools)@, items@)
            },
            Err(e) => {
                ||| (e == GenError::InvalidDistribution && sum_weights(item_weights(ls@)) == 0
                    && *final(expools) == *old(expools))
                ||| (e == GenError::InfeasibleSelection && sum_weights(item_weights(ls@)) > 0
                    && exists|partial: Seq<GenericItem>|
                    stuck_session(ls@, old(expools)@, final(expools)@, partial, num as int))
            },
        },
{
    let ws_all = item_weights_vec(ls);
    let total_all = total_weight(&ws_all);
    if total_all == 0 {
        return Err(GenError::InvalidDistribution);
    }
    let ghost pools0 = expools@;
    let mut chosen: Vec<GenericItem> = Vec::new();
    while chosen.len() < num
        invariant
            pools0 == old(expools)@,
            chosen@.len() <= num,
            distinct_items(chosen@),
            forall|k: int| 0 <= k < chosen@.len() ==> item_in(ls@, #[trigger] chosen@[k]),
            forall|k: int| 0 <= k < chosen@.len() ==> (#[trigger] chosen@[k]).weight > 0,
            sum_weights(item_weights(ls@)) > 0,
            session_pools(pools0, expools@, chosen@),
            pools_wf(expools@),
            sum_weights(item_weights(ls@)) <= u64::MAX,
        decreases num - chosen@.len(),
    {
        // Gather the eligible candidates and their weights.
        let mut idxs: Vec<usize> = Vec::new();
        let mut ws_e: Vec<u64> = Vec::new();
        let mut j: usize = 0;
        proof {
            assert(sum_weights(item_weights(ls@).take(0)) == 0);
        }
        while j < ls.len()
            invariant
                j <= ls@.len(),
                idxs@.len() == ws_e@.len(),
                forall|t: int|
                    0 <= t < idxs@.len() ==> {
                        &&& (#[trigger] idxs@[t]) < ls@.len()
                        &&& eligible(ls@, chosen@, expools@, idxs@[t] as int)
                        &&& ws_e@[t] == ls@[idxs@[t] as int].weight
                    },
                forall|jj: int|
                    0 <= jj < j && eligible(ls@, chosen@, expools@, jj) ==> exists|t: int|
                        0 <= t < idxs@.len() && idxs@[t] == jj,
                sum_weights(ws_e@) <= sum_weights(item_weights(ls@).take(j as int)),
                sum_weights(item_weights(ls@)) <= u64::MAX,
                pools_wf(expools@),
            decreases ls@.len() - j,
        {
            let c = &ls[j];
            let mut ok = c.weight > 0 && !vec_contains_item(&chosen, c);
            proof {
                if !ok {
                    assert(!eligible(ls@, chosen@, expools@, j as int));
                }
            }
            if ok {
                match c.get_expool_index(expools) {
                    Option::Some(p) => {
                        if expools[p].is_full() {
                            ok = false;
                            proof {
                                // the looked-up pool answers to c's group and
                                // is full, so c is blocked
                                let g = item_group(ls@[j as int]).unwrap();
                                assert(expools@[p as int].name@ == g);
                                assert(!group_open(expools@, ls@[j as int]));
                                assert(!eligible(ls@, chosen@, expools@, j as int));
                            }
                        } else {
                            proof {
                                // p is the only pool of the group: later ones
                                // are ruled out by the lookup, earlier ones by
                                // distinct pool names
                                let g = item_group(ls@[j as int]).unwrap();
                                assert(forall|k: int|
                                    0 <= k < expools@.len() && (#[trigger] expools@[k]).name@ == g
                                        ==> k == p);
                            }
                        }
                    },
                    Option::None => {},
                }
            }
            proof {
                lemma_sum_take_succ(item_weights(ls@), j as int);
                assert(item_weights(ls@)[j as int] == ls@[j as int].weight);
            }
            let ghost pre_idxs = idxs@;
            if ok {
                proof {
                    lemma_sum_push(ws_e@, c.weight);
                }
                idxs.push(j);
                ws_e.push(c.weight);
            }
            proof {
                assert forall|jj: int|
                    0 <= jj < j + 1 && eligible(ls@, chosen@, expools@, jj) implies exists|t: int|
                    0 <= t < idxs@.len() && idxs@[t] == jj by {
                    if jj < j {
                        let t = choose|t: int| 0 <= t < pre_idxs.len() && pre_idxs[t] == jj;
                        assert(idxs@[t] == jj);
                    } else {
                        assert(ok);
                        assert(idxs@[idxs@.len() - 1] == jj);
                    }
                }
            }
            j = j + 1;
        }
        proof {
            lemma_sum_take_all(item_weights(ls@));
        }
        if idxs.len() == 0 {
            proof {
                assert forall|jj: int| 0 <= jj < ls@.len() implies !eligible(
                    ls@,
                    chosen@,
                    expools@,
                    jj,
                ) by {
                    if eligible(ls@, chosen@, expools@, jj) {
                        let t = choose|t: int| 0 <= t < idxs@.len() && idxs@[t] == jj;
                        assert(false);
                    }
                }
                assert(stuck_session(ls@, pools0, expools@, chosen@, num as int));
            }
            return Err(GenError::InfeasibleSelection);
        }
        let sel = match select_weighted(&ws_e) {
            Ok(t) => t,
            Err(_) => {
                proof {
                    // every eligible weight is positive, so the total is too
                    assert forall|t: int| 0 <= t < ws_e@.len() implies #[trigger] ws_e@[t]
                        > 0 by {
                        assert(eligible(ls@, chosen@, expools@, idxs@[t] as int));
                    }
                    lemma_sum_pos(ws_e@);
                }
                unreached()
            },
        };
        let j_sel = idxs[sel];
        let c = ls[j_sel].clone();
        let ghost pre_chosen = chosen@;
        let ghost pre_pools = expools@;
        proof {
            assert(eligible(ls@, chosen@, expools@, j_sel as int));
            assert(item_eq(c, ls@[j_sel as int]));
        }
        match c.get_expool_index(expools) {
            Option::Some(p) => {
                proof {
                    // the looked-up pool is the unique pool of c's group and,
                    // c being eligible, it is not full
                    let g = item_group(c).unwrap();
                    assert(item_group(ls@[j_sel as int]) == item_group(c));
                    assert(pre_pools[p as int].count < pre_pools[p as int].max_count);
                }
                let pool = &mut expools[p];
                pool.increment();
            },
            Option::None => {},
        }
        chosen.push(c);
        proof {
            // distinctness, membership and positive weight extend to the new
            // record
            assert(chosen@ =~= pre_chosen.push(c));
            assert(c.weight == ls@[j_sel as int].weight);
            assert(c.weight > 0);
            assert(forall|k: int|
                0 <= k < pre_chosen.len() ==> !item_eq(#[trigger] pre_chosen[k], c));
            assert(item_in(ls@, c));
            // each pool's count still matches its group's tally
            assert forall|k: int| 0 <= k < expools@.len() implies {
                &&& (#[trigger] expools@[k]).name@ == pools0[k].name@
                &&& expools@[k].max_count == pools0[k].max_count
                &&& expools@[k].count == pools0[k].count + count_in_group(chosen@, expools@[k].name@)
                &&& expools@[k].count <= expools@[k].max_count
            } by {
                lemma_count_in_group_push(pre_chosen, c, expools@[k].name@);
            }
        }
    }
    Ok(chosen)
}

/// A selection session over pools built from the table itself chooses at
/// most one item of any exclusion group: every built pool has capacity one,
/// and the session counts each chosen member against its group's pool.
pub proof fn lemma_session_group_quota(
    items: Seq<GenericItem>,
    built: Seq<ExPool>,
    after: Seq<ExPool>,
    chosen: Seq<GenericItem>,
    g: Seq<char>,
)
    requires
        pools_built_from(items, built),
        session_pools(built, after, chosen),
        pool_names(items).contains(g),
    ensures
        count_in_group(chosen, g) <= 1,
{
    let k = choose|k: int| 0 <= k < pool_names(items).len() && pool_names(items)[k] == g;
    assert(after[k].name@ == g);
    assert(after[k].count == count_in_group(chosen, g));
}

/// A duplicate-free selection out of a table never holds more records than
/// the table: pairwise distinct records, each present in the table, number
/// at most the table's length. So a requested count above the table's
/// length is never satisfiable, and `choose_generic_items` can only answer
/// it with an error.
pub proof fn lemma_selection_count_bound(ls: Seq<GenericItem>, items: Seq<GenericItem>)
    requires
        distinct_items(items),
        forall|k: int| 0 <= k < items.len() ==> item_in(ls, #[trigger] items[k]),
    ensures
        items.len() <= ls.len(),
    decreases items.len(),
{
    if items.len() > 0 {
        let x = items.last();
        assert(item_in(ls, items[items.len() - 1]));
        let w = choose|w: int| 0 <= w < ls.len() && item_eq(#[trigger] ls[w], x);
        let ls2 = ls.remove(w);
        let items2 = items.drop_last();
        ls.remove_ensures(w);
        assert forall|k: int| 0 <= k < items2.len() implies item_in(ls2, #[trigger] items2[k]) by {
            assert(items2[k] == items[k]);
            assert(item_in(ls, items[k]));
            let j = choose|j: int| 0 <= j < ls.len() && item_eq(#[trigger] ls[j], items[k]);
            if j == w {
                // then the record would equal the last one, against distinctness
                assert(item_eq(items[k], items[items.len() - 1]));
                assert(false);
            } else if j < w {
                assert(ls2[j] == ls[j]);
                assert(item_eq(ls2[j], items2[k]));
            } else {
                assert(ls2[j - 1] == ls[j]);
                assert(item_eq(ls2[j - 1], items2[k]));
            }
        }
        lemma_selection_count_bound(ls2, items2);
    }
}

} // verus!
