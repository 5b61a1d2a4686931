//! The exclusion pool tracker: discovers the exclusion groups referenced by a
//! table of candidate items and enforces per-group quotas during a single
//! selection session. Pools live for one session only and are rebuilt per
//! generation call.

use vstd::prelude::*;

use crate::items::{GenericItem, item_group};

verus! {

/// One per-group quota: at most `max_count` chosen items may carry the group
/// `name` in a session; `count` of them have been chosen so far.
#[derive(Debug)]
pub struct ExPool {
    pub name: String,
    pub max_count: u32,
    pub count: u32,
}

/// The pool invariant: the running count never exceeds the capacity.
pub open spec fn pool_wf(p: ExPool) -> bool {
    p.count <= p.max_count
}

/// A well-formed pool set: every pool respects its capacity and no two pools
/// answer to the same group name.
pub open spec fn pools_wf(pools: Seq<ExPool>) -> bool {
    &&& forall|k: int| 0 <= k < pools.len() ==> pool_wf(#[trigger] pools[k])
    &&& forall|k1: int, k2: int|
        0 <= k1 < k2 < pools.len() ==> pools[k1].name@ != pools[k2].name@
}

/// Some pool of the set answers to the group name `g`.
pub open spec fn pool_names_contain(pools: Seq<ExPool>, g: Seq<char>) -> bool {
    exists|k: int| 0 <= k < pools.len() && pools[k].name@ == g
}

impl ExPool {
    /// The pool has reached its capacity.
    pub fn is_full(&self) -> (r: bool)
        ensures
            r == (self.count == self.max_count),
    {
        self.count == self.max_count
    }

    /// Counts one more chosen member of the group, saturating at the
    /// capacity: a full pool is left as it is, and no error is raised.
    pub fn increment(&mut self)
        requires
            pool_wf(*old(self)),
        ensures
            final(self).name == old(self).name,
            final(self).max_count == old(self).max_count,
            final(self).count == if old(self).count == old(self).max_count {
                old(self).count as int
            } else {
                old(self).count + 1
            },
            pool_wf(*final(self)),
    {
        if !self.is_full() {
            self.count = self.count + 1;
        }
    }
}

impl Clone for ExPool {
    fn clone(&self) -> (r: Self)
        ensures
            r.name@ == self.name@,
            r.max_count == self.max_count,
            r.count == self.count,
    {
        ExPool { name: self.name.clone(), max_count: self.max_count, count: self.count }
    }
}

/// A fresh mutual-exclusion pool for the group `name`, with capacity fixed at
/// one: a group means "at most one member of this group may be chosen".
pub fn create_mexpool(name: String) -> (p: ExPool)
    ensures
        p.name == name,
        p.max_count == 1,
        p.count == 0,
{
    ExPool { name, max_count: 1, count: 0 }
}

/// Whether some pool of the set already answers to the group name.
pub fn expool_vec_contains_item(ls: &Vec<ExPool>, name: &String) -> (r: bool)
    ensures
        r == pool_names_contain(ls@, name@),
{
    let mut found = false;
    let mut j: usize = 0;
    while j < ls.len()
        invariant
            j <= ls@.len(),
            found == pool_names_contain(ls@.take(j as int), name@),
        decreases ls@.len() - j,
    {
        let here = ls[j].name == *name;
        proof {
            if here {
                assert(ls@.take(j as int + 1)[j as int].name@ == name@);
            }
            if pool_names_contain(ls@.take(j as int), name@) {
                let w = choose|k: int|
                    0 <= k < ls@.take(j as int).len() && ls@.take(j as int)[k].name@ == name@;
                assert(ls@.take(j as int + 1)[w].name@ == name@);
            }
            if pool_names_contain(ls@.take(j as int + 1), name@) && !here {
                let w = choose|k: int|
                    0 <= k < ls@.take(j as int + 1).len() && (#[trigger] ls@.take(
                        j as int + 1,
                    )[k]).name@ == name@;
                if w < j {
                    assert(ls@.take(j as int)[w].name@ == name@);
                }
            }
        }
        found = found || here;
        j = j + 1;
    }
    proof {
        assert(ls@.take(ls@.len() as int) =~= ls@);
    }
    found
}

/// The group names that a session over `items` gets a pool for: each distinct
/// group value that occurs in the table, in first-seen order.
pub open spec fn pool_names(items: Seq<GenericItem>) -> Seq<Seq<char>>
    decreases items.len(),
{
    if items.len() == 0 {
        Seq::empty()
    } else {
        let prefix = pool_names(items.drop_last());
        match item_group(items.last()) {
            Option::None => prefix,
            Option::Some(g) => if prefix.contains(g) {
                prefix
            } else {
                prefix.push(g)
            },
        }
    }
}

/// What `auto_populate_mexpools` returns for `items`: one pool per distinct
/// group value of the table, in first-seen order, capacity one, count zero.
pub open spec fn pools_built_from(items: Seq<GenericItem>, pools: Seq<ExPool>) -> bool {
    &&& pools.len() == pool_names(items).len()
    &&& forall|k: int|
        0 <= k < pools.len() ==> {
            &&& (#[trigger] pools[k]).name@ == pool_names(items)[k]
            &&& pools[k].max_count == 1
            &&& pools[k].count == 0
        }
}

/// The first-seen group names are pairwise distinct.
pub proof fn lemma_pool_names_distinct(items: Seq<GenericItem>)
    ensures
        forall|k1: int, k2: int|
            0 <= k1 < k2 < pool_names(items).len() ==> pool_names(items)[k1] != pool_names(
                items,
            )[k2],
    decreases items.len(),
{
    if items.len() > 0 {
        lemma_pool_names_distinct(items.drop_last());
        let prefix = pool_names(items.drop_last());
        match item_group(items.last()) {
            Option::None => {},
            Option::Some(g) => {
                if !prefix.contains(g) {
                    assert(forall|k: int| 0 <= k < prefix.len() ==> prefix[k] != g);
                    assert(forall|k: int|
                        0 <= k < prefix.len() ==> prefix.push(g)[k] == prefix[k]);
                }
            },
        }
    }
}

/// A freshly built pool set is well-formed.
pub proof fn lemma_built_pools_wf(items: Seq<GenericItem>, pools: Seq<ExPool>)
    requires
        pools_built_from(items, pools),
    ensures
        pools_wf(pools),
{
    lemma_pool_names_distinct(items);
}

/// The structure of the built pool set is a function of the table alone: two
/// builds over the same table agree on length, names and capacities, whatever
/// random draws happen elsewhere.
pub proof fn lemma_build_pools_deterministic(
    items: Seq<GenericItem>,
    a: Seq<ExPool>,
    b: Seq<ExPool>,
)
    requires
        pools_built_from(items, a),
        pools_built_from(items, b),
    ensures
        a.len() == b.len(),
        forall|k: int|
            0 <= k < a.len() ==> (#[trigger] a[k]).name@ == b[k].name@ && a[k].max_count
                == b[k].max_count,
{
}

/// Scans the table once and creates one pool per distinct group value
/// encountered, in first-seen order, each with capacity one and count zero.
/// The result depends on the table alone and nothing else is touched.
pub fn auto_populate_mexpools(items: &Vec<GenericItem>) -> (pools: Vec<ExPool>)
    ensures
        pools_built_from(items@, pools@),
{
    let mut mexpool: Vec<ExPool> = Vec::new();
    let mut j: usize = 0;
    proof {
        assert(items@.take(0) =~= Seq::<GenericItem>::empty());
    }
    while j < items.len()
        invariant
            j <= items@.len(),
            pools_built_from(items@.take(j as int), mexpool@),
        decreases items@.len() - j,
    {
        let ghost pre_names = pool_names(items@.take(j as int));
        proof {
            assert(items@.take(j as int + 1).drop_last() =~= items@.take(j as int));
            assert(items@.take(j as int + 1).last() == items@[j as int]);
        }
        match &items[j].ex_pool {
            Option::Some(g) => {
                let present = expool_vec_contains_item(&mexpool, g);
                proof {
                    // a name stands in the pool set iff the spec name list has it
                    if pool_names_contain(mexpool@, g@) {
                        let w = choose|k: int|
                            0 <= k < mexpool@.len() && mexpool@[k].name@ == g@;
                        assert(pre_names[w] == g@);
                    }
                    if pre_names.contains(g@) {
                        let w = choose|k: int| 0 <= k < pre_names.len() && pre_names[k] == g@;
                        assert(mexpool@[w].name@ == g@);
                    }
                }
                if !present {
                    let pool = create_mexpool(g.clone());
                    mexpool.push(pool);
                    proof {
                        assert(pool_names(items@.take(j as int + 1)) =~= pre_names.push(g@));
                    }
                }
            },
            Option::None => {},
        }
        j = j + 1;
    }
    proof {
        assert(items@.take(items@.len() as int) =~= items@);
    }
    mexpool
}

impl GenericItem {
    /// The pool of this item's exclusion group: the index of the last pool of
    /// the set that answers to the group, or none if the item has no group or
    /// no pool matches (defensive; with pools built from the item's own table
    /// a grouped item always finds its pool).
    pub fn get_expool_index(&self, expools: &Vec<ExPool>) -> (r: Option<usize>)
        ensures
            match r {
                Option::None => match item_group(*self) {
                    Option::None => true,
                    Option::Some(g) => !pool_names_contain(expools@, g),
                },
                Option::Some(p) => {
                    &&& item_group(*self) matches Option::Some(g)
                    &&& p < expools@.len()
                    &&& expools@[p as int].name@ == item_group(*self).unwrap()
                    &&& forall|k: int|
                        p < k < expools@.len() ==> expools@[k].name@ != item_group(*self).unwrap()
                },
            },
            r is Some <==> (item_group(*self) matches Option::Some(g) && pool_names_contain(
                expools@,
                g,
            )),
    {
        let group: &String = match &self.ex_pool {
            Option::Some(g) => g,
            Option::None => { return Option::None },
        };
        let mut index: usize = 0;
        let mut found: bool = false;
        let mut i: usize = 0;
        while i < expools.len()
            invariant
                i <= expools@.len(),
                group@ == item_group(*self).unwrap(),
                found == pool_names_contain(expools@.take(i as int), group@),
                found ==> {
                    &&& index < i
                    &&& expools@[index as int].name@ == group@
                    &&& forall|k: int| index < k < i ==> expools@[k].name@ != group@
                },
            decreases expools@.len() - i,
        {
            let here = expools[i].name == *group;
            proof {
                if here {
                    assert(expools@.take(i as int + 1)[i as int].name@ == group@);
                }
                if pool_names_contain(expools@.take(i as int), group@) {
                    let w = choose|k: int|
                        0 <= k < i && expools@.take(i as int)[k].name@ == group@;
                    assert(expools@.take(i as int + 1)[w].name@ == group@);
                }
                if pool_names_contain(expools@.take(i as int + 1), group@) && !here {
                    let w = choose|k: int|
                        0 <= k < i + 1 && (#[trigger] expools@.take(i as int + 1)[k]).name@
                            == group@;
                    if w < i {
                        assert(expools@.take(i as int)[w].name@ == group@);
                    }
                }
            }
            if here {
                index = i;
                found = true;
            }
            i = i + 1;
        }
        proof {
            assert(expools@.take(expools@.len() as int) =~= expools@);
        }
        match found {
            false => Option::None,
            true => Option::Some(index),
        }
    }
}

} // verus!
