//! The reference-data records that the generators draw from. All records are
//! immutable once loaded; value modifiers are fixed-point thousandths.

use vstd::prelude::*;

verus! {

/// One candidate trait (a flavor note, a mouth feel): a name, a value
/// modifier in thousandths, a selection weight, and an optional exclusion
/// group.
#[derive(Debug, PartialEq)]
pub struct GenericItem {
    pub name: String,
    pub value_mod: u64,
    pub weight: u64,
    pub ex_pool: Option<String>,
}

/// Immutable reference data for one container a wine may come in. `value_mod`
/// is in thousandths; `oz` is the container's volume.
#[derive(Debug, PartialEq)]
pub struct LiquidContainer {
    pub name: String,
    pub value_mod: u64,
    pub weight: u64,
    pub oz: u64,
}

/// The exclusion group of an item, at the level of views.
pub open spec fn item_group(it: GenericItem) -> Option<Seq<char>> {
    match it.ex_pool {
        Option::Some(g) => Option::Some(g@),
        Option::None => Option::None,
    }
}

/// Full-record equality of two candidate items, at the level of views: every
/// field agrees. Duplicate detection during a selection session goes by this.
pub open spec fn item_eq(a: GenericItem, b: GenericItem) -> bool {
    &&& a.name@ == b.name@
    &&& a.value_mod == b.value_mod
    &&& a.weight == b.weight
    &&& item_group(a) == item_group(b)
}

/// Full-record equality of two containers, at the level of views.
pub open spec fn container_eq(a: LiquidContainer, b: LiquidContainer) -> bool {
    &&& a.name@ == b.name@
    &&& a.value_mod == b.value_mod
    &&& a.weight == b.weight
    &&& a.oz == b.oz
}

impl Clone for GenericItem {
    fn clone(&self) -> (r: Self)
        ensures
            item_eq(r, *self),
    {
        GenericItem {
            name: self.name.clone(),
            value_mod: self.value_mod,
            weight: self.weight,
            ex_pool: match &self.ex_pool {
                Option::Some(g) => Option::Some(g.clone()),
                Option::None => Option::None,
            },
        }
    }
}

impl Clone for LiquidContainer {
    fn clone(&self) -> (r: Self)
        ensures
            container_eq(r, *self),
    {
        LiquidContainer {
            name: self.name.clone(),
            value_mod: self.value_mod,
            weight: self.weight,
            oz: self.oz,
        }
    }
}

/// Full-record equality, decided executably.
pub fn items_equal(a: &GenericItem, b: &GenericItem) -> (r: bool)
    ensures
        r == item_eq(*a, *b),
{
    let groups_match: bool = match (&a.ex_pool, &b.ex_pool) {
        (Option::Some(x), Option::Some(y)) => *x == *y,
        (Option::None, Option::None) => true,
        _ => false,
    };
    groups_match && a.value_mod == b.value_mod && a.weight == b.weight && a.name == b.name
}

/// The weights of a table of candidate items, in table order.
pub open spec fn item_weights(items: Seq<GenericItem>) -> Seq<u64> {
    items.map_values(|it: GenericItem| it.weight)
}

/// The weights of a table of containers, in table order.
pub open spec fn container_weights(items: Seq<LiquidContainer>) -> Seq<u64> {
    items.map_values(|it: LiquidContainer| it.weight)
}

/// The weight column of a candidate-item table, materialized.
pub fn item_weights_vec(items: &Vec<GenericItem>) -> (ws: Vec<u64>)
    ensures
        ws@ == item_weights(items@),
{
    let mut ws: Vec<u64> = Vec::new();
    let mut j: usize = 0;
    while j < items.len()
        invariant
            j <= items@.len(),
            ws@.len() == j,
            forall|k: int| 0 <= k < j ==> ws@[k] == items@[k].weight,
        decreases items@.len() - j,
    {
        ws.push(items[j].weight);
        j = j + 1;
    }
    proof {
        assert(ws@ =~= item_weights(items@));
    }
    ws
}

/// The weight column of a container table, materialized.
pub fn container_weights_vec(items: &Vec<LiquidContainer>) -> (ws: Vec<u64>)
    ensures
        ws@ == container_weights(items@),
{
    let mut ws: Vec<u64> = Vec::new();
    let mut j: usize = 0;
    while j < items.len()
        invariant
            j <= items@.len(),
            ws@.len() == j,
            forall|k: int| 0 <= k < j ==> ws@[k] == items@[k].weight,
        decreases items@.len() - j,
    {
        ws.push(items[j].weight);
        j = j + 1;
    }
    proof {
        assert(ws@ =~= container_weights(items@));
    }
    ws
}

} // verus!
