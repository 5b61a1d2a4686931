//! Gems: categorical attribute tables, the gem value model, and the gem
//! generator. A gem's worth is recomputed on demand — each valuation is a
//! fresh draw within the bracket of its value category, never a cached
//! number.

use vstd::prelude::*;

use crate::GenError;
use crate::rng::rand_u64_range;
use crate::select::{select_weighted, sum_weights};

verus! {

/// One categorical gem attribute (a cut, a size, a clarity): a name, a
/// delta on the value category, and a selection weight.
#[derive(Debug, PartialEq)]
pub struct GemAttribute {
    pub name: String,
    pub value_category_delta: i64,
    pub weight: u64,
}

/// One mineral type: a name, the range its inert base value is sampled
/// from, its base value category, and a selection weight.
#[derive(Debug, PartialEq)]
pub struct GemType {
    pub name: String,
    pub value_min: u64,
    pub value_max: u64,
    pub value_category: i64,
    pub weight: u64,
}

/// A generated gem. `base_value` is inert state sampled at assembly time:
/// the displayed worth always comes from `get_value`, never from it.
#[derive(Debug)]
pub struct Gem {
    pub mineral_type: GemType,
    pub base_value: u64,
    pub cut: GemAttribute,
    pub size: GemAttribute,
    pub quality: GemAttribute,
}

/// Full-record equality of two gem attributes, at the level of views.
pub open spec fn attr_eq(a: GemAttribute, b: GemAttribute) -> bool {
    &&& a.name@ == b.name@
    &&& a.value_category_delta == b.value_category_delta
    &&& a.weight == b.weight
}

/// Full-record equality of two mineral types, at the level of views.
pub open spec fn type_eq(a: GemType, b: GemType) -> bool {
    &&& a.name@ == b.name@
    &&& a.value_min == b.value_min
    &&& a.value_max == b.value_max
    &&& a.value_category == b.value_category
    &&& a.weight == b.weight
}

impl Clone for GemAttribute {
    fn clone(&self) -> (r: Self)
        ensures
            attr_eq(r, *self),
    {
        GemAttribute {
            name: self.name.clone(),
            value_category_delta: self.value_category_delta,
            weight: self.weight,
        }
    }
}

impl Clone for GemType {
    fn clone(&self) -> (r: Self)
        ensures
            type_eq(r, *self),
    {
        GemType {
            name: self.name.clone(),
            value_min: self.value_min,
            value_max: self.value_max,
            value_category: self.value_category,
            weight: self.weight,
        }
    }
}

/// The weights of a gem attribute table, in table order.
pub open spec fn attr_weights(items: Seq<GemAttribute>) -> Seq<u64> {
    items.map_values(|it: GemAttribute| it.weight)
}

/// The weights of a mineral type table, in table order.
pub open spec fn type_weights(items: Seq<GemType>) -> Seq<u64> {
    items.map_values(|it: GemType| it.weight)
}

/// The weight column of a gem attribute table, materialized.
pub fn attr_weights_vec(items: &Vec<GemAttribute>) -> (ws: Vec<u64>)
    ensures
        ws@ == attr_weights(items@),
{
    let mut ws: Vec<u64> = Vec::new();
    let mut j: usize = 0;
    while j < items.len()
        invariant
            j <= items@.len(),
            ws@.len() == j,
            forall|k: int| 0 <= k < j ==> ws@[k] == items@[k].weight,
        decreases items@.len() - j,
    {
        ws.push(items[j].weight);
        j = j + 1;
    }
    proof {
        assert(ws@ =~= attr_weights(items@));
    }
    ws
}

/// The weight column of a mineral type table, materialized.
pub fn type_weights_vec(items: &Vec<GemType>) -> (ws: Vec<u64>)
    ensures
        ws@ == type_weights(items@),
{
    let mut ws: Vec<u64> = Vec::new();
    let mut j: usize = 0;
    while j < items.len()
        invariant
            j <= items@.len(),
            ws@.len() == j,
            forall|k: int| 0 <= k < j ==> ws@[k] == items@[k].weight,
        decreases items@.len() - j,
    {
        ws.push(items[j].weight);
        j = j + 1;
    }
    proof {
        assert(ws@ =~= type_weights(items@));
    }
    ws
}

/// A gem's value category: the mineral type's base category plus the deltas
/// of its cut, size and clarity.
pub open spec fn gem_category(g: Gem) -> int {
    g.mineral_type.value_category + g.cut.value_category_delta + g.size.value_category_delta
        + g.quality.value_category_delta
}

/// Categories above the top bracket are clamped to it.
pub open spec fn clamp_category(c: int) -> int {
    if c > 17 {
        17
    } else {
        c
    }
}

/// The lower bound of bracket `idx` of the fixed value table, in gold
/// pieces. Brackets zero through four are degenerate empty ranges, kept at
/// those positions so that the indexing stays aligned.
pub open spec fn bracket_lo(idx: int) -> int {
    if idx <= 4 {
        1
    } else if idx == 5 {
        1
    } else if idx == 6 {
        25
    } else if idx == 7 {
        75
    } else if idx == 8 {
        250
    } else if idx == 9 {
        750
    } else if idx == 10 {
        2500
    } else if idx == 11 {
        10000
    } else if idx == 12 {
        20000
    } else if idx == 13 {
        40000
    } else if idx == 14 {
        80000
    } else if idx == 15 {
        200000
    } else if idx == 16 {
        400000
    } else {
        800000
    }
}

/// The upper bound (exclusive) of bracket `idx` of the fixed value table.
pub open spec fn bracket_hi(idx: int) -> int {
    if idx <= 4 {
        1
    } else if idx == 5 {
        25
    } else if idx == 6 {
        75
    } else if idx == 7 {
        250
    } else if idx == 8 {
        750
    } else if idx == 9 {
        2500
    } else if idx == 10 {
        10000
    } else if idx == 11 {
        20000
    } else if idx == 12 {
        40000
    } else if idx == 13 {
        80000
    } else if idx == 14 {
        200000
    } else if idx == 15 {
        400000
    } else if idx == 16 {
        800000
    } else {
        1000000
    }
}

/// The half-open value range of one bracket of the fixed table.
pub fn bracket_range(idx: usize) -> (r: (u64, u64))
    requires
        idx <= 17,
    ensures
        r.0 == bracket_lo(idx as int),
        r.1 == bracket_hi(idx as int),
{
    match idx {
        0 | 1 | 2 | 3 | 4 => (1, 1),
        5 => (1, 25),
        6 => (25, 75),
        7 => (75, 250),
        8 => (250, 750),
        9 => (750, 2500),
        10 => (2500, 10000),
        11 => (10000, 20000),
        12 => (20000, 40000),
        13 => (40000, 80000),
        14 => (80000, 200000),
        15 => (200000, 400000),
        16 => (400000, 800000),
        _ => (800000, 1000000),
    }
}

impl Gem {
    /// The gem's sampled worth, in hundredths of a gold piece.
    ///
    /// A category below six short-circuits to a draw from the flat
    /// "worthless" range `[0.10, 5.00)`; otherwise the category, clamped at
    /// seventeen, indexes the fixed bracket table and a whole-gold-piece
    /// value is drawn uniformly from that bracket. Each call is an
    /// independent draw within the same bracket.
    pub fn get_value(&self) -> (v: u64)
        ensures
            gem_category(*self) < 6 ==> 10 <= v < 500,
            gem_category(*self) >= 6 ==> {
                let idx = clamp_category(gem_category(*self));
                &&& v % 100 == 0
                &&& 100 * bracket_lo(idx) <= v < 100 * bracket_hi(idx)
            },
    {
        let mut value: i128 = self.mineral_type.value_category as i128;
        value = value + self.cut.value_category_delta as i128;
        value = value + self.size.value_category_delta as i128;
        value = value + self.quality.value_category_delta as i128;
        if value < 6 {
            return rand_u64_range(10, 500);
        }
        let idx: usize = if value > 17 {
            17
        } else {
            value as usize
        };
        let (lo, hi) = bracket_range(idx);
        let draw = rand_u64_range(lo, hi);
        proof {
            assert((100 * draw) % 100 == 0) by (nonlinear_arith);
        }
        100 * draw
    }
}

/// Draws one mineral type from the table, with probability proportional to
/// its weight. Fails with `InvalidDistribution` exactly when the table is
/// empty or all its weights are zero.
pub fn choose_random_gem_type(ls: &Vec<GemType>) -> (res: Result<GemType, GenError>)
    requires
        sum_weights(type_weights(ls@)) <= u64::MAX,
    ensures
        match res {
            Ok(t) => {
                &&& sum_weights(type_weights(ls@)) > 0
                &&& t.weight > 0
                &&& exists|k: int| 0 <= k < ls@.len() && type_eq(t, #[trigger] ls@[k])
            },
            Err(e) => e == GenError::InvalidDistribution && sum_weights(type_weights(ls@)) == 0,
        },
{
    let ws = type_weights_vec(ls);
    match select_weighted(&ws) {
        Ok(i) => {
            let t = ls[i].clone();
            proof {
                assert(type_eq(t, ls@[i as int]));
            }
            Ok(t)
        },
        Err(e) => Err(e),
    }
}

/// Draws one gem attribute from the table, with probability proportional to
/// its weight. Fails with `InvalidDistribution` exactly when the table is
/// empty or all its weights are zero.
pub fn choose_random_gem_attribute(ls: &Vec<GemAttribute>) -> (res: Result<GemAttribute, GenError>)
    requires
        sum_weights(attr_weights(ls@)) <= u64::MAX,
    ensures
        match res {
            Ok(t) => {
                &&& sum_weights(attr_weights(ls@)) > 0
                &&& t.weight > 0
                &&& exists|k: int| 0 <= k < ls@.len() && attr_eq(t, #[trigger] ls@[k])
            },
            Err(e) => e == GenError::InvalidDistribution && sum_weights(attr_weights(ls@)) == 0,
        },
{
    let ws = attr_weights_vec(ls);
    match select_weighted(&ws) {
        Ok(i) => {
            let t = ls[i].clone();
            proof {
                assert(attr_eq(t, ls@[i as int]));
            }
            Ok(t)
        },
        Err(e) => Err(e),
    }
}

/// The gem generator: owns the four reference tables it draws from.
pub struct GemGenerator {
    pub gem_types: Vec<GemType>,
    pub gem_cuts: Vec<GemAttribute>,
    pub gem_clarities: Vec<GemAttribute>,
    pub gem_sizes: Vec<GemAttribute>,
}

impl GemGenerator {
    /// A generator over the given reference tables, loaded once.
    pub fn new(
        gem_types: Vec<GemType>,
        gem_cuts: Vec<GemAttribute>,
        gem_clarities: Vec<GemAttribute>,
        gem_sizes: Vec<GemAttribute>,
    ) -> (g: GemGenerator)
        ensures
            g.gem_types == gem_types,
            g.gem_cuts == gem_cuts,
            g.gem_clarities == gem_clarities,
            g.gem_sizes == gem_sizes,
    {
        GemGenerator { gem_types, gem_cuts, gem_clarities, gem_sizes }
    }

    /// Assembles a gem: one independent weighted draw per table, plus the
    /// inert `base_value` sampled uniformly from the mineral type's own
    /// range. Fails with `InvalidDistribution` exactly when some table is
    /// empty or sums to zero weight.
    pub fn create_random_gem(&self) -> (res: Result<Gem, GenError>)
        requires
            sum_weights(type_weights(self.gem_types@)) <= u64::MAX,
            sum_weights(attr_weights(self.gem_cuts@)) <= u64::MAX,
            sum_weights(attr_weights(self.gem_clarities@)) <= u64::MAX,
            sum_weights(attr_weights(self.gem_sizes@)) <= u64::MAX,
            forall|k: int|
                0 <= k < self.gem_types@.len() ==> (#[trigger] self.gem_types@[k]).value_min
                    < self.gem_types@[k].value_max,
        ensures
            match res {
                Ok(gem) => {
                    &&& sum_weights(type_weights(self.gem_types@)) > 0
                    &&& sum_weights(attr_weights(self.gem_cuts@)) > 0
                    &&& sum_weights(attr_weights(self.gem_sizes@)) > 0
                    &&& sum_weights(attr_weights(self.gem_clarities@)) > 0
                    &&& gem.mineral_type.weight > 0
                    &&& gem.cut.weight > 0
                    &&& gem.size.weight > 0
                    &&& gem.quality.weight > 0
                    &&& exists|k: int|
                        0 <= k < self.gem_types@.len() && type_eq(
                            gem.mineral_type,
                            #[trigger] self.gem_types@[k],
                        )
                    &&& gem.mineral_type.value_min <= gem.base_value < gem.mineral_type.value_max
                    &&& exists|k: int|
                        0 <= k < self.gem_cuts@.len() && attr_eq(
                            gem.cut,
                            #[trigger] self.gem_cuts@[k],
                        )
                    &&& exists|k: int|
                        0 <= k < self.gem_sizes@.len() && attr_eq(
                            gem.size,
                            #[trigger] self.gem_sizes@[k],
                        )
                    &&& exists|k: int|
                        0 <= k < self.gem_clarities@.len() && attr_eq(
                            gem.quality,
                            #[trigger] self.gem_clarities@[k],
                        )
                },
                Err(e) => {
                    &&& e == GenError::InvalidDistribution
                    &&& (sum_weights(type_weights(self.gem_types@)) == 0 || sum_weights(
                        attr_weights(self.gem_cuts@),
                    ) == 0 || sum_weights(attr_weights(self.gem_sizes@)) == 0 || sum_weights(
                        attr_weights(self.gem_clarities@),
                    ) == 0)
                },
            },
    {
        let gem_type = match choose_random_gem_type(&self.gem_types) {
            Ok(t) => t,
            Err(e) => {
                return Err(e);
            },
        };
        proof {
            let k = choose|k: int|
                0 <= k < self.gem_types@.len() && type_eq(gem_type, #[trigger] self.gem_types@[k]);
            assert(gem_type.value_min < gem_type.value_max);
        }
        let value = rand_u64_range(gem_type.value_min, gem_type.value_max);
        let cut = match choose_random_gem_attribute(&self.gem_cuts) {
            Ok(t) => t,
            Err(e) => {
                return Err(e);
            },
        };
        let size = match choose_random_gem_attribute(&self.gem_sizes) {
            Ok(t) => t,
            Err(e) => {
                return Err(e);
            },
        };
        let quality = match choose_random_gem_attribute(&self.gem_clarities) {
            Ok(t) => t,
            Err(e) => {
                return Err(e);
            },
        };
        Ok(Gem { mineral_type: gem_type, base_value: value, cut, size, quality })
    }
}

} // verus!
