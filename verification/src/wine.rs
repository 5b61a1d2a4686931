//! Wines: the composed wine entity, its exact derived worth, and the wine
//! generator.
//!
//! A wine's worth is not stored: it is the product of all its note and feel
//! value modifiers, the container's modifier, the container volume and the
//! base value. Modifiers are fixed-point thousandths, so the product is kept
//! as an exact rational: a numerator and the power of one thousand that
//! scales it back to gold pieces.

use vstd::prelude::*;

use crate::GenError;
use crate::chooser::{
    choose_generic_items, count_in_group, distinct_items, item_in, lemma_session_group_quota,
    stuck_session,
};
use crate::items::{
    GenericItem, LiquidContainer, container_eq, container_weights, container_weights_vec,
    item_weights,
};
use crate::pools::{auto_populate_mexpools, lemma_built_pools_wf, pool_names, pools_built_from, ExPool};
use crate::rng::rand_u64_range;
use crate::select::{select_weighted, sum_weights};

verus! {

/// A wine's color, drawn uniformly at generation time.
#[derive(Debug, Clone, Copy, PartialEq, Eq, Structural)]
pub enum WineColor {
    White,
    Red,
}

/// A generated wine: its chosen notes and feels, its container, its base
/// value and its color. Composed once; read-only thereafter.
#[derive(Debug, PartialEq)]
pub struct Wine {
    pub notes: Vec<GenericItem>,
    pub feels: Vec<GenericItem>,
    pub container: LiquidContainer,
    pub base_value: u64,
    pub color: WineColor,
}

/// The product of the value modifiers of a list of records, in thousandths
/// each.
pub open spec fn mods_product(items: Seq<GenericItem>) -> int
    decreases items.len(),
{
    if items.len() == 0 {
        1
    } else {
        mods_product(items.drop_last()) * items.last().value_mod
    }
}

pub proof fn lemma_mods_take_succ(items: Seq<GenericItem>, j: int)
    requires
        0 <= j < items.len(),
    ensures
        mods_product(items.take(j + 1)) == mods_product(items.take(j)) * items[j].value_mod,
{
    assert(items.take(j + 1).drop_last() =~= items.take(j));
    assert(items.take(j + 1).last() == items[j]);
}

pub proof fn lemma_mods_take_all(items: Seq<GenericItem>)
    ensures
        mods_product(items.take(items.len() as int)) == mods_product(items),
{
    assert(items.take(items.len() as int) =~= items);
}

/// A list whose modifiers are all positive has a product of at least one.
pub proof fn lemma_mods_product_pos(items: Seq<GenericItem>)
    requires
        forall|k: int| 0 <= k < items.len() ==> (#[trigger] items[k]).value_mod > 0,
    ensures
        mods_product(items) >= 1,
    decreases items.len(),
{
    if items.len() > 0 {
        assert(forall|k: int|
            0 <= k < items.drop_last().len() ==> (#[trigger] items.drop_last()[k]).value_mod > 0);
        lemma_mods_product_pos(items.drop_last());
        assert(items.last().value_mod > 0);
        assert(mods_product(items.drop_last()) * items.last().value_mod >= 1)
            by (nonlinear_arith)
            requires
                mods_product(items.drop_last()) >= 1,
                items.last().value_mod >= 1,
        ;
    }
}

/// One zero modifier annihilates the whole product.
pub proof fn lemma_mods_product_zero(items: Seq<GenericItem>, j: int)
    requires
        0 <= j < items.len(),
        items[j].value_mod == 0,
    ensures
        mods_product(items) == 0,
    decreases items.len(),
{
    if j == items.len() - 1 {
    } else {
        lemma_mods_product_zero(items.drop_last(), j);
    }
}

/// The product splits at any cut point.
pub proof fn lemma_mods_product_split(items: Seq<GenericItem>, j: int)
    requires
        0 <= j <= items.len(),
    ensures
        mods_product(items) == mods_product(items.take(j)) * mods_product(items.skip(j)),
    decreases items.len(),
{
    if j == items.len() {
        assert(items.take(j) =~= items);
        assert(items.skip(j) =~= Seq::<GenericItem>::empty());
    } else {
        let s1 = items.drop_last();
        lemma_mods_product_split(s1, j);
        assert(items.take(j) =~= s1.take(j));
        assert(items.skip(j).drop_last() =~= s1.skip(j));
        assert(items.skip(j).last() == items.last());
        let a = mods_product(items.take(j));
        let b = mods_product(s1.skip(j));
        let c = items.last().value_mod as int;
        assert(mods_product(items) == (a * b) * c);
        assert(mods_product(items.skip(j)) == b * c);
        assert((a * b) * c == a * (b * c)) by (nonlinear_arith);
    }
}

/// The exact numerator of a wine's worth: the product of all note and feel
/// modifiers, the container modifier, the container volume and the base
/// value.
pub open spec fn wine_value_num(w: Wine) -> int {
    mods_product(w.notes@) * mods_product(w.feels@) * w.container.value_mod * w.container.oz
        * w.base_value
}

/// The power of one thousand that scales `wine_value_num` down to gold
/// pieces: one per value modifier in the product.
pub open spec fn wine_value_scale(w: Wine) -> int {
    w.notes@.len() + w.feels@.len() + 1int
}

/// Whether some record of the list has a zero value modifier.
pub fn has_zero_mod(items: &Vec<GenericItem>) -> (r: bool)
    ensures
        r == exists|k: int| 0 <= k < items@.len() && (#[trigger] items@[k]).value_mod == 0,
{
    let mut j: usize = 0;
    while j < items.len()
        invariant
            j <= items@.len(),
            forall|k: int| 0 <= k < j ==> (#[trigger] items@[k]).value_mod != 0,
        decreases items@.len() - j,
    {
        if items[j].value_mod == 0 {
            return true;
        }
        j = j + 1;
    }
    false
}

impl Wine {
    /// The wine's total worth as an exact rational: `Some((n, k))` stands
    /// for `n / 1000^k` gold pieces, where `n` is the exact numerator and
    /// `k` counts the fixed-point modifiers in the product. `None` exactly
    /// when the numerator does not fit in 128 bits.
    #[verifier::loop_isolation(false)]
    pub fn total_value(&self) -> (r: Option<(u128, usize)>)
        requires
            self.notes@.len() + self.feels@.len() + 1 <= usize::MAX,
        ensures
            match r {
                Option::Some(v) => {
                    &&& v.0 == wine_value_num(*self)
                    &&& v.1 == wine_value_scale(*self)
                },
                Option::None => wine_value_num(*self) > u128::MAX,
            },
    {
        let scale: usize = self.notes.len() + self.feels.len() + 1;
        let ghost m1 = mods_product(self.notes@);
        let ghost m2 = mods_product(self.feels@);
        let ghost num = wine_value_num(*self);

        // one zero factor anywhere makes the exact product zero
        if self.base_value == 0 || self.container.value_mod == 0 || self.container.oz == 0 {
            proof {
                assert(num == 0) by (nonlinear_arith)
                    requires
                        num == m1 * m2 * (self.container.value_mod as int) * (self.container.oz
                            as int) * (self.base_value as int),
                        self.base_value == 0 || self.container.value_mod == 0 || self.container.oz
                            == 0,
                ;
            }
            return Some((0, scale));
        }
        if has_zero_mod(&self.notes) {
            proof {
                let k = choose|k: int|
                    0 <= k < self.notes@.len() && (#[trigger] self.notes@[k]).value_mod == 0;
                lemma_mods_product_zero(self.notes@, k);
                assert(num == 0) by (nonlinear_arith)
                    requires
                        num == m1 * m2 * (self.container.value_mod as int) * (self.container.oz
                            as int) * (self.base_value as int),
                        m1 == 0,
                ;
            }
            return Some((0, scale));
        }
        if has_zero_mod(&self.feels) {
            proof {
                let k = choose|k: int|
                    0 <= k < self.feels@.len() && (#[trigger] self.feels@[k]).value_mod == 0;
                lemma_mods_product_zero(self.feels@, k);
                assert(num == 0) by (nonlinear_arith)
                    requires
                        num == m1 * m2 * (self.container.value_mod as int) * (self.container.oz
                            as int) * (self.base_value as int),
                        m2 == 0,
                ;
            }
            return Some((0, scale));
        }
        proof {
            lemma_mods_product_pos(self.notes@);
            lemma_mods_product_pos(self.feels@);
        }
        let bv: u128 = self.base_value as u128;
        let cm: u128 = self.container.value_mod as u128;
        let oz: u128 = self.container.oz as u128;
        let ghost big: int = u128::MAX as int;

        let step1 = bv.checked_mul(cm);
        if step1.is_none() {
            proof {
                assert(num > big) by (nonlinear_arith)
                    requires
                        num == m1 * m2 * (cm as int) * (oz as int) * (bv as int),
                        m1 >= 1,
                        m2 >= 1,
                        (oz as int) >= 1,
                        (bv as int) * (cm as int) > big,
                ;
            }
            return None;
        }
        let step2 = step1.unwrap().checked_mul(oz);
        if step2.is_none() {
            proof {
                assert(num > big) by (nonlinear_arith)
                    requires
                        num == m1 * m2 * (cm as int) * (oz as int) * (bv as int),
                        m1 >= 1,
                        m2 >= 1,
                        ((bv as int) * (cm as int)) * (oz as int) > big,
                ;
            }
            return None;
        }
        let ghost base3: int = ((bv as int) * (cm as int)) * (oz as int);
        let mut acc: u128 = step2.unwrap();
        let mut j: usize = 0;
        proof {
            assert(mods_product(self.notes@.take(0)) == 1);
        }
        while j < self.notes.len()
            invariant
                j <= self.notes@.len(),
                acc as int == base3 * mods_product(self.notes@.take(j as int)),
            decreases self.notes@.len() - j,
        {
            let f = self.notes[j].value_mod;
            let ghost ptj = mods_product(self.notes@.take(j as int));
            proof {
                lemma_mods_take_succ(self.notes@, j as int);
            }
            let next = acc.checked_mul(f as u128);
            if next.is_none() {
                proof {
                    lemma_mods_product_split(self.notes@, j as int + 1);
                    assert(forall|k: int|
                        0 <= k < self.notes@.skip(j as int + 1).len() ==> (#[trigger] self.notes@.skip(
                            j as int + 1,
                        )[k]).value_mod > 0);
                    lemma_mods_product_pos(self.notes@.skip(j as int + 1));
                    let ps = mods_product(self.notes@.skip(j as int + 1));
                    assert(num > big) by (nonlinear_arith)
                        requires
                            num == m1 * m2 * (cm as int) * (oz as int) * (bv as int),
                            m1 == (ptj * (f as int)) * ps,
                            (acc as int) == (((bv as int) * (cm as int)) * (oz as int)) * ptj,
                            (acc as int) * (f as int) > big,
                            ps >= 1,
                            m2 >= 1,
                            (acc as int) >= 0,
                            (f as int) >= 1,
                    ;
                }
                return None;
            }
            proof {
                assert((base3 * ptj) * (f as int) == base3 * (ptj * (f as int)))
                    by (nonlinear_arith);
            }
            acc = next.unwrap();
            j = j + 1;
        }
        proof {
            lemma_mods_take_all(self.notes@);
        }
        let ghost base4: int = base3 * m1;
        let mut i: usize = 0;
        proof {
            assert(mods_product(self.feels@.take(0)) == 1);
        }
        while i < self.feels.len()
            invariant
                i <= self.feels@.len(),
                acc as int == base4 * mods_product(self.feels@.take(i as int)),
            decreases self.feels@.len() - i,
        {
            let f = self.feels[i].value_mod;
            let ghost pti = mods_product(self.feels@.take(i as int));
            proof {
                lemma_mods_take_succ(self.feels@, i as int);
            }
            let next = acc.checked_mul(f as u128);
            if next.is_none() {
                proof {
                    lemma_mods_product_split(self.feels@, i as int + 1);
                    assert(forall|k: int|
                        0 <= k < self.feels@.skip(i as int + 1).len() ==> (#[trigger] self.feels@.skip(
                            i as int + 1,
                        )[k]).value_mod > 0);
                    lemma_mods_product_pos(self.feels@.skip(i as int + 1));
                    let ps = mods_product(self.feels@.skip(i as int + 1));
                    assert(num > big) by (nonlinear_arith)
                        requires
                            num == m1 * m2 * (cm as int) * (oz as int) * (bv as int),
                            m2 == (pti * (f as int)) * ps,
                            (acc as int) == ((((bv as int) * (cm as int)) * (oz as int)) * m1)
                                * pti,
                            (acc as int) * (f as int) > big,
                            ps >= 1,
                            (acc as int) >= 0,
                            (f as int) >= 1,
                    ;
                }
                return None;
            }
            proof {
                assert((base4 * pti) * (f as int) == base4 * (pti * (f as int)))
                    by (nonlinear_arith);
            }
            acc = next.unwrap();
            i = i + 1;
        }
        proof {
            lemma_mods_take_all(self.feels@);
            assert((acc as int) == num) by (nonlinear_arith)
                requires
                    num == m1 * m2 * (cm as int) * (oz as int) * (bv as int),
                    (acc as int) == ((((bv as int) * (cm as int)) * (oz as int)) * m1) * m2,
            ;
        }
        Some((acc, scale))
    }
}

/// The wine generator: owns the note, feel and container tables it draws
/// from.
pub struct WineGenerator {
    pub notes_vec: Vec<GenericItem>,
    pub feels_vec: Vec<GenericItem>,
    pub container_vec: Vec<LiquidContainer>,
}

/// A selection session over one table ran dry: the drawn count was one to
/// three, the pools were freshly built from the table, and a lawful partial
/// selection left no candidate of the table eligible.
pub open spec fn table_session_ran_dry(
    items: Seq<GenericItem>,
    n: int,
    built: Seq<ExPool>,
    after: Seq<ExPool>,
    partial: Seq<GenericItem>,
) -> bool {
    &&& 1 <= n < 4
    &&& pools_built_from(items, built)
    &&& stuck_session(items, built, after, partial, n)
}

/// One of the generator's two selection sessions ran dry, over the note
/// table or over the feel table. This is the only way `create_wine` reports
/// `InfeasibleSelection`.
pub open spec fn wine_session_ran_dry(wg: WineGenerator) -> bool {
    exists|n: int, built: Seq<ExPool>, after: Seq<ExPool>, partial: Seq<GenericItem>|
        #![trigger table_session_ran_dry(wg.notes_vec@, n, built, after, partial)]
        #![trigger table_session_ran_dry(wg.feels_vec@, n, built, after, partial)]
        (table_session_ran_dry(wg.notes_vec@, n, built, after, partial)
            || table_session_ran_dry(wg.feels_vec@, n, built, after, partial))
}

/// Exhibits a dry session over either table as a witness for
/// `wine_session_ran_dry`.
pub proof fn lemma_wine_session_ran_dry(
    wg: WineGenerator,
    n: int,
    built: Seq<ExPool>,
    after: Seq<ExPool>,
    partial: Seq<GenericItem>,
)
    requires
        table_session_ran_dry(wg.notes_vec@, n, built, after, partial) || table_session_ran_dry(
            wg.feels_vec@,
            n,
            built,
            after,
            partial,
        ),
    ensures
        wine_session_ran_dry(wg),
{
}

impl WineGenerator {
    /// Assembles a wine: one weighted container draw; fresh exclusion pools
    /// built separately for notes and for feels from their own tables; one
    /// to three notes and one to three feels chosen under those pools; a
    /// uniform color; base value one.
    ///
    /// Fails with `InvalidDistribution` when a table in play is empty or
    /// sums to zero weight, and with `InfeasibleSelection` when a selection
    /// session runs out of eligible candidates.
    pub fn create_wine(&self) -> (res: Result<Wine, GenError>)
        requires
            sum_weights(container_weights(self.container_vec@)) <= u64::MAX,
            sum_weights(item_weights(self.notes_vec@)) <= u64::MAX,
            sum_weights(item_weights(self.feels_vec@)) <= u64::MAX,
        ensures
            match res {
                Ok(w) => {
                    &&& sum_weights(container_weights(self.container_vec@)) > 0
                    &&& sum_weights(item_weights(self.notes_vec@)) > 0
                    &&& sum_weights(item_weights(self.feels_vec@)) > 0
                    &&& 1 <= w.notes@.len() <= 3
                    &&& 1 <= w.feels@.len() <= 3
                    &&& distinct_items(w.notes@)
                    &&& distinct_items(w.feels@)
                    &&& forall|k: int|
                        0 <= k < w.notes@.len() ==> (#[trigger] w.notes@[k]).weight > 0
                    &&& forall|k: int|
                        0 <= k < w.feels@.len() ==> (#[trigger] w.feels@[k]).weight > 0
                    &&& forall|k: int|
                        0 <= k < w.notes@.len() ==> item_in(self.notes_vec@, #[trigger] w.notes@[k])
                    &&& forall|k: int|
                        0 <= k < w.feels@.len() ==> item_in(self.feels_vec@, #[trigger] w.feels@[k])
                    &&& forall|g: Seq<char>|
                        pool_names(self.notes_vec@).contains(g) ==> #[trigger] count_in_group(
                            w.notes@,
                            g,
                        ) <= 1
                    &&& forall|g: Seq<char>|
                        pool_names(self.feels_vec@).contains(g) ==> #[trigger] count_in_group(
                            w.feels@,
                            g,
                        ) <= 1
                    &&& exists|k: int|
                        0 <= k < self.container_vec@.len() && container_eq(
                            w.container,
                            #[trigger] self.container_vec@[k],
                        )
                    &&& w.container.weight > 0
                    &&& w.base_value == 1
                },
                Err(e) => {
                    ||| (e == GenError::InvalidDistribution && (sum_weights(
                        container_weights(self.container_vec@),
                    ) == 0 || sum_weights(item_weights(self.notes_vec@)) == 0 || sum_weights(
                        item_weights(self.feels_vec@),
                    ) == 0))
                    ||| (e == GenError::InfeasibleSelection && wine_session_ran_dry(*self))
                },
            },
    {
        let ws = container_weights_vec(&self.container_vec);
        let ci = match select_weighted(&ws) {
            Ok(i) => i,
            Err(e) => {
                return Err(e);
            },
        };
        let container = self.container_vec[ci].clone();
        proof {
            assert(container_eq(container, self.container_vec@[ci as int]));
        }
        let mut notes_mexpool = auto_populate_mexpools(&self.notes_vec);
        let mut feels_mexpool = auto_populate_mexpools(&self.feels_vec);
        proof {
            lemma_built_pools_wf(self.notes_vec@, notes_mexpool@);
            lemma_built_pools_wf(self.feels_vec@, feels_mexpool@);
        }
        let ghost notes_built = notes_mexpool@;
        let n_notes = rand_u64_range(1, 4) as usize;
        let notes = match choose_generic_items(&self.notes_vec, &mut notes_mexpool, n_notes) {
            Ok(v) => v,
            Err(e) => {
                proof {
                    if e == GenError::InfeasibleSelection {
                        let partial = choose|partial: Seq<GenericItem>|
                            stuck_session(
                                self.notes_vec@,
                                notes_built,
                                notes_mexpool@,
                                partial,
                                n_notes as int,
                            );
                        assert(table_session_ran_dry(
                            self.notes_vec@,
                            n_notes as int,
                            notes_built,
                            notes_mexpool@,
                            partial,
                        ));
                        lemma_wine_session_ran_dry(
                            *self,
                            n_notes as int,
                            notes_built,
                            notes_mexpool@,
                            partial,
                        );
                    }
                }
                return Err(e);
            },
        };
        let ghost feels_built = feels_mexpool@;
        let n_feels = rand_u64_range(1, 4) as usize;
        let feels = match choose_generic_items(&self.feels_vec, &mut feels_mexpool, n_feels) {
            Ok(v) => v,
            Err(e) => {
                proof {
                    if e == GenError::InfeasibleSelection {
                        let partial = choose|partial: Seq<GenericItem>|
                            stuck_session(
                                self.feels_vec@,
                                feels_built,
                                feels_mexpool@,
                                partial,
                                n_feels as int,
                            );
                        assert(table_session_ran_dry(
                            self.feels_vec@,
                            n_feels as int,
                            feels_built,
                            feels_mexpool@,
                            partial,
                        ));
                        lemma_wine_session_ran_dry(
                            *self,
                            n_feels as int,
                            feels_built,
                            feels_mexpool@,
                            partial,
                        );
                    }
                }
                return Err(e);
            },
        };
        proof {
            assert forall|g: Seq<char>|
                pool_names(self.notes_vec@).contains(g) implies #[trigger] count_in_group(
                notes@,
                g,
            ) <= 1 by {
                lemma_session_group_quota(self.notes_vec@, notes_built, notes_mexpool@, notes@, g);
            }
            assert forall|g: Seq<char>|
                pool_names(self.feels_vec@).contains(g) implies #[trigger] count_in_group(
                feels@,
                g,
            ) <= 1 by {
                lemma_session_group_quota(self.feels_vec@, feels_built, feels_mexpool@, feels@, g);
            }
        }
        let color = if rand_u64_range(0, 2) == 0 {
            WineColor::White
        } else {
            WineColor::Red
        };
        Ok(Wine { notes, feels, container, base_value: 1, color })
    }
}

} // verus!
