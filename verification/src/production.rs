use vstd::arithmetic::div_mod::lemma_div_is_ordered;
use vstd::prelude::*;

use crate::database::{find_bp, find_item, has_item_named, lemma_bp_idx, Database, DbView};
use crate::error::{DbError, ErrV};
use crate::records::{mats_view, ItemV, RunV, T1ProductionRun};

verus! {

/// Quantity of one material a production run needs: the base quantity times
/// the number of job runs, reduced by the material research percentage and
/// truncated to a whole number.
pub open spec fn scaled_qty(base: u64, runs: u64, research: u8) -> int {
    ((base as int) * (runs as int) * (100 - (research as int))) / 100
}

/// Material research never increases a required quantity: the scaled
/// quantity is monotonically non-increasing in the research level.
pub proof fn lemma_scaled_qty_monotone(base: u64, runs: u64, r1: u8, r2: u8)
    requires
        r1 <= r2,
        r2 <= 10,
    ensures
        scaled_qty(base, runs, r2) <= scaled_qty(base, runs, r1),
{
    let b = base as int;
    let j = runs as int;
    assert(b * j >= 0) by (nonlinear_arith)
        requires
            b >= 0,
            j >= 0,
    ;
    assert(b * j * (100 - (r2 as int)) <= b * j * (100 - (r1 as int))) by (nonlinear_arith)
        requires
            b * j >= 0,
            r1 <= r2,
    ;
    lemma_div_is_ordered(b * j * (100 - (r2 as int)), b * j * (100 - (r1 as int)), 100);
}

/// The whole materials list of a run after scaling.
pub open spec fn scaled_mats(mats: Seq<(Seq<char>, u64)>, runs: u64, research: u8) -> Seq<
    (Seq<char>, int),
> {
    mats.map_values(|m: (Seq<char>, u64)| (m.0, scaled_qty(m.1, runs, research)))
}

/// The buy price of the named item; zero when the item is absent.
pub open spec fn item_buy_price(items: Seq<ItemV>, name: Seq<char>) -> int {
    match find_item(items, name) {
        Some(it) => it.buy_price as int,
        None => 0,
    }
}

/// Total cost of a list of (name, quantity) requirements: the sum over the
/// list of the item's buy price times the quantity.
pub open spec fn mats_cost(items: Seq<ItemV>, ms: Seq<(Seq<char>, int)>) -> int
    decreases ms.len(),
{
    if ms.len() == 0 {
        0
    } else {
        mats_cost(items, ms.drop_last()) + item_buy_price(items, ms.last().0) * ms.last().1
    }
}

/// The material research level of the blueprint a run refers to; zero when
/// the blueprint is absent (the exec functions fail in that case).
pub open spec fn run_research(db: DbView, run: RunV) -> u8 {
    match find_bp(db.blueprints, run.blueprint) {
        Some(bp) => bp.material_research,
        None => 0,
    }
}

/// Every material of the list has an item record in the store.
pub open spec fn all_mats_priced(items: Seq<ItemV>, mats: Seq<(Seq<char>, u64)>) -> bool {
    forall|k: int| 0 <= k < mats.len() ==> has_item_named(items, (#[trigger] mats[k]).0)
}

/// Total cost of a production run: scaled material cost plus the flat
/// installation cost.
pub open spec fn production_cost_spec(run: RunV, db: DbView) -> int {
    mats_cost(db.items, scaled_mats(run.materials, run.jobruns, run_research(db, run)))
        + run.installation_cost
}

/// A prefix of the cost sum never exceeds the whole sum, as long as every
/// quantity is non-negative.
proof fn lemma_mats_cost_take_le(items: Seq<ItemV>, ms: Seq<(Seq<char>, int)>, k: int)
    requires
        0 <= k <= ms.len(),
        forall|t: int| 0 <= t < ms.len() ==> (#[trigger] ms[t]).1 >= 0,
    ensures
        mats_cost(items, ms.take(k)) <= mats_cost(items, ms),
    decreases ms.len() - k,
{
    if k < ms.len() {
        let a = ms.take(k + 1);
        assert(a.drop_last() =~= ms.take(k));
        assert(a.last() == ms[k]);
        assert(item_buy_price(items, ms[k].0) * ms[k].1 >= 0) by (nonlinear_arith)
            requires
                item_buy_price(items, ms[k].0) >= 0,
                ms[k].1 >= 0,
        ;
        lemma_mats_cost_take_le(items, ms, k + 1);
    } else {
        assert(ms.take(k) =~= ms);
    }
}

/// A cost sum over non-negative quantities is non-negative.
proof fn lemma_mats_cost_nonneg(items: Seq<ItemV>, ms: Seq<(Seq<char>, int)>)
    requires
        forall|t: int| 0 <= t < ms.len() ==> (#[trigger] ms[t]).1 >= 0,
    ensures
        mats_cost(items, ms) >= 0,
    decreases ms.len(),
{
    if ms.len() > 0 {
        assert(item_buy_price(items, ms.last().0) * ms.last().1 >= 0) by (nonlinear_arith)
            requires
                item_buy_price(items, ms.last().0) >= 0,
                ms.last().1 >= 0,
        ;
        assert forall|t: int| 0 <= t < ms.drop_last().len() implies (#[trigger] ms.drop_last()[
        t]).1 >= 0 by {
            assert(ms.drop_last()[t] == ms[t]);
        }
        lemma_mats_cost_nonneg(items, ms.drop_last());
    }
}

impl T1ProductionRun {
    /// Builds a production run by snapshotting the named blueprint's current
    /// materials and produced item.
    pub fn new(blueprint: &str, jobruns: u64, installation_cost: u64, db: &Database) -> (r: Result<
        T1ProductionRun,
        DbError,
    >)
        ensures
            match r {
                Ok(pr) => match find_bp(db@.blueprints, blueprint@) {
                    Some(bp) => pr@ == (RunV {
                        blueprint: blueprint@,
                        materials: bp.manufacturing_mats,
                        produces: bp.produced_item.0,
                        jobruns: jobruns,
                        installation_cost: installation_cost,
                    }),
                    None => false,
                },
                Err(e) => find_bp(db@.blueprints, blueprint@) is None && e@ == (
                ErrV::UnknownBlueprint { name: blueprint@ }),
            },
    {
        match db.get_blueprint(blueprint) {
            None => Err(DbError::UnknownBlueprint(blueprint.to_owned())),
            Some(bp) => Ok(
                T1ProductionRun {
                    blueprint: blueprint.to_owned(),
                    materials: crate::records::copy_mats(&bp.manufacturing_mats),
                    produces: bp.produced_item.0.clone(),
                    jobruns,
                    installation_cost,
                },
            ),
        }
    }

    /// The scaled material requirements of this run: for each snapshot
    /// material, its name with the scaled quantity.
    pub fn get_production_materials(&self, db: &Database) -> (r: Result<
        Vec<(String, u64)>,
        DbError,
    >)
        requires
            db.wf(),
            forall|k: int|
                0 <= k < self@.materials.len() ==> (#[trigger] self@.materials[k]).1
                    * self@.jobruns <= u64::MAX,
        ensures
            match r {
                Ok(v) => match find_bp(db@.blueprints, self@.blueprint) {
                    Some(bp) => v@.len() == self@.materials.len() && forall|k: int|
                        0 <= k < v@.len() ==> (#[trigger] mats_view(v@)[k]).0
                            == self@.materials[k].0 && mats_view(v@)[k].1 == scaled_qty(
                            self@.materials[k].1,
                            self@.jobruns,
                            bp.material_research,
                        ),
                    None => false,
                },
                Err(e) => find_bp(db@.blueprints, self@.blueprint) is None && e@ == (
                ErrV::UnknownBlueprint { name: self@.blueprint }),
            },
    {
        let mr: u8 = match db.get_blueprint(self.blueprint.as_str()) {
            None => {
                return Err(DbError::UnknownBlueprint(self.blueprint.clone()));
            },
            Some(bp) => bp.material_research,
        };
        proof {
            lemma_bp_idx(db@.blueprints, self@.blueprint);
        }
        assert(mr <= 10);
        let ghost bpv = find_bp(db@.blueprints, self@.blueprint).unwrap();
        let mut out: Vec<(String, u64)> = Vec::new();
        let n: usize = self.materials.len();
        let mut k: usize = 0;
        while k < n
            invariant
                k <= n,
                n == self.materials.len(),
                mr <= 10,
                find_bp(db@.blueprints, self@.blueprint) == Some(bpv),
                mr == bpv.material_research,
                forall|t: int|
                    0 <= t < self@.materials.len() ==> (#[trigger] self@.materials[t]).1
                        * self@.jobruns <= u64::MAX,
                out@.len() == k,
                forall|t: int|
                    0 <= t < k ==> (#[trigger] mats_view(out@)[t]).0 == self@.materials[t].0
                        && mats_view(out@)[t].1 == scaled_qty(
                        self@.materials[t].1,
                        self@.jobruns,
                        mr,
                    ),
            decreases n - k,
        {
            let base: u64 = self.materials[k].1;
            proof {
                let b = base as int;
                let j = self.jobruns as int;
                assert(self@.materials[k as int].1 == base);
                assert(b * j <= u64::MAX as int);
                assert(b * j >= 0) by (nonlinear_arith)
                    requires
                        b >= 0,
                        j >= 0,
                ;
                assert(b * j * ((100 - (mr as int))) <= (b * j) * 100) by (nonlinear_arith)
                    requires
                        b * j >= 0,
                        0 <= mr <= 10,
                ;
                assert(b * j * ((100 - (mr as int))) >= 0) by (nonlinear_arith)
                    requires
                        b * j >= 0,
                        mr <= 100,
                ;
                assert((b * j) * 100 <= u64::MAX as int * 100) by (nonlinear_arith)
                    requires
                        b * j <= u64::MAX as int,
                ;
                lemma_div_is_ordered(b * j * ((100 - (mr as int))), (b * j) * 100, 100);
                assert((b * j) * 100 / 100 == b * j) by (nonlinear_arith);
            }
            let prod: u128 = (base as u128) * (self.jobruns as u128);
            let scaled: u128 = prod * ((100 - mr) as u128) / 100;
            let q: u64 = scaled as u64;
            proof {
                assert(q as int == scaled_qty(self@.materials[k as int].1, self@.jobruns, mr));
            }
            let ghost out_pre = out@;
            out.push((self.materials[k].0.clone(), q));
            proof {
                assert forall|t: int| 0 <= t < k + 1 implies (#[trigger] mats_view(out@)[t]).0
                    == self@.materials[t].0 && mats_view(out@)[t].1 == scaled_qty(
                    self@.materials[t].1,
                    self@.jobruns,
                    mr,
                ) by {
                    assert(mats_view(out@)[t] == (out@[t].0@, out@[t].1));
                    if t < k {
                        assert(out@[t] == out_pre[t]);
                        assert(mats_view(out_pre)[t] == (out_pre[t].0@, out_pre[t].1));
                    } else {
                        assert(self@.materials[t] == (self.materials@[t].0@, self.materials@[t].1));
                    }
                }
            }
            k += 1;
        }
        Ok(out)
    }

    /// Total cost of the run: for each scaled material requirement, the
    /// item's buy price times the quantity, summed, plus the installation
    /// cost. Every referenced item must be in the store, else the error
    /// names the first absent one.
    pub fn get_production_cost(&self, db: &Database) -> (r: Result<u64, DbError>)
        requires
            db.wf(),
            forall|k: int|
                0 <= k < self@.materials.len() ==> (#[trigger] self@.materials[k]).1
                    * self@.jobruns <= u64::MAX,
            find_bp(db@.blueprints, self@.blueprint) is Some && all_mats_priced(
                db@.items,
                self@.materials,
            ) ==> production_cost_spec(self@, db@) <= u64::MAX,
        ensures
            match r {
                Ok(c) => find_bp(db@.blueprints, self@.blueprint) is Some && all_mats_priced(
                    db@.items,
                    self@.materials,
                ) && c == production_cost_spec(self@, db@),
                Err(e) => match e@ {
                    ErrV::UnknownBlueprint { name } => name == self@.blueprint && find_bp(
                        db@.blueprints,
                        self@.blueprint,
                    ) is None,
                    ErrV::UnknownItem { name } => find_bp(db@.blueprints, self@.blueprint) is Some
                        && exists|k: int|
                        0 <= k < self@.materials.len() && (#[trigger] self@.materials[k]).0 == name
                            && !has_item_named(db@.items, name) && (forall|t: int|
                            0 <= t < k ==> has_item_named(db@.items, self@.materials[t].0)),
                    _ => false,
                },
            },
    {
        let mats = match self.get_production_materials(db) {
            Err(e) => {
                return Err(e);
            },
            Ok(v) => v,
        };
        let ghost bpv = find_bp(db@.blueprints, self@.blueprint).unwrap();
        let ghost sm = scaled_mats(self@.materials, self@.jobruns, bpv.material_research);
        let n: usize = mats.len();
        let mut k: usize = 0;
        while k < n
            invariant
                k <= n,
                n == mats@.len(),
                mats@.len() == self@.materials.len(),
                find_bp(db@.blueprints, self@.blueprint) == Some(bpv),
                forall|t: int|
                    0 <= t < n ==> (#[trigger] mats_view(mats@)[t]).0 == self@.materials[t].0,
                forall|t: int| 0 <= t < k ==> has_item_named(db@.items, self@.materials[t].0),
            decreases n - k,
        {
            if db.get_item(mats[k].0.as_str()).is_none() {
                proof {
                    assert(mats_view(mats@)[k as int].0 == mats@[k as int].0@);
                    assert(self@.materials[k as int].0 == mats@[k as int].0@);
                    assert(!has_item_named(db@.items, self@.materials[k as int].0));
                }
                return Err(DbError::UnknownItem(mats[k].0.clone()));
            }
            proof {
                assert(mats_view(mats@)[k as int].0 == mats@[k as int].0@);
            }
            k += 1;
        }
        assert(all_mats_priced(db@.items, self@.materials));
        let mut total: u64 = self.installation_cost;
        let mut k: usize = 0;
        proof {
            assert(sm.take(0) =~= Seq::<(Seq<char>, int)>::empty());
            lemma_bp_idx(db@.blueprints, self@.blueprint);
            assert(bpv.material_research <= 10);
            assert forall|t: int| 0 <= t < sm.len() implies (#[trigger] sm[t]).1 >= 0 by {
                assert(sm[t] == (self@.materials[t].0, scaled_qty(
                    self@.materials[t].1,
                    self@.jobruns,
                    bpv.material_research,
                )));
                let b = self@.materials[t].1 as int;
                let j = self@.jobruns as int;
                assert(b * j * (100 - (bpv.material_research as int)) >= 0) by (nonlinear_arith)
                    requires
                        b >= 0,
                        j >= 0,
                        bpv.material_research <= 100,
                ;
                lemma_div_is_ordered(0, b * j * (100 - (bpv.material_research as int)), 100);
            }
        }
        while k < n
            invariant
                db.wf(),
                k <= n,
                n == mats@.len(),
                mats@.len() == self@.materials.len(),
                find_bp(db@.blueprints, self@.blueprint) == Some(bpv),
                sm == scaled_mats(self@.materials, self@.jobruns, bpv.material_research),
                sm.len() == n,
                all_mats_priced(db@.items, self@.materials),
                forall|t: int| 0 <= t < sm.len() ==> (#[trigger] sm[t]).1 >= 0,
                production_cost_spec(self@, db@) <= u64::MAX,
                forall|t: int|
                    0 <= t < n ==> (#[trigger] mats_view(mats@)[t]).0 == self@.materials[t].0
                        && mats_view(mats@)[t].1 == scaled_qty(
                        self@.materials[t].1,
                        self@.jobruns,
                        bpv.material_research,
                    ),
                total == self@.installation_cost + mats_cost(db@.items, sm.take(k as int)),
                total <= u64::MAX,
            decreases n - k,
        {
            let it = match db.get_item(mats[k].0.as_str()) {
                None => {
                    proof {
                        assert(has_item_named(db@.items, self@.materials[k as int].0));
                        assert(mats_view(mats@)[k as int].0 == mats@[k as int].0@);
                    }
                    return Err(DbError::UnknownItem(mats[k].0.clone()));
                },
                Some(it) => it,
            };
            let q: u64 = mats[k].1;
            proof {
                let a = sm.take(k + 1 as int);
                assert(a.drop_last() =~= sm.take(k as int));
                assert(a.last() == sm[k as int]);
                assert(mats_view(mats@)[k as int].0 == mats@[k as int].0@);
                assert(mats_view(mats@)[k as int].1 == mats@[k as int].1);
                assert(sm[k as int] == (self@.materials[k as int].0, scaled_qty(
                    self@.materials[k as int].1,
                    self@.jobruns,
                    bpv.material_research,
                )));
                assert(sm[k as int].1 == q as int);
                assert(item_buy_price(db@.items, sm[k as int].0) == it.buy_price as int);
                lemma_mats_cost_take_le(db@.items, sm, k + 1 as int);
                assert(mats_cost(db@.items, a) == mats_cost(db@.items, sm.take(k as int)) + (
                it.buy_price as int) * sm[k as int].1);
                assert((it.buy_price as int) * sm[k as int].1 >= 0) by (nonlinear_arith)
                    requires
                        it.buy_price >= 0,
                        sm[k as int].1 >= 0,
                ;
                lemma_mats_cost_nonneg(db@.items, sm.take(k as int));
            }
            total = total + it.buy_price * q;
            k += 1;
        }
        proof {
            assert(sm.take(n as int) =~= sm);
        }
        Ok(total)
    }

    /// Sell value of the run: the produced item's sell price times the
    /// number of job runs (one product unit per run).
    pub fn get_sell_value(&self, db: &Database) -> (r: Result<u64, DbError>)
        requires
            match find_item(db@.items, self@.produces) {
                Some(it) => it.sell_price * self@.jobruns <= u64::MAX,
                None => true,
            },
        ensures
            match r {
                Ok(v) => match find_item(db@.items, self@.produces) {
                    Some(it) => v == it.sell_price * self@.jobruns,
                    None => false,
                },
                Err(e) => find_item(db@.items, self@.produces) is None && e@ == (
                ErrV::UnknownItem { name: self@.produces }),
            },
    {
        match db.get_item(self.produces.as_str()) {
            None => Err(DbError::UnknownItem(self.produces.clone())),
            Some(it) => Ok(it.sell_price * self.jobruns),
        }
    }
}

} // verus!
