use vstd::prelude::*;

use crate::database::{
    has_item_named, lemma_bp_idx, lemma_item_idx, lemma_items_view_push, lemma_upsert_bp_wf,
    lookup_def, lookup_name, unique_item_names, upsert_bp, Database, DbView,
};
use crate::error::{DbError, ErrV};
use crate::records::{mats_view, BlueprintDef, BpV, DefV, Item, ItemV, T1Blueprint};

verus! {

/// View of a resolved materials list: display name, type id, base quantity.
pub open spec fn rmats_view(s: Seq<(String, i64, u64)>) -> Seq<(Seq<char>, i64, u64)> {
    s.map_values(|m: (String, i64, u64)| (m.0@, m.1, m.2))
}

/// View of a list of owned strings.
pub open spec fn strs_view(s: Seq<String>) -> Seq<Seq<char>> {
    s.map_values(|x: String| x@)
}

/// The (name, type id) pairs of a resolved materials list.
pub open spec fn mat_names(rs: Seq<(Seq<char>, i64, u64)>) -> Seq<(Seq<char>, i64)> {
    rs.map_values(|m: (Seq<char>, i64, u64)| (m.0, m.1))
}

/// The (name, quantity) pairs of a resolved materials list: what the
/// assembled blueprint stores.
pub open spec fn mat_pairs(rs: Seq<(Seq<char>, i64, u64)>) -> Seq<(Seq<char>, u64)> {
    rs.map_values(|m: (Seq<char>, i64, u64)| (m.0, m.2))
}

/// Resolution of a definition's material entries against the catalog name
/// table, in order: each (type id, quantity) entry becomes (display name,
/// type id, quantity); the first id without a name is the error.
pub open spec fn resolve_mats(tn: Seq<(i64, Seq<char>)>, mats: Seq<(i64, u64)>) -> Result<
    Seq<(Seq<char>, i64, u64)>,
    ErrV,
>
    decreases mats.len(),
{
    if mats.len() == 0 {
        Ok(Seq::empty())
    } else {
        match resolve_mats(tn, mats.drop_last()) {
            Err(e) => Err(e),
            Ok(rs) => match lookup_name(tn, mats.last().0) {
                None => Err(ErrV::UnknownTypeId { id: mats.last().0 }),
                Some(nm) => Ok(rs.push((nm, mats.last().0, mats.last().1))),
            },
        }
    }
}

/// Creation of the item records a resolved list still lacks: walking the
/// list in order, a name with no item record gets a fresh zero-priced record
/// appended. Yields the grown item store and the created names, in order.
pub open spec fn create_missing(items: Seq<ItemV>, ms: Seq<(Seq<char>, i64)>, produced: bool) -> (
    Seq<ItemV>,
    Seq<Seq<char>>,
)
    decreases ms.len(),
{
    if ms.len() == 0 {
        (items, Seq::empty())
    } else if has_item_named(items, ms[0].0) {
        create_missing(items, ms.skip(1), produced)
    } else {
        let it = ItemV {
            name: ms[0].0,
            id: ms[0].1,
            buy_price: 0,
            sell_price: 0,
            produced: produced,
        };
        let res = create_missing(items.push(it), ms.skip(1), produced);
        (res.0, seq![ms[0].0] + res.1)
    }
}

/// Everything one bootstrapping call computes: the grown item store, the
/// assembled blueprint, and the names of the items created on the way.
#[verifier::ext_equal]
pub struct BootOut {
    pub items: Seq<ItemV>,
    pub bp: BpV,
    pub created: Seq<Seq<char>>,
}

/// The outcome of bootstrapping a blueprint from the reference catalog:
/// resolve the blueprint's display name and manufacturing definition, then
/// every material name, then the first product's name; create the item
/// records still missing (materials first, the product last); assemble the
/// blueprint. Any unresolvable type id, or a definition without a product,
/// is an error and nothing changes.
pub open spec fn bootstrap_spec(db: DbView, id: i64, mr: u8, tr: u8) -> Result<BootOut, ErrV> {
    match lookup_name(db.type_names, id) {
        None => Err(ErrV::UnknownTypeId { id: id }),
        Some(bp_name) => match lookup_def(db.blueprint_defs, id) {
            None => Err(ErrV::UnknownTypeId { id: id }),
            Some(def) => match resolve_mats(db.type_names, def.materials) {
                Err(e) => Err(e),
                Ok(rs) => if def.products.len() == 0 {
                    Err(ErrV::NoProduct { id: id })
                } else {
                    match lookup_name(db.type_names, def.products[0]) {
                        None => Err(ErrV::UnknownTypeId { id: def.products[0] }),
                        Some(pname) => {
                            let step1 = create_missing(db.items, mat_names(rs), false);
                            let step2 = create_missing(
                                step1.0,
                                seq![(pname, def.products[0])],
                                true,
                            );
                            Ok(
                                BootOut {
                                    items: step2.0,
                                    bp: BpV {
                                        name: bp_name,
                                        bp_id: id,
                                        manufacturing_mats: mat_pairs(rs),
                                        material_research: mr,
                                        time_research: tr,
                                        produced_item: (pname, def.products[0]),
                                    },
                                    created: step1.1 + step2.1,
                                },
                            )
                        },
                    }
                },
            },
        },
    }
}

/// Once resolution has failed on a prefix, it fails the same way on the
/// whole list.
proof fn lemma_resolve_err_propagates(tn: Seq<(i64, Seq<char>)>, mats: Seq<(i64, u64)>, j: int)
    requires
        0 <= j <= mats.len(),
        resolve_mats(tn, mats.take(j)) is Err,
    ensures
        resolve_mats(tn, mats) == resolve_mats(tn, mats.take(j)),
    decreases mats.len() - j,
{
    if j < mats.len() {
        assert(mats.take(j + 1).drop_last() =~= mats.take(j));
        lemma_resolve_err_propagates(tn, mats, j + 1);
    } else {
        assert(mats.take(j) =~= mats);
    }
}

proof fn lemma_rmats_view_push(s: Seq<(String, i64, u64)>, m: (String, i64, u64))
    ensures
        rmats_view(s.push(m)) == rmats_view(s).push((m.0@, m.1, m.2)),
{
    assert forall|j: int| 0 <= j < s.len() + 1 implies #[trigger] rmats_view(s.push(m))[j]
        == rmats_view(s).push((m.0@, m.1, m.2))[j] by {
        if j < s.len() {
            assert(s.push(m)[j] == s[j]);
        }
    }
    assert(rmats_view(s.push(m)) =~= rmats_view(s).push((m.0@, m.1, m.2)));
}

proof fn lemma_strs_view_push(s: Seq<String>, x: String)
    ensures
        strs_view(s.push(x)) == strs_view(s).push(x@),
{
    assert forall|j: int| 0 <= j < s.len() + 1 implies #[trigger] strs_view(s.push(x))[j]
        == strs_view(s).push(x@)[j] by {
        if j < s.len() {
            assert(s.push(x)[j] == s[j]);
        }
    }
    assert(strs_view(s.push(x)) =~= strs_view(s).push(x@));
}

/// Appending a record under a fresh name keeps the names unique.
proof fn lemma_push_item_unique(items: Seq<ItemV>, it: ItemV)
    requires
        unique_item_names(items),
        !has_item_named(items, it.name),
    ensures
        unique_item_names(items.push(it)),
{
    lemma_item_idx(items, it.name);
    let t = items.push(it);
    assert forall|i: int, j: int| 0 <= i < j < t.len() implies t[i].name != t[j].name by {
        if j == items.len() {
            assert(t[i] == items[i]);
        } else {
            assert(t[i] == items[i] && t[j] == items[j]);
        }
    }
}

impl Database {
    /// The catalog display name recorded for a type id, if any.
    pub fn lookup_type_name(&self, id: i64) -> (r: Option<String>)
        ensures
            match r {
                Some(s) => lookup_name(self@.type_names, id) == Some(s@),
                None => lookup_name(self@.type_names, id) is None,
            },
    {
        let n: usize = self.type_names.len();
        let mut i: usize = 0;
        proof {
            assert(self@.type_names.skip(0) =~= self@.type_names);
        }
        while i < n
            invariant
                i <= n,
                n == self.type_names.len(),
                lookup_name(self@.type_names, id) == lookup_name(
                    self@.type_names.skip(i as int),
                    id,
                ),
            decreases n - i,
        {
            proof {
                assert(self@.type_names[i as int] == (
                    self.type_names@[i as int].0,
                    self.type_names@[i as int].1@,
                ));
                assert(self@.type_names.skip(i as int)[0] == self@.type_names[i as int]);
            }
            if self.type_names[i].0 == id {
                return Some(self.type_names[i].1.clone());
            }
            proof {
                assert(self@.type_names.skip(i as int).skip(1) =~= self@.type_names.skip(
                    i + 1 as int,
                ));
            }
            i += 1;
        }
        proof {
            assert(self@.type_names.skip(n as int) =~= Seq::<(i64, Seq<char>)>::empty());
        }
        None
    }

    /// The catalog manufacturing definition recorded for a type id, if any,
    /// as an owned copy.
    pub fn lookup_blueprint_def(&self, id: i64) -> (r: Option<BlueprintDef>)
        ensures
            match r {
                Some(d) => lookup_def(self@.blueprint_defs, id) == Some(d@),
                None => lookup_def(self@.blueprint_defs, id) is None,
            },
    {
        let n: usize = self.blueprint_defs.len();
        let mut i: usize = 0;
        proof {
            assert(self@.blueprint_defs.skip(0) =~= self@.blueprint_defs);
        }
        while i < n
            invariant
                i <= n,
                n == self.blueprint_defs.len(),
                lookup_def(self@.blueprint_defs, id) == lookup_def(
                    self@.blueprint_defs.skip(i as int),
                    id,
                ),
            decreases n - i,
        {
            proof {
                assert(self@.blueprint_defs[i as int] == (
                    self.blueprint_defs@[i as int].0,
                    self.blueprint_defs@[i as int].1@,
                ));
                assert(self@.blueprint_defs.skip(i as int)[0] == self@.blueprint_defs[i as int]);
            }
            if self.blueprint_defs[i].0 == id {
                return Some(copy_def(&self.blueprint_defs[i].1));
            }
            proof {
                assert(self@.blueprint_defs.skip(i as int).skip(1) =~= self@.blueprint_defs.skip(
                    i + 1 as int,
                ));
            }
            i += 1;
        }
        proof {
            assert(self@.blueprint_defs.skip(n as int) =~= Seq::<(i64, DefV)>::empty());
        }
        None
    }
}

/// Copies one catalog definition; the copy has the same value.
fn copy_def(d: &BlueprintDef) -> (r: BlueprintDef)
    ensures
        r@ == d@,
{
    let mut materials: Vec<(i64, u64)> = Vec::new();
    let nm: usize = d.materials.len();
    let mut i: usize = 0;
    while i < nm
        invariant
            i <= nm,
            nm == d.materials.len(),
            materials@ == d.materials@.take(i as int),
        decreases nm - i,
    {
        materials.push(d.materials[i]);
        proof {
            assert(materials@ =~= d.materials@.take(i + 1 as int));
        }
        i += 1;
    }
    proof {
        assert(d.materials@.take(nm as int) =~= d.materials@);
    }
    let mut products: Vec<i64> = Vec::new();
    let np: usize = d.products.len();
    let mut i: usize = 0;
    while i < np
        invariant
            i <= np,
            np == d.products.len(),
            products@ == d.products@.take(i as int),
        decreases np - i,
    {
        products.push(d.products[i]);
        proof {
            assert(products@ =~= d.products@.take(i + 1 as int));
        }
        i += 1;
    }
    proof {
        assert(d.products@.take(np as int) =~= d.products@);
    }
    BlueprintDef { materials, products }
}


impl Database {
    /// Bootstraps a new blueprint from the reference catalog: resolves its
    /// display name and manufacturing definition, creates a zero-priced item
    /// record for every material and for the product that the store does not
    /// know yet, and inserts the assembled blueprint under its display name.
    /// Returns the names of the items created, in creation order. On any
    /// error nothing changes: an unresolvable type id names itself, and a
    /// definition without products is rejected.
    #[verifier::loop_isolation(false)]
    pub fn add_blueprint(&mut self, bp_id: i64, material_research: u8, time_research: u8) -> (r:
        Result<Vec<String>, DbError>)
        requires
            old(self).wf(),
            material_research <= 10,
            time_research <= 20,
        ensures
            final(self).wf(),
            final(self)@.type_names == old(self)@.type_names,
            final(self)@.blueprint_defs == old(self)@.blueprint_defs,
            final(self)@.runs == old(self)@.runs,
            match r {
                Ok(created) => match bootstrap_spec(
                    old(self)@,
                    bp_id,
                    material_research,
                    time_research,
                ) {
                    Ok(bo) => final(self)@.items == bo.items && final(self)@.blueprints
                        == upsert_bp(old(self)@.blueprints, bo.bp) && strs_view(created@)
                        == bo.created,
                    Err(_) => false,
                },
                Err(e) => bootstrap_spec(old(self)@, bp_id, material_research, time_research)
                    == Err::<BootOut, ErrV>(e@) && final(self)@ == old(self)@,
            },
    {
        let ghost db0 = self@;
        let bp_name: String = match self.lookup_type_name(bp_id) {
            None => {
                return Err(DbError::UnknownTypeId(bp_id));
            },
            Some(s) => s,
        };
        let def: BlueprintDef = match self.lookup_blueprint_def(bp_id) {
            None => {
                return Err(DbError::UnknownTypeId(bp_id));
            },
            Some(d) => d,
        };
        let ghost defv = def@;
        proof {
            assert(lookup_name(db0.type_names, bp_id) == Some(bp_name@));
            assert(lookup_def(db0.blueprint_defs, bp_id) == Some(defv));
        }
        let mut rmats: Vec<(String, i64, u64)> = Vec::new();
        let nm: usize = def.materials.len();
        let mut k: usize = 0;
        proof {
            assert(defv.materials.take(0) =~= Seq::<(i64, u64)>::empty());
            assert(rmats_view(rmats@) =~= Seq::<(Seq<char>, i64, u64)>::empty());
        }
        while k < nm
            invariant
                k <= nm,
                nm == def.materials.len(),
                defv == def@,
                db0 == self@,
                resolve_mats(db0.type_names, defv.materials.take(k as int)) == Ok::<
                    Seq<(Seq<char>, i64, u64)>,
                    ErrV,
                >(rmats_view(rmats@)),
            decreases nm - k,
        {
            let mid: i64 = def.materials[k].0;
            let qty: u64 = def.materials[k].1;
            proof {
                assert(defv.materials.take(k + 1 as int).drop_last() =~= defv.materials.take(
                    k as int,
                ));
                assert(defv.materials.take(k + 1 as int).last() == defv.materials[k as int]);
                assert(defv.materials[k as int] == (mid, qty));
            }
            match self.lookup_type_name(mid) {
                None => {
                    proof {
                        assert(resolve_mats(db0.type_names, defv.materials.take(k + 1 as int))
                            == Err::<Seq<(Seq<char>, i64, u64)>, ErrV>(
                            ErrV::UnknownTypeId { id: mid },
                        ));
                        lemma_resolve_err_propagates(db0.type_names, defv.materials, k + 1 as int);
                    }
                    return Err(DbError::UnknownTypeId(mid));
                },
                Some(found) => {
                    let ghost rs_pre = rmats@;
                    let ghost foundv = found@;
                    rmats.push((found, mid, qty));
                    proof {
                        lemma_rmats_view_push(rs_pre, rmats@[rs_pre.len() as int]);
                        assert(rmats@[rs_pre.len() as int].0@ == foundv);
                    }
                },
            }
            k += 1;
        }
        proof {
            assert(defv.materials.take(nm as int) =~= defv.materials);
        }
        let ghost rsv = rmats_view(rmats@);
        proof {
            assert(resolve_mats(db0.type_names, defv.materials) == Ok::<
                Seq<(Seq<char>, i64, u64)>,
                ErrV,
            >(rsv));
        }
        if def.products.len() == 0 {
            return Err(DbError::NoProduct(bp_id));
        }
        let pid: i64 = def.products[0];
        let pname: String = match self.lookup_type_name(pid) {
            None => {
                return Err(DbError::UnknownTypeId(pid));
            },
            Some(s) => s,
        };
        proof {
            assert(lookup_name(db0.type_names, pid) == Some(pname@));
            assert(defv.products[0] == pid);
        }
        let ghost step1 = create_missing(db0.items, mat_names(rsv), false);
        let mut created: Vec<String> = Vec::new();
        let nr: usize = rmats.len();
        let mut k: usize = 0;
        proof {
            assert(mat_names(rsv).skip(0) =~= mat_names(rsv));
            assert(strs_view(created@) =~= Seq::<Seq<char>>::empty());
            assert(Seq::<Seq<char>>::empty() + step1.1 =~= step1.1);
        }
        while k < nr
            invariant
                k <= nr,
                nr == rmats@.len(),
                rsv == rmats_view(rmats@),
                mat_names(rsv).len() == nr,
                self@.type_names == db0.type_names,
                self@.blueprint_defs == db0.blueprint_defs,
                self@.blueprints == db0.blueprints,
                self@.runs == db0.runs,
                unique_item_names(self@.items),
                ({
                    let rest = create_missing(self@.items, mat_names(rsv).skip(k as int), false);
                    step1.0 == rest.0 && step1.1 == strs_view(created@) + rest.1
                }),
            decreases nr - k,
        {
            proof {
                assert(mat_names(rsv).skip(k as int)[0] == mat_names(rsv)[k as int]);
                assert(mat_names(rsv)[k as int] == (rsv[k as int].0, rsv[k as int].1));
                assert(rsv[k as int] == (
                    rmats@[k as int].0@,
                    rmats@[k as int].1,
                    rmats@[k as int].2,
                ));
                assert(mat_names(rsv).skip(k as int).skip(1) =~= mat_names(rsv).skip(k + 1 as int));
            }
            let present = self.has_item(rmats[k].0.as_str());
            if !present {
                let ghost items_pre = self@.items;
                let ghost created_pre = created@;
                let it = Item {
                    name: rmats[k].0.clone(),
                    id: rmats[k].1,
                    buy_price: 0,
                    sell_price: 0,
                    produced: false,
                };
                let cname = rmats[k].0.clone();
                proof {
                    lemma_push_item_unique(items_pre, it@);
                    lemma_items_view_push(self.known_items@, it);
                    lemma_strs_view_push(created@, cname);
                    assert(it@ == (ItemV {
                        name: mat_names(rsv)[k as int].0,
                        id: mat_names(rsv)[k as int].1,
                        buy_price: 0,
                        sell_price: 0,
                        produced: false,
                    }));
                }
                self.known_items.push(it);
                created.push(cname);
                proof {
                    let rest_new = create_missing(
                        self@.items,
                        mat_names(rsv).skip(k + 1 as int),
                        false,
                    );
                    assert(strs_view(created_pre) + (seq![mat_names(rsv)[k as int].0] + rest_new.1)
                        =~= strs_view(created@) + rest_new.1);
                }
            }
            k += 1;
        }
        proof {
            assert(mat_names(rsv).skip(nr as int) =~= Seq::<(Seq<char>, i64)>::empty());
            assert(step1.1 == strs_view(created@) + Seq::<Seq<char>>::empty());
            assert(strs_view(created@) + Seq::<Seq<char>>::empty() =~= strs_view(created@));
        }
        let ghost step2 = create_missing(step1.0, seq![(pname@, pid)], true);
        let ghost items_mid = self@.items;
        let ghost created_mid = created@;
        proof {
            assert(seq![(pname@, pid)][0] == (pname@, pid));
            assert(seq![(pname@, pid)].skip(1) =~= Seq::<(Seq<char>, i64)>::empty());
        }
        let phas = self.has_item(pname.as_str());
        if !phas {
            let it = Item {
                name: pname.clone(),
                id: pid,
                buy_price: 0,
                sell_price: 0,
                produced: true,
            };
            let cname = pname.clone();
            proof {
                lemma_push_item_unique(items_mid, it@);
                lemma_items_view_push(self.known_items@, it);
                lemma_strs_view_push(created@, cname);
                assert(it@ == (ItemV {
                    name: pname@,
                    id: pid,
                    buy_price: 0,
                    sell_price: 0,
                    produced: true,
                }));
            }
            self.known_items.push(it);
            created.push(cname);
            proof {
                assert(create_missing(self@.items, Seq::<(Seq<char>, i64)>::empty(), true) == (
                    self@.items,
                    Seq::<Seq<char>>::empty(),
                ));
                assert(step2.0 == self@.items);
                assert(step2.1 =~= seq![pname@]);
                assert(strs_view(created@) =~= strs_view(created_mid).push(pname@));
                assert(step1.1 + step2.1 =~= strs_view(created@));
            }
        } else {
            proof {
                assert(create_missing(step1.0, Seq::<(Seq<char>, i64)>::empty(), true) == (
                    step1.0,
                    Seq::<Seq<char>>::empty(),
                ));
                assert(step2.0 == self@.items);
                assert(step2.1 =~= Seq::<Seq<char>>::empty());
                assert(step1.1 + step2.1 =~= strs_view(created@));
            }
        }
        let mut mats_list: Vec<(String, u64)> = Vec::new();
        let mut kk: usize = 0;
        while kk < nr
            invariant
                kk <= nr,
                nr == rmats@.len(),
                rsv == rmats_view(rmats@),
                mats_list@.len() == kk,
                forall|t: int|
                    0 <= t < kk ==> (#[trigger] mats_list@[t]).0@ == rsv[t].0 && mats_list@[t].1
                        == rsv[t].2,
            decreases nr - kk,
        {
            mats_list.push((rmats[kk].0.clone(), rmats[kk].2));
            proof {
                assert(rsv[kk as int] == (
                    rmats@[kk as int].0@,
                    rmats@[kk as int].1,
                    rmats@[kk as int].2,
                ));
            }
            kk += 1;
        }
        proof {
            assert forall|t: int| 0 <= t < nr implies #[trigger] mats_view(mats_list@)[t]
                == mat_pairs(rsv)[t] by {
                assert(mats_view(mats_list@)[t] == (mats_list@[t].0@, mats_list@[t].1));
                assert(mat_pairs(rsv)[t] == (rsv[t].0, rsv[t].2));
            }
            assert(mats_view(mats_list@) =~= mat_pairs(rsv));
        }
        let ghost pnamev = pname@;
        let bp = T1Blueprint::new(
            bp_name,
            bp_id,
            mats_list,
            material_research,
            time_research,
            (pname, pid),
        );
        let ghost bo = BootOut { items: step2.0, bp: bp@, created: step1.1 + step2.1 };
        proof {
            assert(bp@ == (BpV {
                name: bp_name@,
                bp_id: bp_id,
                manufacturing_mats: mat_pairs(rsv),
                material_research: material_research,
                time_research: time_research,
                produced_item: (pnamev, pid),
            }));
            assert(bootstrap_spec(db0, bp_id, material_research, time_research) == Ok::<
                BootOut,
                ErrV,
            >(bo));
        }
        self.upsert_bp_vec(bp);
        proof {
            lemma_upsert_bp_wf(db0.blueprints, bo.bp);
            lemma_bp_idx(db0.blueprints, bo.bp.name);
            let idx = crate::database::bp_idx(db0.blueprints, bo.bp.name);
            if idx < db0.blueprints.len() {
                assert forall|t: int| 0 <= t < self@.blueprints.len() implies (
                #[trigger] self@.blueprints[t]).material_research <= 10 && self@.blueprints[t]
                    .time_research <= 20 by {
                    if t != idx {
                        assert(self@.blueprints[t] == db0.blueprints[t]);
                    }
                }
            } else {
                assert forall|t: int| 0 <= t < self@.blueprints.len() implies (
                #[trigger] self@.blueprints[t]).material_research <= 10 && self@.blueprints[t]
                    .time_research <= 20 by {
                    if t < db0.blueprints.len() {
                        assert(self@.blueprints[t] == db0.blueprints[t]);
                    }
                }
            }
        }
        Ok(created)
    }
}

} // verus!
