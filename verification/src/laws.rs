use vstd::prelude::*;

use crate::bootstrap::{bootstrap_spec, create_missing, mat_names, BootOut};
use crate::database::{
    bp_idx, has_item_named, item_idx, lemma_bp_idx, lemma_item_idx, lemma_run_idx, load_bps,
    load_items, load_runs, lookup_def, lookup_name, run_idx, unique_bp_names, unique_item_names,
    unique_run_keys, upsert_bp, upsert_item, upsert_run, DbView,
};
use crate::error::ErrV;
use crate::records::{BpV, ItemV, RunV};

verus! {

proof fn lemma_load_items_identity(s: Seq<ItemV>)
    requires
        unique_item_names(s),
    ensures
        load_items(s) == s,
    decreases s.len(),
{
    if s.len() > 0 {
        let p = s.drop_last();
        assert forall|i: int, j: int| 0 <= i < j < p.len() implies p[i].name != p[j].name by {
            assert(p[i] == s[i] && p[j] == s[j]);
        }
        lemma_load_items_identity(p);
        lemma_item_idx(p, s.last().name);
        if has_item_named(p, s.last().name) {
            let idx = item_idx(p, s.last().name);
            assert(p[idx] == s[idx]);
            assert(s[idx].name == s[s.len() - 1].name);
            assert(false);
        }
        assert(upsert_item(p, s.last()) == p.push(s.last()));
        assert(p.push(s.last()) =~= s);
    }
}

proof fn lemma_load_bps_identity(s: Seq<BpV>)
    requires
        unique_bp_names(s),
    ensures
        load_bps(s) == s,
    decreases s.len(),
{
    if s.len() > 0 {
        let p = s.drop_last();
        assert forall|i: int, j: int| 0 <= i < j < p.len() implies p[i].name != p[j].name by {
            assert(p[i] == s[i] && p[j] == s[j]);
        }
        lemma_load_bps_identity(p);
        lemma_bp_idx(p, s.last().name);
        if bp_idx(p, s.last().name) < p.len() {
            let idx = bp_idx(p, s.last().name);
            assert(p[idx] == s[idx]);
            assert(s[idx].name == s[s.len() - 1].name);
            assert(false);
        }
        assert(upsert_bp(p, s.last()) == p.push(s.last()));
        assert(p.push(s.last()) =~= s);
    }
}

proof fn lemma_load_runs_identity(s: Seq<RunV>)
    requires
        unique_run_keys(s),
    ensures
        load_runs(s) == s,
    decreases s.len(),
{
    if s.len() > 0 {
        let p = s.drop_last();
        assert forall|i: int, j: int| 0 <= i < j < p.len() implies p[i].blueprint
            != p[j].blueprint by {
            assert(p[i] == s[i] && p[j] == s[j]);
        }
        lemma_load_runs_identity(p);
        lemma_run_idx(p, s.last().blueprint);
        if run_idx(p, s.last().blueprint) < p.len() {
            let idx = run_idx(p, s.last().blueprint);
            assert(p[idx] == s[idx]);
            assert(s[idx].blueprint == s[s.len() - 1].blueprint);
            assert(false);
        }
        assert(upsert_run(p, s.last()) == p.push(s.last()));
        assert(p.push(s.last()) =~= s);
    }
}

/// Round trip through the per-entity stores: writing out every record of a
/// well-formed database and loading the records back in store order, each
/// keyed by its name, rebuilds exactly the same three stores.
pub proof fn lemma_store_reload_identity(db: DbView)
    requires
        db.wf(),
    ensures
        load_items(db.items) == db.items,
        load_bps(db.blueprints) == db.blueprints,
        load_runs(db.runs) == db.runs,
{
    lemma_load_items_identity(db.items);
    lemma_load_bps_identity(db.blueprints);
    lemma_load_runs_identity(db.runs);
}

proof fn lemma_has_item_iff(items: Seq<ItemV>, n: Seq<char>)
    ensures
        has_item_named(items, n) <==> exists|i: int| 0 <= i < items.len() && items[i].name == n,
{
    lemma_item_idx(items, n);
    if has_item_named(items, n) {
        assert(items[item_idx(items, n)].name == n);
    }
}

/// A store that extends another pointwise keeps every name the shorter one
/// has.
proof fn lemma_has_item_extended(a: Seq<ItemV>, b: Seq<ItemV>, n: Seq<char>)
    requires
        a.len() <= b.len(),
        forall|i: int| 0 <= i < a.len() ==> b[i] == a[i],
        has_item_named(a, n),
    ensures
        has_item_named(b, n),
{
    lemma_has_item_iff(a, n);
    lemma_has_item_iff(b, n);
    let i = choose|i: int| 0 <= i < a.len() && a[i].name == n;
    assert(b[i].name == n);
}

/// What `create_missing` guarantees: the starting records keep their places,
/// and afterwards every listed name has an item record.
proof fn lemma_create_missing_props(items: Seq<ItemV>, ms: Seq<(Seq<char>, i64)>, produced: bool)
    ensures
        ({
            let res = create_missing(items, ms, produced);
            &&& items.len() <= res.0.len()
            &&& forall|i: int| 0 <= i < items.len() ==> res.0[i] == items[i]
            &&& forall|k: int| 0 <= k < ms.len() ==> has_item_named(res.0, (#[trigger] ms[k]).0)
        }),
    decreases ms.len(),
{
    if ms.len() > 0 {
        let res = create_missing(items, ms, produced);
        if has_item_named(items, ms[0].0) {
            lemma_create_missing_props(items, ms.skip(1), produced);
            let res1 = create_missing(items, ms.skip(1), produced);
            lemma_has_item_extended(items, res1.0, ms[0].0);
            assert forall|k: int| 0 <= k < ms.len() implies has_item_named(
                res.0,
                (#[trigger] ms[k]).0,
            ) by {
                if k > 0 {
                    assert(ms.skip(1)[k - 1] == ms[k]);
                }
            }
        } else {
            let it = ItemV {
                name: ms[0].0,
                id: ms[0].1,
                buy_price: 0,
                sell_price: 0,
                produced: produced,
            };
            let grown = items.push(it);
            lemma_create_missing_props(grown, ms.skip(1), produced);
            let res1 = create_missing(grown, ms.skip(1), produced);
            lemma_has_item_iff(grown, ms[0].0);
            assert(grown[items.len() as int].name == ms[0].0);
            lemma_has_item_extended(grown, res1.0, ms[0].0);
            assert forall|k: int| 0 <= k < ms.len() implies has_item_named(
                res.0,
                (#[trigger] ms[k]).0,
            ) by {
                if k > 0 {
                    assert(ms.skip(1)[k - 1] == ms[k]);
                }
            }
            assert forall|i: int| 0 <= i < items.len() implies res.0[i] == items[i] by {
                assert(grown[i] == items[i]);
            }
        }
    }
}

/// When every listed name already has an item record, `create_missing`
/// changes nothing and creates nothing.
proof fn lemma_create_missing_noop(items: Seq<ItemV>, ms: Seq<(Seq<char>, i64)>, produced: bool)
    requires
        forall|k: int| 0 <= k < ms.len() ==> has_item_named(items, (#[trigger] ms[k]).0),
    ensures
        create_missing(items, ms, produced) == (items, Seq::<Seq<char>>::empty()),
    decreases ms.len(),
{
    if ms.len() > 0 {
        assert forall|k: int| 0 <= k < ms.skip(1).len() implies has_item_named(
            items,
            (#[trigger] ms.skip(1)[k]).0,
        ) by {
            assert(ms.skip(1)[k] == ms[k + 1]);
        }
        lemma_create_missing_noop(items, ms.skip(1), produced);
    }
}

/// Bootstrapping the same blueprint type id a second time, with the same
/// research levels, changes nothing: every item the call would create
/// already exists with its content unchanged, the assembled blueprint is
/// identical, no names are created, and reinserting the blueprint leaves
/// the blueprint store exactly as it stood after the first call.
pub proof fn lemma_add_blueprint_idempotent(db: DbView, id: i64, mr: u8, tr: u8)
    requires
        bootstrap_spec(db, id, mr, tr) is Ok,
    ensures
        ({
            let bo = bootstrap_spec(db, id, mr, tr)->Ok_0;
            let db1 = DbView {
                items: bo.items,
                blueprints: upsert_bp(db.blueprints, bo.bp),
                ..db
            };
            &&& bootstrap_spec(db1, id, mr, tr) == Ok::<BootOut, ErrV>(
                BootOut { items: bo.items, bp: bo.bp, created: Seq::empty() },
            )
            &&& upsert_bp(db1.blueprints, bo.bp) == db1.blueprints
        }),
{
    let bo = bootstrap_spec(db, id, mr, tr)->Ok_0;
    let db1 = DbView { items: bo.items, blueprints: upsert_bp(db.blueprints, bo.bp), ..db };
    let def = lookup_def(db.blueprint_defs, id).unwrap();
    let rs = match resolve_mats_of(db, id) {
        Ok(r) => r,
        Err(_) => Seq::empty(),
    };
    assert(resolve_mats_of(db, id) == Ok::<Seq<(Seq<char>, i64, u64)>, ErrV>(rs));
    let pname = lookup_name(db.type_names, def.products[0]).unwrap();
    let step1 = create_missing(db.items, mat_names(rs), false);
    let step2 = create_missing(step1.0, seq![(pname, def.products[0])], true);
    assert(bo.items == step2.0);
    lemma_create_missing_props(db.items, mat_names(rs), false);
    lemma_create_missing_props(step1.0, seq![(pname, def.products[0])], true);
    assert forall|k: int| 0 <= k < mat_names(rs).len() implies has_item_named(
        bo.items,
        (#[trigger] mat_names(rs)[k]).0,
    ) by {
        lemma_has_item_extended(step1.0, step2.0, mat_names(rs)[k].0);
    }
    assert(has_item_named(bo.items, pname));
    lemma_create_missing_noop(bo.items, mat_names(rs), false);
    lemma_create_missing_noop(bo.items, seq![(pname, def.products[0])], true);
    assert(Seq::<Seq<char>>::empty() + Seq::<Seq<char>>::empty() =~= Seq::<Seq<char>>::empty());
    assert(bootstrap_spec(db1, id, mr, tr) == Ok::<BootOut, ErrV>(
        BootOut { items: bo.items, bp: bo.bp, created: Seq::empty() },
    ));
    // reinserting the identical blueprint is a no-op
    lemma_bp_idx(db.blueprints, bo.bp.name);
    let b1 = db1.blueprints;
    lemma_bp_idx(b1, bo.bp.name);
    let idx0 = bp_idx(db.blueprints, bo.bp.name);
    let idx1 = bp_idx(b1, bo.bp.name);
    if idx0 < db.blueprints.len() {
        assert(b1 == db.blueprints.update(idx0, bo.bp));
        assert(b1[idx0].name == bo.bp.name);
        if idx1 < idx0 {
            assert(b1[idx1] == db.blueprints[idx1]);
            assert(false);
        }
        if idx1 > idx0 {
            assert(b1[idx0].name != bo.bp.name);
            assert(false);
        }
        assert(b1[idx1] == bo.bp);
        assert(upsert_bp(b1, bo.bp) == b1.update(idx1, bo.bp));
        assert(b1.update(idx1, bo.bp) =~= b1);
    } else {
        assert(b1 == db.blueprints.push(bo.bp));
        assert(b1[db.blueprints.len() as int].name == bo.bp.name);
        if idx1 < db.blueprints.len() {
            assert(b1[idx1] == db.blueprints[idx1]);
            assert(false);
        }
        assert(idx1 == db.blueprints.len());
        assert(b1[idx1] == bo.bp);
        assert(upsert_bp(b1, bo.bp) == b1.update(idx1, bo.bp));
        assert(b1.update(idx1, bo.bp) =~= b1);
    }
}


/// Even with other operations in between (price updates, new production
/// runs), bootstrapping the same type id again creates no items and
/// assembles the identical blueprint, as long as the catalog is unchanged
/// and every item the first call left behind is still keyed in the store.
pub proof fn lemma_bootstrap_again_creates_nothing(
    db: DbView,
    db2: DbView,
    id: i64,
    mr: u8,
    tr: u8,
)
    requires
        bootstrap_spec(db, id, mr, tr) is Ok,
        db2.type_names == db.type_names,
        db2.blueprint_defs == db.blueprint_defs,
        forall|n: Seq<char>|
            #[trigger] has_item_named(bootstrap_spec(db, id, mr, tr)->Ok_0.items, n)
                ==> has_item_named(db2.items, n),
    ensures
        bootstrap_spec(db2, id, mr, tr) == Ok::<BootOut, ErrV>(
            BootOut {
                items: db2.items,
                bp: bootstrap_spec(db, id, mr, tr)->Ok_0.bp,
                created: Seq::empty(),
            },
        ),
{
    let bo = bootstrap_spec(db, id, mr, tr)->Ok_0;
    let def = lookup_def(db.blueprint_defs, id).unwrap();
    let rs = match resolve_mats_of(db, id) {
        Ok(r) => r,
        Err(_) => Seq::empty(),
    };
    assert(resolve_mats_of(db, id) == Ok::<Seq<(Seq<char>, i64, u64)>, ErrV>(rs));
    let pname = lookup_name(db.type_names, def.products[0]).unwrap();
    let step1 = create_missing(db.items, mat_names(rs), false);
    let step2 = create_missing(step1.0, seq![(pname, def.products[0])], true);
    assert(bo.items == step2.0);
    lemma_create_missing_props(db.items, mat_names(rs), false);
    lemma_create_missing_props(step1.0, seq![(pname, def.products[0])], true);
    assert forall|k: int| 0 <= k < mat_names(rs).len() implies has_item_named(
        db2.items,
        (#[trigger] mat_names(rs)[k]).0,
    ) by {
        lemma_has_item_extended(step1.0, step2.0, mat_names(rs)[k].0);
        assert(has_item_named(bo.items, mat_names(rs)[k].0));
    }
    assert(has_item_named(bo.items, pname));
    assert(has_item_named(db2.items, pname));
    lemma_create_missing_noop(db2.items, mat_names(rs), false);
    lemma_create_missing_noop(db2.items, seq![(pname, def.products[0])], true);
    assert(Seq::<Seq<char>>::empty() + Seq::<Seq<char>>::empty() =~= Seq::<Seq<char>>::empty());
}

/// The material resolution a bootstrapping call performs, read off the
/// catalog alone.
pub open spec fn resolve_mats_of(db: DbView, id: i64) -> Result<Seq<(Seq<char>, i64, u64)>, ErrV> {
    crate::bootstrap::resolve_mats(
        db.type_names,
        lookup_def(db.blueprint_defs, id).unwrap().materials,
    )
}

} // verus!
