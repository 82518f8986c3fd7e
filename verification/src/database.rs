use vstd::prelude::*;

use crate::error::{DbError, ErrV};
use crate::records::{
    bps_view, copy_blueprint, copy_item, copy_run, defs_table_view, items_view, names_table_view,
    runs_view, BlueprintDef, BpV, DefV, Item, ItemV, RunV, T1Blueprint, T1ProductionRun,
};
use crate::text::{contains_sub, lower_of, lowercase, str_contains, str_eq};

verus! {

/// The in-memory database: the read-only reference catalog (type id to
/// display name, and type id to manufacturing definition) and the three
/// keyed stores. The stores are association lists keyed by name; no two
/// records of one store share a key.
pub struct Database {
    pub type_names: Vec<(i64, String)>,
    pub blueprint_defs: Vec<(i64, BlueprintDef)>,
    pub known_items: Vec<Item>,
    pub known_blueprints: Vec<T1Blueprint>,
    pub productionruns: Vec<T1ProductionRun>,
}

/// Mathematical value of a `Database`.
#[verifier::ext_equal]
pub struct DbView {
    pub type_names: Seq<(i64, Seq<char>)>,
    pub blueprint_defs: Seq<(i64, DefV)>,
    pub items: Seq<ItemV>,
    pub blueprints: Seq<BpV>,
    pub runs: Seq<RunV>,
}

impl View for Database {
    type V = DbView;

    open spec fn view(&self) -> DbView {
        DbView {
            type_names: names_table_view(self.type_names@),
            blueprint_defs: defs_table_view(self.blueprint_defs@),
            items: items_view(self.known_items@),
            blueprints: bps_view(self.known_blueprints@),
            runs: runs_view(self.productionruns@),
        }
    }
}

/// The display name the catalog records for a type id: the first entry with
/// that id, if any.
pub open spec fn lookup_name(tn: Seq<(i64, Seq<char>)>, id: i64) -> Option<Seq<char>>
    decreases tn.len(),
{
    if tn.len() == 0 {
        None
    } else if tn[0].0 == id {
        Some(tn[0].1)
    } else {
        lookup_name(tn.skip(1), id)
    }
}

/// The manufacturing definition the catalog records for a type id.
pub open spec fn lookup_def(ds: Seq<(i64, DefV)>, id: i64) -> Option<DefV>
    decreases ds.len(),
{
    if ds.len() == 0 {
        None
    } else if ds[0].0 == id {
        Some(ds[0].1)
    } else {
        lookup_def(ds.skip(1), id)
    }
}

/// Index of the first item with the given name; the length when there is none.
pub open spec fn item_idx(items: Seq<ItemV>, name: Seq<char>) -> int
    decreases items.len(),
{
    if items.len() == 0 {
        0
    } else if items[0].name == name {
        0
    } else {
        1 + item_idx(items.skip(1), name)
    }
}

pub open spec fn has_item_named(items: Seq<ItemV>, name: Seq<char>) -> bool {
    item_idx(items, name) < items.len()
}

pub open spec fn find_item(items: Seq<ItemV>, name: Seq<char>) -> Option<ItemV> {
    if has_item_named(items, name) {
        Some(items[item_idx(items, name)])
    } else {
        None
    }
}

/// Index of the first blueprint with the given name; the length when none.
pub open spec fn bp_idx(bps: Seq<BpV>, name: Seq<char>) -> int
    decreases bps.len(),
{
    if bps.len() == 0 {
        0
    } else if bps[0].name == name {
        0
    } else {
        1 + bp_idx(bps.skip(1), name)
    }
}

pub open spec fn has_bp_named(bps: Seq<BpV>, name: Seq<char>) -> bool {
    bp_idx(bps, name) < bps.len()
}

pub open spec fn find_bp(bps: Seq<BpV>, name: Seq<char>) -> Option<BpV> {
    if has_bp_named(bps, name) {
        Some(bps[bp_idx(bps, name)])
    } else {
        None
    }
}

/// Index of the first production run keyed by the given blueprint name.
pub open spec fn run_idx(runs: Seq<RunV>, key: Seq<char>) -> int
    decreases runs.len(),
{
    if runs.len() == 0 {
        0
    } else if runs[0].blueprint == key {
        0
    } else {
        1 + run_idx(runs.skip(1), key)
    }
}

pub open spec fn has_run_keyed(runs: Seq<RunV>, key: Seq<char>) -> bool {
    run_idx(runs, key) < runs.len()
}

pub open spec fn find_run(runs: Seq<RunV>, key: Seq<char>) -> Option<RunV> {
    if has_run_keyed(runs, key) {
        Some(runs[run_idx(runs, key)])
    } else {
        None
    }
}

pub proof fn lemma_item_idx(items: Seq<ItemV>, name: Seq<char>)
    ensures
        0 <= item_idx(items, name) <= items.len(),
        item_idx(items, name) < items.len() ==> items[item_idx(items, name)].name == name,
        forall|j: int| 0 <= j < item_idx(items, name) ==> items[j].name != name,
    decreases items.len(),
{
    if items.len() == 0 {
    } else if items[0].name == name {
    } else {
        lemma_item_idx(items.skip(1), name);
        let idx = item_idx(items, name);
        assert forall|j: int| 0 <= j < idx implies items[j].name != name by {
            if j > 0 {
                assert(items.skip(1)[j - 1] == items[j]);
            }
        }
        if idx < items.len() {
            assert(items.skip(1)[idx - 1] == items[idx]);
        }
    }
}

pub proof fn lemma_bp_idx(bps: Seq<BpV>, name: Seq<char>)
    ensures
        0 <= bp_idx(bps, name) <= bps.len(),
        bp_idx(bps, name) < bps.len() ==> bps[bp_idx(bps, name)].name == name,
        forall|j: int| 0 <= j < bp_idx(bps, name) ==> bps[j].name != name,
    decreases bps.len(),
{
    if bps.len() == 0 {
    } else if bps[0].name == name {
    } else {
        lemma_bp_idx(bps.skip(1), name);
        let idx = bp_idx(bps, name);
        assert forall|j: int| 0 <= j < idx implies bps[j].name != name by {
            if j > 0 {
                assert(bps.skip(1)[j - 1] == bps[j]);
            }
        }
        if idx < bps.len() {
            assert(bps.skip(1)[idx - 1] == bps[idx]);
        }
    }
}

pub proof fn lemma_run_idx(runs: Seq<RunV>, key: Seq<char>)
    ensures
        0 <= run_idx(runs, key) <= runs.len(),
        run_idx(runs, key) < runs.len() ==> runs[run_idx(runs, key)].blueprint == key,
        forall|j: int| 0 <= j < run_idx(runs, key) ==> runs[j].blueprint != key,
    decreases runs.len(),
{
    if runs.len() == 0 {
    } else if runs[0].blueprint == key {
    } else {
        lemma_run_idx(runs.skip(1), key);
        let idx = run_idx(runs, key);
        assert forall|j: int| 0 <= j < idx implies runs[j].blueprint != key by {
            if j > 0 {
                assert(runs.skip(1)[j - 1] == runs[j]);
            }
        }
        if idx < runs.len() {
            assert(runs.skip(1)[idx - 1] == runs[idx]);
        }
    }
}

pub open spec fn unique_item_names(items: Seq<ItemV>) -> bool {
    forall|i: int, j: int| 0 <= i < j < items.len() ==> items[i].name != items[j].name
}

pub open spec fn unique_bp_names(bps: Seq<BpV>) -> bool {
    forall|i: int, j: int| 0 <= i < j < bps.len() ==> bps[i].name != bps[j].name
}

pub open spec fn unique_run_keys(runs: Seq<RunV>) -> bool {
    forall|i: int, j: int| 0 <= i < j < runs.len() ==> runs[i].blueprint != runs[j].blueprint
}

impl DbView {
    /// Well-formedness: no two records of one store share a key, and every
    /// stored blueprint keeps its research levels in range.
    pub open spec fn wf(self) -> bool {
        &&& unique_item_names(self.items)
        &&& unique_bp_names(self.blueprints)
        &&& unique_run_keys(self.runs)
        &&& forall|i: int|
            0 <= i < self.blueprints.len() ==> (#[trigger] self.blueprints[i]).material_research
                <= 10 && self.blueprints[i].time_research <= 20
    }
}

impl Database {
    pub open spec fn wf(self) -> bool {
        self@.wf()
    }

    /// The item stored under a name, if any.
    pub fn get_item(&self, name: &str) -> (r: Option<&Item>)
        ensures
            match r {
                Some(it) => find_item(self@.items, name@) == Some(it@),
                None => find_item(self@.items, name@) is None,
            },
    {
        let n: usize = self.known_items.len();
        let mut i: usize = 0;
        while i < n
            invariant
                i <= n,
                n == self.known_items.len(),
                forall|j: int| 0 <= j < i ==> self@.items[j].name != name@,
            decreases n - i,
        {
            if str_eq(self.known_items[i].name.as_str(), name) {
                proof {
                    lemma_item_idx(self@.items, name@);
                    assert(self@.items[i as int].name == name@);
                }
                return Some(&self.known_items[i]);
            }
            i += 1;
        }
        proof {
            lemma_item_idx(self@.items, name@);
        }
        None
    }

    /// The blueprint stored under a name, if any.
    pub fn get_blueprint(&self, name: &str) -> (r: Option<&T1Blueprint>)
        ensures
            match r {
                Some(bp) => find_bp(self@.blueprints, name@) == Some(bp@),
                None => find_bp(self@.blueprints, name@) is None,
            },
    {
        let n: usize = self.known_blueprints.len();
        let mut i: usize = 0;
        while i < n
            invariant
                i <= n,
                n == self.known_blueprints.len(),
                forall|j: int| 0 <= j < i ==> self@.blueprints[j].name != name@,
            decreases n - i,
        {
            if str_eq(self.known_blueprints[i].name.as_str(), name) {
                proof {
                    lemma_bp_idx(self@.blueprints, name@);
                    assert(self@.blueprints[i as int].name == name@);
                }
                return Some(&self.known_blueprints[i]);
            }
            i += 1;
        }
        proof {
            lemma_bp_idx(self@.blueprints, name@);
        }
        None
    }

    /// The production run keyed by a blueprint name, if any.
    pub fn get_productionrun(&self, name: &str) -> (r: Option<&T1ProductionRun>)
        ensures
            match r {
                Some(pr) => find_run(self@.runs, name@) == Some(pr@),
                None => find_run(self@.runs, name@) is None,
            },
    {
        let n: usize = self.productionruns.len();
        let mut i: usize = 0;
        while i < n
            invariant
                i <= n,
                n == self.productionruns.len(),
                forall|j: int| 0 <= j < i ==> self@.runs[j].blueprint != name@,
            decreases n - i,
        {
            if str_eq(self.productionruns[i].blueprint.as_str(), name) {
                proof {
                    lemma_run_idx(self@.runs, name@);
                    assert(self@.runs[i as int].blueprint == name@);
                }
                return Some(&self.productionruns[i]);
            }
            i += 1;
        }
        proof {
            lemma_run_idx(self@.runs, name@);
        }
        None
    }

    pub fn has_item(&self, name: &str) -> (r: bool)
        ensures
            r == has_item_named(self@.items, name@),
    {
        self.get_item(name).is_some()
    }

    pub fn has_blueprint(&self, name: &str) -> (r: bool)
        ensures
            r == has_bp_named(self@.blueprints, name@),
    {
        self.get_blueprint(name).is_some()
    }

    pub fn has_productionrun(&self, name: &str) -> (r: bool)
        ensures
            r == has_run_keyed(self@.runs, name@),
    {
        self.get_productionrun(name).is_some()
    }

    /// The names of all known blueprints, in store order.
    pub fn get_blueprint_vec(&self) -> (r: Vec<String>)
        ensures
            r@.len() == self@.blueprints.len(),
            forall|i: int| 0 <= i < r@.len() ==> r@[i]@ == self@.blueprints[i].name,
    {
        let mut r: Vec<String> = Vec::new();
        let n: usize = self.known_blueprints.len();
        let mut i: usize = 0;
        while i < n
            invariant
                i <= n,
                n == self.known_blueprints.len(),
                r@.len() == i,
                forall|j: int| 0 <= j < i ==> r@[j]@ == self@.blueprints[j].name,
            decreases n - i,
        {
            r.push(self.known_blueprints[i].name.clone());
            i += 1;
        }
        r
    }

    /// The keys of all production runs, in store order.
    pub fn get_productionrun_vec(&self) -> (r: Vec<String>)
        ensures
            r@.len() == self@.runs.len(),
            forall|i: int| 0 <= i < r@.len() ==> r@[i]@ == self@.runs[i].blueprint,
    {
        let mut r: Vec<String> = Vec::new();
        let n: usize = self.productionruns.len();
        let mut i: usize = 0;
        while i < n
            invariant
                i <= n,
                n == self.productionruns.len(),
                r@.len() == i,
                forall|j: int| 0 <= j < i ==> r@[j]@ == self@.runs[j].blueprint,
            decreases n - i,
        {
            r.push(self.productionruns[i].blueprint.clone());
            i += 1;
        }
        r
    }

    /// A copy of every item record, in store order.
    pub fn get_item_iter(&self) -> (r: Vec<Item>)
        ensures
            r@ == self.known_items@,
    {
        let mut r: Vec<Item> = Vec::new();
        let n: usize = self.known_items.len();
        let mut i: usize = 0;
        while i < n
            invariant
                i <= n,
                n == self.known_items.len(),
                r@ == self.known_items@.take(i as int),
            decreases n - i,
        {
            r.push(copy_item(&self.known_items[i]));
            proof {
                assert(r@ =~= self.known_items@.take(i + 1 as int));
            }
            i += 1;
        }
        proof {
            assert(self.known_items@.take(n as int) =~= self.known_items@);
        }
        r
    }

    /// A copy of every blueprint record, in store order.
    pub fn get_blueprint_iter(&self) -> (r: Vec<T1Blueprint>)
        ensures
            bps_view(r@) == self@.blueprints,
    {
        let mut r: Vec<T1Blueprint> = Vec::new();
        let n: usize = self.known_blueprints.len();
        let mut i: usize = 0;
        while i < n
            invariant
                i <= n,
                n == self.known_blueprints.len(),
                r@.len() == i,
                forall|j: int| 0 <= j < i ==> (#[trigger] r@[j])@ == self@.blueprints[j],
            decreases n - i,
        {
            r.push(copy_blueprint(&self.known_blueprints[i]));
            i += 1;
        }
        proof {
            assert forall|j: int| 0 <= j < r@.len() implies #[trigger] bps_view(r@)[j]
                == self@.blueprints[j] by {
                assert(bps_view(r@)[j] == r@[j]@);
            }
            assert(bps_view(r@) =~= self@.blueprints);
        }
        r
    }

    /// A copy of every production-run record, in store order.
    pub fn get_productionrun_iter(&self) -> (r: Vec<T1ProductionRun>)
        ensures
            runs_view(r@) == self@.runs,
    {
        let mut r: Vec<T1ProductionRun> = Vec::new();
        let n: usize = self.productionruns.len();
        let mut i: usize = 0;
        while i < n
            invariant
                i <= n,
                n == self.productionruns.len(),
                r@.len() == i,
                forall|j: int| 0 <= j < i ==> (#[trigger] r@[j])@ == self@.runs[j],
            decreases n - i,
        {
            r.push(copy_run(&self.productionruns[i]));
            i += 1;
        }
        proof {
            assert forall|j: int| 0 <= j < r@.len() implies #[trigger] runs_view(r@)[j]
                == self@.runs[j] by {
                assert(runs_view(r@)[j] == r@[j]@);
            }
            assert(runs_view(r@) =~= self@.runs);
        }
        r
    }
}


/// Inserting a record keyed by name: replaces the first record with the same
/// key, or appends when the key is new.
pub open spec fn upsert_item(items: Seq<ItemV>, it: ItemV) -> Seq<ItemV> {
    if has_item_named(items, it.name) {
        items.update(item_idx(items, it.name), it)
    } else {
        items.push(it)
    }
}

pub open spec fn upsert_bp(bps: Seq<BpV>, bp: BpV) -> Seq<BpV> {
    if has_bp_named(bps, bp.name) {
        bps.update(bp_idx(bps, bp.name), bp)
    } else {
        bps.push(bp)
    }
}

pub open spec fn upsert_run(runs: Seq<RunV>, pr: RunV) -> Seq<RunV> {
    if has_run_keyed(runs, pr.blueprint) {
        runs.update(run_idx(runs, pr.blueprint), pr)
    } else {
        runs.push(pr)
    }
}

pub proof fn lemma_upsert_item_wf(items: Seq<ItemV>, it: ItemV)
    requires
        unique_item_names(items),
    ensures
        unique_item_names(upsert_item(items, it)),
{
    lemma_item_idx(items, it.name);
    let idx = item_idx(items, it.name);
    let t = upsert_item(items, it);
    if idx < items.len() {
        assert forall|i: int, j: int| 0 <= i < j < t.len() implies t[i].name != t[j].name by {
            if i == idx {
                assert(t[j] == items[j]);
            } else if j == idx {
                assert(t[i] == items[i]);
            } else {
                assert(t[i] == items[i] && t[j] == items[j]);
            }
        }
    } else {
        assert forall|i: int, j: int| 0 <= i < j < t.len() implies t[i].name != t[j].name by {
            if j == items.len() {
                assert(t[i] == items[i]);
            } else {
                assert(t[i] == items[i] && t[j] == items[j]);
            }
        }
    }
}

pub proof fn lemma_upsert_bp_wf(bps: Seq<BpV>, bp: BpV)
    requires
        unique_bp_names(bps),
    ensures
        unique_bp_names(upsert_bp(bps, bp)),
{
    lemma_bp_idx(bps, bp.name);
    let idx = bp_idx(bps, bp.name);
    let t = upsert_bp(bps, bp);
    if idx < bps.len() {
        assert forall|i: int, j: int| 0 <= i < j < t.len() implies t[i].name != t[j].name by {
            if i == idx {
                assert(t[j] == bps[j]);
            } else if j == idx {
                assert(t[i] == bps[i]);
            } else {
                assert(t[i] == bps[i] && t[j] == bps[j]);
            }
        }
    } else {
        assert forall|i: int, j: int| 0 <= i < j < t.len() implies t[i].name != t[j].name by {
            if j == bps.len() {
                assert(t[i] == bps[i]);
            } else {
                assert(t[i] == bps[i] && t[j] == bps[j]);
            }
        }
    }
}

pub proof fn lemma_upsert_run_wf(runs: Seq<RunV>, pr: RunV)
    requires
        unique_run_keys(runs),
    ensures
        unique_run_keys(upsert_run(runs, pr)),
{
    lemma_run_idx(runs, pr.blueprint);
    let idx = run_idx(runs, pr.blueprint);
    let t = upsert_run(runs, pr);
    if idx < runs.len() {
        assert forall|i: int, j: int| 0 <= i < j < t.len() implies t[i].blueprint != t[j].blueprint by {
            if i == idx {
                assert(t[j] == runs[j]);
            } else if j == idx {
                assert(t[i] == runs[i]);
            } else {
                assert(t[i] == runs[i] && t[j] == runs[j]);
            }
        }
    } else {
        assert forall|i: int, j: int| 0 <= i < j < t.len() implies t[i].blueprint != t[j].blueprint by {
            if j == runs.len() {
                assert(t[i] == runs[i]);
            } else {
                assert(t[i] == runs[i] && t[j] == runs[j]);
            }
        }
    }
}

/// Replacing then reinserting at one position is a pointwise update.
pub proof fn lemma_remove_insert<A>(s: Seq<A>, i: int, a: A)
    requires
        0 <= i < s.len(),
    ensures
        s.remove(i).insert(i, a) == s.update(i, a),
{
    let t = s.remove(i).insert(i, a);
    assert forall|j: int| 0 <= j < s.len() implies t[j] == s.update(i, a)[j] by {
        if j < i {
            assert(s.remove(i)[j] == s[j]);
        } else if j > i {
            assert(s.remove(i)[j - 1] == s[j]);
        }
    }
    assert(t =~= s.update(i, a));
}

pub proof fn lemma_items_view_update(s: Seq<Item>, i: int, it: Item)
    requires
        0 <= i < s.len(),
    ensures
        items_view(s.update(i, it)) == items_view(s).update(i, it@),
{
    assert forall|j: int| 0 <= j < s.len() implies #[trigger] items_view(s.update(i, it))[j]
        == items_view(s).update(i, it@)[j] by {
        if j != i {
            assert(s.update(i, it)[j] == s[j]);
        }
    }
    assert(items_view(s.update(i, it)) =~= items_view(s).update(i, it@));
}

pub proof fn lemma_items_view_push(s: Seq<Item>, it: Item)
    ensures
        items_view(s.push(it)) == items_view(s).push(it@),
{
    assert forall|j: int| 0 <= j < s.len() + 1 implies #[trigger] items_view(s.push(it))[j]
        == items_view(s).push(it@)[j] by {
        if j < s.len() {
            assert(s.push(it)[j] == s[j]);
        }
    }
    assert(items_view(s.push(it)) =~= items_view(s).push(it@));
}

pub proof fn lemma_bps_view_update(s: Seq<T1Blueprint>, i: int, bp: T1Blueprint)
    requires
        0 <= i < s.len(),
    ensures
        bps_view(s.update(i, bp)) == bps_view(s).update(i, bp@),
{
    assert forall|j: int| 0 <= j < s.len() implies #[trigger] bps_view(s.update(i, bp))[j]
        == bps_view(s).update(i, bp@)[j] by {
        if j != i {
            assert(s.update(i, bp)[j] == s[j]);
        }
    }
    assert(bps_view(s.update(i, bp)) =~= bps_view(s).update(i, bp@));
}

pub proof fn lemma_bps_view_push(s: Seq<T1Blueprint>, bp: T1Blueprint)
    ensures
        bps_view(s.push(bp)) == bps_view(s).push(bp@),
{
    assert forall|j: int| 0 <= j < s.len() + 1 implies #[trigger] bps_view(s.push(bp))[j]
        == bps_view(s).push(bp@)[j] by {
        if j < s.len() {
            assert(s.push(bp)[j] == s[j]);
        }
    }
    assert(bps_view(s.push(bp)) =~= bps_view(s).push(bp@));
}

pub proof fn lemma_runs_view_update(s: Seq<T1ProductionRun>, i: int, pr: T1ProductionRun)
    requires
        0 <= i < s.len(),
    ensures
        runs_view(s.update(i, pr)) == runs_view(s).update(i, pr@),
{
    assert forall|j: int| 0 <= j < s.len() implies #[trigger] runs_view(s.update(i, pr))[j]
        == runs_view(s).update(i, pr@)[j] by {
        if j != i {
            assert(s.update(i, pr)[j] == s[j]);
        }
    }
    assert(runs_view(s.update(i, pr)) =~= runs_view(s).update(i, pr@));
}

pub proof fn lemma_runs_view_push(s: Seq<T1ProductionRun>, pr: T1ProductionRun)
    ensures
        runs_view(s.push(pr)) == runs_view(s).push(pr@),
{
    assert forall|j: int| 0 <= j < s.len() + 1 implies #[trigger] runs_view(s.push(pr))[j]
        == runs_view(s).push(pr@)[j] by {
        if j < s.len() {
            assert(s.push(pr)[j] == s[j]);
        }
    }
    assert(runs_view(s.push(pr)) =~= runs_view(s).push(pr@));
}

/// The store contents after loading a sequence of records in order, each
/// keyed by its name, later records replacing earlier ones with the same key.
pub open spec fn load_items(s: Seq<ItemV>) -> Seq<ItemV>
    decreases s.len(),
{
    if s.len() == 0 {
        Seq::empty()
    } else {
        upsert_item(load_items(s.drop_last()), s.last())
    }
}

pub open spec fn load_bps(s: Seq<BpV>) -> Seq<BpV>
    decreases s.len(),
{
    if s.len() == 0 {
        Seq::empty()
    } else {
        upsert_bp(load_bps(s.drop_last()), s.last())
    }
}

pub open spec fn load_runs(s: Seq<RunV>) -> Seq<RunV>
    decreases s.len(),
{
    if s.len() == 0 {
        Seq::empty()
    } else {
        upsert_run(load_runs(s.drop_last()), s.last())
    }
}

impl Database {
    /// Replaces the first item with the same name, or appends the record.
    pub(crate) fn upsert_item_vec(&mut self, it: Item)
        ensures
            final(self)@.items == upsert_item(old(self)@.items, it@),
            final(self)@.type_names == old(self)@.type_names,
            final(self)@.blueprint_defs == old(self)@.blueprint_defs,
            final(self)@.blueprints == old(self)@.blueprints,
            final(self)@.runs == old(self)@.runs,
    {
        let n: usize = self.known_items.len();
        let mut i: usize = 0;
        while i < n
            invariant
                *self == *old(self),
                i <= n,
                n == self.known_items.len(),
                forall|j: int| 0 <= j < i ==> self@.items[j].name != it@.name,
            decreases n - i,
        {
            if str_eq(self.known_items[i].name.as_str(), it.name.as_str()) {
                proof {
                    lemma_item_idx(self@.items, it@.name);
                    assert(self@.items[i as int].name == it@.name);
                    assert(item_idx(self@.items, it@.name) == i as int);
                }
                self.known_items.remove(i);
                self.known_items.insert(i, it);
                proof {
                    lemma_remove_insert(old(self).known_items@, i as int, it);
                    lemma_items_view_update(old(self).known_items@, i as int, it);
                }
                return ;
            }
            i += 1;
        }
        proof {
            lemma_item_idx(self@.items, it@.name);
        }
        self.known_items.push(it);
        proof {
            lemma_items_view_push(old(self).known_items@, it);
        }
    }

    /// Replaces the first blueprint with the same name, or appends.
    pub(crate) fn upsert_bp_vec(&mut self, bp: T1Blueprint)
        ensures
            final(self)@.blueprints == upsert_bp(old(self)@.blueprints, bp@),
            final(self)@.type_names == old(self)@.type_names,
            final(self)@.blueprint_defs == old(self)@.blueprint_defs,
            final(self)@.items == old(self)@.items,
            final(self)@.runs == old(self)@.runs,
    {
        let n: usize = self.known_blueprints.len();
        let mut i: usize = 0;
        while i < n
            invariant
                *self == *old(self),
                i <= n,
                n == self.known_blueprints.len(),
                forall|j: int| 0 <= j < i ==> self@.blueprints[j].name != bp@.name,
            decreases n - i,
        {
            if str_eq(self.known_blueprints[i].name.as_str(), bp.name.as_str()) {
                proof {
                    lemma_bp_idx(self@.blueprints, bp@.name);
                    assert(self@.blueprints[i as int].name == bp@.name);
                    assert(bp_idx(self@.blueprints, bp@.name) == i as int);
                }
                self.known_blueprints.remove(i);
                self.known_blueprints.insert(i, bp);
                proof {
                    lemma_remove_insert(old(self).known_blueprints@, i as int, bp);
                    lemma_bps_view_update(old(self).known_blueprints@, i as int, bp);
                }
                return ;
            }
            i += 1;
        }
        proof {
            lemma_bp_idx(self@.blueprints, bp@.name);
        }
        self.known_blueprints.push(bp);
        proof {
            lemma_bps_view_push(old(self).known_blueprints@, bp);
        }
    }

    /// Replaces the first run with the same key, or appends.
    pub(crate) fn upsert_run_vec(&mut self, pr: T1ProductionRun)
        ensures
            final(self)@.runs == upsert_run(old(self)@.runs, pr@),
            final(self)@.type_names == old(self)@.type_names,
            final(self)@.blueprint_defs == old(self)@.blueprint_defs,
            final(self)@.items == old(self)@.items,
            final(self)@.blueprints == old(self)@.blueprints,
    {
        let n: usize = self.productionruns.len();
        let mut i: usize = 0;
        while i < n
            invariant
                *self == *old(self),
                i <= n,
                n == self.productionruns.len(),
                forall|j: int| 0 <= j < i ==> self@.runs[j].blueprint != pr@.blueprint,
            decreases n - i,
        {
            if str_eq(self.productionruns[i].blueprint.as_str(), pr.blueprint.as_str()) {
                proof {
                    lemma_run_idx(self@.runs, pr@.blueprint);
                    assert(self@.runs[i as int].blueprint == pr@.blueprint);
                    assert(run_idx(self@.runs, pr@.blueprint) == i as int);
                }
                self.productionruns.remove(i);
                self.productionruns.insert(i, pr);
                proof {
                    lemma_remove_insert(old(self).productionruns@, i as int, pr);
                    lemma_runs_view_update(old(self).productionruns@, i as int, pr);
                }
                return ;
            }
            i += 1;
        }
        proof {
            lemma_run_idx(self@.runs, pr@.blueprint);
        }
        self.productionruns.push(pr);
        proof {
            lemma_runs_view_push(old(self).productionruns@, pr);
        }
    }

    /// Builds the database from the reference catalog tables and the records
    /// loaded from the per-entity stores. Records are keyed by name, a later
    /// record replacing an earlier one with the same key.
    pub fn new(
        type_names: Vec<(i64, String)>,
        blueprint_defs: Vec<(i64, BlueprintDef)>,
        items: Vec<Item>,
        blueprints: Vec<T1Blueprint>,
        productionruns: Vec<T1ProductionRun>,
    ) -> (db: Database)
        requires
            forall|i: int|
                0 <= i < blueprints@.len() ==> (#[trigger] blueprints@[i])@.material_research <= 10
                    && blueprints@[i]@.time_research <= 20,
        ensures
            db.wf(),
            db@.type_names == names_table_view(type_names@),
            db@.blueprint_defs == defs_table_view(blueprint_defs@),
            db@.items == load_items(items_view(items@)),
            db@.blueprints == load_bps(bps_view(blueprints@)),
            db@.runs == load_runs(runs_view(productionruns@)),
    {
        let mut db = Database {
            type_names,
            blueprint_defs,
            known_items: Vec::new(),
            known_blueprints: Vec::new(),
            productionruns: Vec::new(),
        };
        let n_it: usize = items.len();
        let mut i: usize = 0;
        while i < n_it
            invariant
                i <= n_it,
                n_it == items.len(),
                db@.type_names == names_table_view(type_names@),
                db@.blueprint_defs == defs_table_view(blueprint_defs@),
                db@.items == load_items(items_view(items@).take(i as int)),
                db@.blueprints =~= Seq::<BpV>::empty(),
                db@.runs =~= Seq::<RunV>::empty(),
                unique_item_names(db@.items),
            decreases n_it - i,
        {
            let ghost pre = db@.items;
            db.upsert_item_vec(copy_item(&items[i]));
            proof {
                lemma_upsert_item_wf(pre, items@[i as int]@);
                assert(items_view(items@).take(i + 1 as int).drop_last() =~= items_view(items@)
                    .take(i as int));
                assert(items_view(items@).take(i + 1 as int).last() == items@[i as int]@);
            }
            i += 1;
        }
        proof {
            assert(items_view(items@).take(n_it as int) =~= items_view(items@));
        }
        let n_bp: usize = blueprints.len();
        let mut i: usize = 0;
        while i < n_bp
            invariant
                i <= n_bp,
                n_bp == blueprints.len(),
                db@.type_names == names_table_view(type_names@),
                db@.blueprint_defs == defs_table_view(blueprint_defs@),
                db@.items == load_items(items_view(items@)),
                db@.blueprints == load_bps(bps_view(blueprints@).take(i as int)),
                db@.runs =~= Seq::<RunV>::empty(),
                unique_item_names(db@.items),
                unique_bp_names(db@.blueprints),
                forall|k: int|
                    0 <= k < blueprints@.len() ==> (#[trigger] blueprints@[k])@.material_research
                        <= 10 && blueprints@[k]@.time_research <= 20,
                forall|k: int|
                    0 <= k < db@.blueprints.len() ==> (#[trigger] db@.blueprints[k])
                        .material_research <= 10 && db@.blueprints[k].time_research <= 20,
            decreases n_bp - i,
        {
            let ghost pre = db@.blueprints;
            db.upsert_bp_vec(copy_blueprint(&blueprints[i]));
            proof {
                lemma_upsert_bp_wf(pre, blueprints@[i as int]@);
                lemma_bp_idx(pre, blueprints@[i as int]@.name);
                assert(bps_view(blueprints@).take(i + 1 as int).drop_last() =~= bps_view(
                    blueprints@,
                ).take(i as int));
                assert(bps_view(blueprints@).take(i + 1 as int).last() == blueprints@[i as int]@);
                let idx = bp_idx(pre, blueprints@[i as int]@.name);
                assert forall|k: int| 0 <= k < db@.blueprints.len() implies (
                #[trigger] db@.blueprints[k]).material_research <= 10 && db@.blueprints[k]
                    .time_research <= 20 by {
                    if idx < pre.len() {
                        if k != idx {
                            assert(db@.blueprints[k] == pre[k]);
                        }
                    } else {
                        if k < pre.len() {
                            assert(db@.blueprints[k] == pre[k]);
                        }
                    }
                }
            }
            i += 1;
        }
        proof {
            assert(bps_view(blueprints@).take(n_bp as int) =~= bps_view(blueprints@));
        }
        let n_pr: usize = productionruns.len();
        let mut i: usize = 0;
        while i < n_pr
            invariant
                i <= n_pr,
                n_pr == productionruns.len(),
                db@.type_names == names_table_view(type_names@),
                db@.blueprint_defs == defs_table_view(blueprint_defs@),
                db@.items == load_items(items_view(items@)),
                db@.blueprints == load_bps(bps_view(blueprints@)),
                db@.runs == load_runs(runs_view(productionruns@).take(i as int)),
                db.wf(),
            decreases n_pr - i,
        {
            let ghost pre = db@.runs;
            db.upsert_run_vec(copy_run(&productionruns[i]));
            proof {
                lemma_upsert_run_wf(pre, productionruns@[i as int]@);
                assert(runs_view(productionruns@).take(i + 1 as int).drop_last() =~= runs_view(
                    productionruns@,
                ).take(i as int));
                assert(runs_view(productionruns@).take(i + 1 as int).last()
                    == productionruns@[i as int]@);
            }
            i += 1;
        }
        proof {
            assert(runs_view(productionruns@).take(n_pr as int) =~= runs_view(productionruns@));
        }
        db
    }

    /// Sets the buy price of an existing item; the item must already be in
    /// the store, else the error names it and nothing changes.
    pub fn set_item_buy_price(&mut self, item_name: &str, new_price: u64) -> (r: Result<
        (),
        DbError,
    >)
        requires
            old(self).wf(),
        ensures
            final(self).wf(),
            final(self)@.type_names == old(self)@.type_names,
            final(self)@.blueprint_defs == old(self)@.blueprint_defs,
            final(self)@.blueprints == old(self)@.blueprints,
            final(self)@.runs == old(self)@.runs,
            match r {
                Ok(()) => has_item_named(old(self)@.items, item_name@) && final(self)@.items
                    == old(self)@.items.update(
                    item_idx(old(self)@.items, item_name@),
                    (ItemV { buy_price: new_price, ..old(self)@.items[item_idx(
                        old(self)@.items,
                        item_name@,
                    )] }),
                ),
                Err(e) => !has_item_named(old(self)@.items, item_name@) && e@ == (
                ErrV::UnknownItem { name: item_name@ }) && final(self)@.items == old(
                    self,
                )@.items,
            },
    {
        let n: usize = self.known_items.len();
        let mut i: usize = 0;
        while i < n
            invariant
                *self == *old(self),
                old(self).wf(),
                i <= n,
                n == self.known_items.len(),
                forall|j: int| 0 <= j < i ==> self@.items[j].name != item_name@,
            decreases n - i,
        {
            if str_eq(self.known_items[i].name.as_str(), item_name) {
                proof {
                    lemma_item_idx(self@.items, item_name@);
                    assert(self@.items[i as int].name == item_name@);
                    assert(item_idx(self@.items, item_name@) == i as int);
                }
                let mut it = self.known_items.remove(i);
                it.buy_price = new_price;
                self.known_items.insert(i, it);
                proof {
                    lemma_remove_insert(old(self).known_items@, i as int, it);
                    lemma_items_view_update(old(self).known_items@, i as int, it);
                    lemma_upsert_item_wf(old(self)@.items, it@);
                }
                return Ok(());
            }
            i += 1;
        }
        proof {
            lemma_item_idx(self@.items, item_name@);
        }
        Err(DbError::UnknownItem(item_name.to_owned()))
    }

    /// Sets the sell price of an existing item; same contract shape as the
    /// buy-price update.
    pub fn set_item_sell_price(&mut self, item_name: &str, new_price: u64) -> (r: Result<
        (),
        DbError,
    >)
        requires
            old(self).wf(),
        ensures
            final(self).wf(),
            final(self)@.type_names == old(self)@.type_names,
            final(self)@.blueprint_defs == old(self)@.blueprint_defs,
            final(self)@.blueprints == old(self)@.blueprints,
            final(self)@.runs == old(self)@.runs,
            match r {
                Ok(()) => has_item_named(old(self)@.items, item_name@) && final(self)@.items
                    == old(self)@.items.update(
                    item_idx(old(self)@.items, item_name@),
                    (ItemV { sell_price: new_price, ..old(self)@.items[item_idx(
                        old(self)@.items,
                        item_name@,
                    )] }),
                ),
                Err(e) => !has_item_named(old(self)@.items, item_name@) && e@ == (
                ErrV::UnknownItem { name: item_name@ }) && final(self)@.items == old(
                    self,
                )@.items,
            },
    {
        let n: usize = self.known_items.len();
        let mut i: usize = 0;
        while i < n
            invariant
                *self == *old(self),
                old(self).wf(),
                i <= n,
                n == self.known_items.len(),
                forall|j: int| 0 <= j < i ==> self@.items[j].name != item_name@,
            decreases n - i,
        {
            if str_eq(self.known_items[i].name.as_str(), item_name) {
                proof {
                    lemma_item_idx(self@.items, item_name@);
                    assert(self@.items[i as int].name == item_name@);
                    assert(item_idx(self@.items, item_name@) == i as int);
                }
                let mut it = self.known_items.remove(i);
                it.sell_price = new_price;
                self.known_items.insert(i, it);
                proof {
                    lemma_remove_insert(old(self).known_items@, i as int, it);
                    lemma_items_view_update(old(self).known_items@, i as int, it);
                    lemma_upsert_item_wf(old(self)@.items, it@);
                }
                return Ok(());
            }
            i += 1;
        }
        proof {
            lemma_item_idx(self@.items, item_name@);
        }
        Err(DbError::UnknownItem(item_name.to_owned()))
    }
}


/// View of a (name, type id) search-result list.
pub open spec fn pairs_view(s: Seq<(String, i64)>) -> Seq<(Seq<char>, i64)> {
    s.map_values(|p: (String, i64)| (p.0@, p.1))
}

/// The catalog entries whose display name contains the query as a
/// case-insensitive substring, in catalog order, each as (name, type id).
pub open spec fn search_matches(tn: Seq<(i64, Seq<char>)>, q: Seq<char>) -> Seq<(Seq<char>, i64)>
    decreases tn.len(),
{
    if tn.len() == 0 {
        Seq::empty()
    } else {
        let rest = search_matches(tn.drop_last(), q);
        if contains_sub(lower_of(tn.last().1), lower_of(q)) {
            rest.push((tn.last().1, tn.last().0))
        } else {
            rest
        }
    }
}

proof fn lemma_pairs_view_push(s: Seq<(String, i64)>, p: (String, i64))
    ensures
        pairs_view(s.push(p)) == pairs_view(s).push((p.0@, p.1)),
{
    assert forall|j: int| 0 <= j < s.len() + 1 implies #[trigger] pairs_view(s.push(p))[j]
        == pairs_view(s).push((p.0@, p.1))[j] by {
        if j < s.len() {
            assert(s.push(p)[j] == s[j]);
        }
    }
    assert(pairs_view(s.push(p)) =~= pairs_view(s).push((p.0@, p.1)));
}

impl Database {
    /// Scans the whole catalog name table for entries whose display name
    /// contains the query as a case-insensitive substring; every match is
    /// returned, in table order, and an unmatched query yields no results.
    #[verifier::loop_isolation(false)]
    pub fn search_ids(&self, query: &str) -> (r: Vec<(String, i64)>)
        ensures
            pairs_view(r@) == search_matches(self@.type_names, query@),
    {
        let lq = lowercase(query);
        let mut r: Vec<(String, i64)> = Vec::new();
        let n: usize = self.type_names.len();
        let mut i: usize = 0;
        proof {
            assert(self@.type_names.take(0) =~= Seq::<(i64, Seq<char>)>::empty());
            assert(pairs_view(r@) =~= Seq::<(Seq<char>, i64)>::empty());
        }
        while i < n
            invariant
                i <= n,
                n == self.type_names.len(),
                lq@ == lower_of(query@),
                pairs_view(r@) == search_matches(self@.type_names.take(i as int), query@),
            decreases n - i,
        {
            proof {
                assert(self@.type_names.take(i + 1 as int).drop_last() =~= self@.type_names.take(
                    i as int,
                ));
                assert(self@.type_names.take(i + 1 as int).last() == self@.type_names[i as int]);
                assert(self@.type_names[i as int] == (
                    self.type_names@[i as int].0,
                    self.type_names@[i as int].1@,
                ));
            }
            let ln = lowercase(self.type_names[i].1.as_str());
            if str_contains(ln.as_str(), lq.as_str()) {
                let ghost pre = r@;
                r.push((self.type_names[i].1.clone(), self.type_names[i].0));
                proof {
                    lemma_pairs_view_push(pre, r@[pre.len() as int]);
                }
            }
            i += 1;
        }
        proof {
            assert(self@.type_names.take(n as int) =~= self@.type_names);
        }
        r
    }
}


impl Database {
    /// Configures a production run for an existing blueprint, snapshotting
    /// its materials and product, keyed by the blueprint's name; an existing
    /// run under that key is replaced. The blueprint must exist, else the
    /// error names it and nothing changes.
    pub fn add_productionrun(&mut self, pr_name: &str, jobruns: u64, installation_cost: u64) -> (r:
        Result<(), DbError>)
        requires
            old(self).wf(),
            jobruns >= 1,
        ensures
            final(self).wf(),
            final(self)@.type_names == old(self)@.type_names,
            final(self)@.blueprint_defs == old(self)@.blueprint_defs,
            final(self)@.items == old(self)@.items,
            final(self)@.blueprints == old(self)@.blueprints,
            match r {
                Ok(()) => match find_bp(old(self)@.blueprints, pr_name@) {
                    Some(bp) => final(self)@.runs == upsert_run(
                        old(self)@.runs,
                        (RunV {
                            blueprint: pr_name@,
                            materials: bp.manufacturing_mats,
                            produces: bp.produced_item.0,
                            jobruns: jobruns,
                            installation_cost: installation_cost,
                        }),
                    ),
                    None => false,
                },
                Err(e) => find_bp(old(self)@.blueprints, pr_name@) is None && e@ == (
                ErrV::UnknownBlueprint { name: pr_name@ }) && final(self)@.runs == old(
                    self,
                )@.runs,
            },
    {
        let pr = match T1ProductionRun::new(pr_name, jobruns, installation_cost, self) {
            Err(e) => {
                return Err(e);
            },
            Ok(pr) => pr,
        };
        proof {
            lemma_upsert_run_wf(self@.runs, pr@);
        }
        self.upsert_run_vec(pr);
        Ok(())
    }
}

} // verus!
