use vstd::prelude::*;

verus! {

/// View of a materials list: each entry is an item name and a base quantity.
pub open spec fn mats_view(s: Seq<(String, u64)>) -> Seq<(Seq<char>, u64)> {
    s.map_values(|m: (String, u64)| (m.0@, m.1))
}

/// View of a sequence of item records.
pub open spec fn items_view(s: Seq<Item>) -> Seq<ItemV> {
    s.map_values(|it: Item| it@)
}

/// View of a sequence of blueprint records.
pub open spec fn bps_view(s: Seq<T1Blueprint>) -> Seq<BpV> {
    s.map_values(|b: T1Blueprint| b@)
}

/// View of a sequence of production-run records.
pub open spec fn runs_view(s: Seq<T1ProductionRun>) -> Seq<RunV> {
    s.map_values(|p: T1ProductionRun| p@)
}

/// View of the catalog's name table.
pub open spec fn names_table_view(s: Seq<(i64, String)>) -> Seq<(i64, Seq<char>)> {
    s.map_values(|p: (i64, String)| (p.0, p.1@))
}

/// View of the catalog's blueprint-definition table.
pub open spec fn defs_table_view(s: Seq<(i64, BlueprintDef)>) -> Seq<(i64, DefV)> {
    s.map_values(|p: (i64, BlueprintDef)| (p.0, p.1@))
}

/// A tradeable good. `produced` is true when the item is the output of some
/// known blueprint; prices are in whole currency units.
#[derive(Debug, Clone, PartialEq, Eq)]
pub struct Item {
    pub name: String,
    pub id: i64,
    pub buy_price: u64,
    pub sell_price: u64,
    pub produced: bool,
}

/// Mathematical value of an `Item`.
#[verifier::ext_equal]
pub struct ItemV {
    pub name: Seq<char>,
    pub id: i64,
    pub buy_price: u64,
    pub sell_price: u64,
    pub produced: bool,
}

impl View for Item {
    type V = ItemV;

    open spec fn view(&self) -> ItemV {
        ItemV {
            name: self.name@,
            id: self.id,
            buy_price: self.buy_price,
            sell_price: self.sell_price,
            produced: self.produced,
        }
    }
}

/// A manufacturing recipe: the materials it consumes and the single item it
/// produces. Material research may be 0 to 10, time research 0 to 20; time
/// research is stored but enters no derivation.
#[derive(Debug, PartialEq, Eq)]
pub struct T1Blueprint {
    pub name: String,
    pub bp_id: i64,
    pub manufacturing_mats: Vec<(String, u64)>,
    pub material_research: u8,
    pub time_research: u8,
    pub produced_item: (String, i64),
}

/// Mathematical value of a `T1Blueprint`.
#[verifier::ext_equal]
pub struct BpV {
    pub name: Seq<char>,
    pub bp_id: i64,
    pub manufacturing_mats: Seq<(Seq<char>, u64)>,
    pub material_research: u8,
    pub time_research: u8,
    pub produced_item: (Seq<char>, i64),
}

impl View for T1Blueprint {
    type V = BpV;

    open spec fn view(&self) -> BpV {
        BpV {
            name: self.name@,
            bp_id: self.bp_id,
            manufacturing_mats: mats_view(self.manufacturing_mats@),
            material_research: self.material_research,
            time_research: self.time_research,
            produced_item: (self.produced_item.0@, self.produced_item.1),
        }
    }
}

impl T1Blueprint {
    /// Assembles a blueprint record from already-resolved parts.
    pub fn new(
        name: String,
        bp_id: i64,
        manufacturing_mats: Vec<(String, u64)>,
        material_research: u8,
        time_research: u8,
        produced_item: (String, i64),
    ) -> (bp: T1Blueprint)
        requires
            material_research <= 10,
            time_research <= 20,
        ensures
            bp@ == (BpV {
                name: name@,
                bp_id: bp_id,
                manufacturing_mats: mats_view(manufacturing_mats@),
                material_research: material_research,
                time_research: time_research,
                produced_item: (produced_item.0@, produced_item.1),
            }),
    {
        T1Blueprint { name, bp_id, manufacturing_mats, material_research, time_research, produced_item }
    }
}

/// A configured manufacturing job: a snapshot of one blueprint's materials
/// and product, a run count, and the flat installation cost.
#[derive(Debug, Clone, PartialEq, Eq)]
pub struct T1ProductionRun {
    pub blueprint: String,
    pub materials: Vec<(String, u64)>,
    pub produces: String,
    pub jobruns: u64,
    pub installation_cost: u64,
}

/// Mathematical value of a `T1ProductionRun`.
#[verifier::ext_equal]
pub struct RunV {
    pub blueprint: Seq<char>,
    pub materials: Seq<(Seq<char>, u64)>,
    pub produces: Seq<char>,
    pub jobruns: u64,
    pub installation_cost: u64,
}

impl View for T1ProductionRun {
    type V = RunV;

    open spec fn view(&self) -> RunV {
        RunV {
            blueprint: self.blueprint@,
            materials: mats_view(self.materials@),
            produces: self.produces@,
            jobruns: self.jobruns,
            installation_cost: self.installation_cost,
        }
    }
}

/// One reference-catalog manufacturing definition: the materials consumed
/// (type id and base quantity each) and the products, by type id. Only the
/// first product is ever consumed by bootstrapping.
#[derive(Debug, Clone, PartialEq, Eq)]
pub struct BlueprintDef {
    pub materials: Vec<(i64, u64)>,
    pub products: Vec<i64>,
}

/// Mathematical value of a `BlueprintDef`.
#[verifier::ext_equal]
pub struct DefV {
    pub materials: Seq<(i64, u64)>,
    pub products: Seq<i64>,
}

impl View for BlueprintDef {
    type V = DefV;

    open spec fn view(&self) -> DefV {
        DefV { materials: self.materials@, products: self.products@ }
    }
}

/// Copies a materials list. `String::clone` keeps the value, so the copy
/// equals the original.
pub fn copy_mats(v: &Vec<(String, u64)>) -> (r: Vec<(String, u64)>)
    ensures
        r@ == v@,
{
    let mut r: Vec<(String, u64)> = Vec::new();
    let n: usize = v.len();
    let mut i: usize = 0;
    while i < n
        invariant
            i <= n,
            n == v@.len(),
            r@ == v@.take(i as int),
        decreases n - i,
    {
        r.push((v[i].0.clone(), v[i].1));
        proof {
            assert(r@ =~= v@.take(i + 1 as int));
        }
        i += 1;
    }
    proof {
        assert(v@.take(n as int) =~= v@);
    }
    r
}

/// Copies one item record field by field; the copy equals the original.
pub fn copy_item(it: &Item) -> (r: Item)
    ensures
        r == *it,
{
    Item {
        name: it.name.clone(),
        id: it.id,
        buy_price: it.buy_price,
        sell_price: it.sell_price,
        produced: it.produced,
    }
}

/// Copies one blueprint record field by field; the copy has the same value.
pub fn copy_blueprint(bp: &T1Blueprint) -> (r: T1Blueprint)
    ensures
        r@ == bp@,
{
    T1Blueprint {
        name: bp.name.clone(),
        bp_id: bp.bp_id,
        manufacturing_mats: copy_mats(&bp.manufacturing_mats),
        material_research: bp.material_research,
        time_research: bp.time_research,
        produced_item: (bp.produced_item.0.clone(), bp.produced_item.1),
    }
}

/// Copies one production-run record field by field; the copy has the same
/// value.
pub fn copy_run(pr: &T1ProductionRun) -> (r: T1ProductionRun)
    ensures
        r@ == pr@,
{
    T1ProductionRun {
        blueprint: pr.blueprint.clone(),
        materials: copy_mats(&pr.materials),
        produces: pr.produces.clone(),
        jobruns: pr.jobruns,
        installation_cost: pr.installation_cost,
    }
}

} // verus!
