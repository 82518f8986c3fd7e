use eve_industry::database::Database;
use eve_industry::error::DbError;
use eve_industry::menu::ChoiceMenu;
use eve_industry::records::{BlueprintDef, Item, T1ProductionRun};
use eve_industry::shopping::merge_material_quantities;

fn widget_db() -> Database {
    let type_names = vec![
        (100i64, "Widget Blueprint".to_string()),
        (200i64, "Widget".to_string()),
        (300i64, "Ore".to_string()),
        (301i64, "Component".to_string()),
    ];
    let defs = vec![(
        100i64,
        BlueprintDef { materials: vec![(300, 2), (301, 1)], products: vec![200] },
    )];
    Database::new(type_names, defs, Vec::new(), Vec::new(), Vec::new())
}

#[test]
fn add_blueprint_bootstraps_widget() {
    let mut db = widget_db();
    let created = db.add_blueprint(100, 10, 0).unwrap();
    assert_eq!(created, vec!["Ore".to_string(), "Component".to_string(), "Widget".to_string()]);

    let ore = db.get_item("Ore").unwrap();
    assert_eq!(ore.id, 300);
    assert_eq!(ore.buy_price, 0);
    assert_eq!(ore.sell_price, 0);
    assert!(!ore.produced);

    let component = db.get_item("Component").unwrap();
    assert_eq!(component.id, 301);
    assert!(!component.produced);

    let widget = db.get_item("Widget").unwrap();
    assert_eq!(widget.id, 200);
    assert_eq!(widget.buy_price, 0);
    assert_eq!(widget.sell_price, 0);
    assert!(widget.produced);

    let bp = db.get_blueprint("Widget Blueprint").unwrap();
    assert_eq!(bp.bp_id, 100);
    assert_eq!(
        bp.manufacturing_mats,
        vec![("Ore".to_string(), 2), ("Component".to_string(), 1)]
    );
    assert_eq!(bp.material_research, 10);
    assert_eq!(bp.time_research, 0);
    assert_eq!(bp.produced_item, ("Widget".to_string(), 200));
    assert!(db.has_blueprint("Widget Blueprint"));
    assert!(!db.has_blueprint("Widget"));
}

#[test]
fn production_run_derivations() {
    let mut db = widget_db();
    db.add_blueprint(100, 10, 0).unwrap();
    db.add_productionrun("Widget Blueprint", 5, 1000).unwrap();
    db.set_item_buy_price("Ore", 10).unwrap();
    db.set_item_buy_price("Component", 20).unwrap();
    db.set_item_sell_price("Widget", 500).unwrap();

    let run = db.get_productionrun("Widget Blueprint").unwrap();
    let mats = run.get_production_materials(&db).unwrap();
    assert_eq!(mats, vec![("Ore".to_string(), 9), ("Component".to_string(), 4)]);
    assert_eq!(run.get_production_cost(&db).unwrap(), 1170);
    assert_eq!(run.get_sell_value(&db).unwrap(), 2500);
}

#[test]
fn scaled_quantity_formula() {
    // base 7, 3 runs: floor(7 * 3 * (100 - r) / 100) for r = 0, 9, 10
    let type_names = vec![
        (1i64, "Gadget Blueprint".to_string()),
        (2i64, "Gadget".to_string()),
        (3i64, "Scrap".to_string()),
    ];
    let defs = vec![(1i64, BlueprintDef { materials: vec![(3, 7)], products: vec![2] })];
    for (research, expected) in [(0u8, 21u64), (9, 19), (10, 18)] {
        let mut db = Database::new(
            type_names.clone(),
            defs.clone(),
            Vec::new(),
            Vec::new(),
            Vec::new(),
        );
        db.add_blueprint(1, research, 0).unwrap();
        db.add_productionrun("Gadget Blueprint", 3, 0).unwrap();
        let run = db.get_productionrun("Gadget Blueprint").unwrap();
        let mats = run.get_production_materials(&db).unwrap();
        assert_eq!(mats, vec![("Scrap".to_string(), expected)]);
    }
}

#[test]
fn add_blueprint_twice_changes_nothing() {
    let mut db = widget_db();
    db.add_blueprint(100, 10, 0).unwrap();
    db.set_item_buy_price("Ore", 42).unwrap();
    let items_before = db.get_item_iter();
    let bps_before = db.get_blueprint_iter();

    let created = db.add_blueprint(100, 10, 0).unwrap();
    assert!(created.is_empty());
    assert_eq!(db.get_item_iter(), items_before);
    assert_eq!(db.get_blueprint_iter(), bps_before);
    assert_eq!(db.get_item("Ore").unwrap().buy_price, 42);
}

#[test]
fn keys_stay_unique() {
    let mut db = widget_db();
    db.add_blueprint(100, 3, 7).unwrap();
    db.add_productionrun("Widget Blueprint", 2, 5).unwrap();
    db.add_productionrun("Widget Blueprint", 4, 6).unwrap();
    let item_names: Vec<String> = db.get_item_iter().into_iter().map(|i| i.name).collect();
    let bp_names = db.get_blueprint_vec();
    let run_keys = db.get_productionrun_vec();
    for names in [&item_names, &bp_names, &run_keys] {
        for i in 0..names.len() {
            for j in (i + 1)..names.len() {
                assert_ne!(names[i], names[j]);
            }
        }
    }
    // the second run replaced the first
    assert_eq!(run_keys.len(), 1);
    let run = db.get_productionrun("Widget Blueprint").unwrap();
    assert_eq!(run.jobruns, 4);
    assert_eq!(run.installation_cost, 6);
}

#[test]
fn search_is_case_insensitive() {
    let db = widget_db();
    let hits = db.search_ids("widget");
    assert_eq!(
        hits,
        vec![("Widget Blueprint".to_string(), 100), ("Widget".to_string(), 200)]
    );
    // an upper-case query must match lower-case catalog text
    assert_eq!(db.search_ids("WIDGET"), hits);
    assert_eq!(db.search_ids("oRe"), vec![("Ore".to_string(), 300)]);
}

#[test]
fn search_matches_inner_substrings() {
    let db = widget_db();
    assert_eq!(db.search_ids("omponen"), vec![("Component".to_string(), 301)]);
    assert_eq!(db.search_ids("").len(), 4);
}

#[test]
fn search_without_matches_returns_nothing() {
    let db = widget_db();
    assert!(db.search_ids("dreadnought").is_empty());
}

#[test]
fn unknown_type_id_is_reported() {
    let mut db = widget_db();
    assert_eq!(db.add_blueprint(999, 0, 0), Err(DbError::UnknownTypeId(999)));
    assert!(db.get_item_iter().is_empty());
}

#[test]
fn material_without_name_is_reported() {
    // type id 555 has a definition entry but no name entry
    let type_names = vec![(1i64, "Thing Blueprint".to_string()), (2i64, "Thing".to_string())];
    let defs = vec![(1i64, BlueprintDef { materials: vec![(555, 1)], products: vec![2] })];
    let mut db = Database::new(type_names, defs, Vec::new(), Vec::new(), Vec::new());
    assert_eq!(db.add_blueprint(1, 0, 0), Err(DbError::UnknownTypeId(555)));
    assert!(db.get_item_iter().is_empty());
}

#[test]
fn blueprint_without_product_is_rejected() {
    let type_names = vec![(1i64, "Husk Blueprint".to_string()), (3i64, "Scrap".to_string())];
    let defs = vec![(1i64, BlueprintDef { materials: vec![(3, 4)], products: Vec::new() })];
    let mut db = Database::new(type_names, defs, Vec::new(), Vec::new(), Vec::new());
    assert_eq!(db.add_blueprint(1, 0, 0), Err(DbError::NoProduct(1)));
    // the two-phase bootstrap leaves the store untouched on failure
    assert!(db.get_item_iter().is_empty());
}

#[test]
fn price_update_needs_existing_item() {
    let mut db = widget_db();
    assert_eq!(
        db.set_item_buy_price("Ore", 10),
        Err(DbError::UnknownItem("Ore".to_string()))
    );
    assert_eq!(
        db.set_item_sell_price("Widget", 10),
        Err(DbError::UnknownItem("Widget".to_string()))
    );
}

#[test]
fn production_run_needs_existing_blueprint() {
    let mut db = widget_db();
    assert_eq!(
        db.add_productionrun("Widget Blueprint", 1, 0),
        Err(DbError::UnknownBlueprint("Widget Blueprint".to_string()))
    );
}

#[test]
fn derivations_report_missing_references() {
    let db = widget_db();
    let orphan = T1ProductionRun {
        blueprint: "Widget Blueprint".to_string(),
        materials: vec![("Ore".to_string(), 2)],
        produces: "Widget".to_string(),
        jobruns: 1,
        installation_cost: 0,
    };
    assert_eq!(
        orphan.get_production_materials(&db),
        Err(DbError::UnknownBlueprint("Widget Blueprint".to_string()))
    );
    assert_eq!(
        orphan.get_sell_value(&db),
        Err(DbError::UnknownItem("Widget".to_string()))
    );
}

#[test]
fn cost_reports_first_missing_item() {
    let mut db = widget_db();
    db.add_blueprint(100, 0, 0).unwrap();
    db.add_productionrun("Widget Blueprint", 1, 0).unwrap();
    // a run whose snapshot names an item the store never saw
    let stray = T1ProductionRun {
        blueprint: "Widget Blueprint".to_string(),
        materials: vec![("Slag".to_string(), 1)],
        produces: "Widget".to_string(),
        jobruns: 1,
        installation_cost: 0,
    };
    assert_eq!(
        stray.get_production_cost(&db),
        Err(DbError::UnknownItem("Slag".to_string()))
    );
}

#[test]
fn reloading_records_rebuilds_the_store() {
    let mut db = widget_db();
    db.add_blueprint(100, 10, 0).unwrap();
    db.add_productionrun("Widget Blueprint", 5, 1000).unwrap();
    db.set_item_buy_price("Ore", 10).unwrap();
    db.set_item_sell_price("Widget", 500).unwrap();

    let reloaded = Database::new(
        db.type_names.clone(),
        db.blueprint_defs.clone(),
        db.get_item_iter(),
        db.get_blueprint_iter(),
        db.get_productionrun_iter(),
    );
    assert_eq!(reloaded.known_items, db.known_items);
    assert_eq!(reloaded.known_blueprints, db.known_blueprints);
    assert_eq!(reloaded.productionruns, db.productionruns);
}

#[test]
fn loading_keeps_the_last_record_per_key() {
    let first = Item {
        name: "Ore".to_string(),
        id: 300,
        buy_price: 1,
        sell_price: 2,
        produced: false,
    };
    let second = Item {
        name: "Ore".to_string(),
        id: 300,
        buy_price: 9,
        sell_price: 8,
        produced: false,
    };
    let db = Database::new(
        Vec::new(),
        Vec::new(),
        vec![first, second],
        Vec::new(),
        Vec::new(),
    );
    assert_eq!(db.known_items.len(), 1);
    assert_eq!(db.get_item("Ore").unwrap().buy_price, 9);
    assert_eq!(db.get_item("Ore").unwrap().sell_price, 8);
}

#[test]
fn price_updates_persist_in_store() {
    let mut db = widget_db();
    db.add_blueprint(100, 0, 0).unwrap();
    db.set_item_buy_price("Ore", 77).unwrap();
    db.set_item_sell_price("Ore", 88).unwrap();
    let ore = db.get_item("Ore").unwrap();
    assert_eq!(ore.buy_price, 77);
    assert_eq!(ore.sell_price, 88);
    // the other item is untouched
    assert_eq!(db.get_item("Component").unwrap().buy_price, 0);
}

#[test]
fn production_run_snapshots_blueprint() {
    let mut db = widget_db();
    db.add_blueprint(100, 5, 0).unwrap();
    let run = T1ProductionRun::new("Widget Blueprint", 3, 250, &db).unwrap();
    assert_eq!(run.blueprint, "Widget Blueprint");
    assert_eq!(run.materials, vec![("Ore".to_string(), 2), ("Component".to_string(), 1)]);
    assert_eq!(run.produces, "Widget");
    assert_eq!(run.jobruns, 3);
    assert_eq!(run.installation_cost, 250);
}

#[test]
fn choice_menu_keeps_options() {
    let m = ChoiceMenu::new("MAIN MENU", vec!["Exit".to_string(), "List".to_string()]);
    assert_eq!(m.header, "MAIN MENU");
    assert_eq!(m.options.len(), 2);
    assert_eq!(m.options[0], "Exit");
}

#[test]
fn lookups_miss_cleanly() {
    let db = widget_db();
    assert!(db.get_item("Ore").is_none());
    assert!(db.get_blueprint("Widget Blueprint").is_none());
    assert!(db.get_productionrun("Widget Blueprint").is_none());
    assert!(!db.has_item("Ore"));
    assert!(!db.has_productionrun("Widget Blueprint"));
}

#[test]
fn shopping_totals_merge_by_name() {
    let mut totals: Vec<(String, u64)> = Vec::new();
    merge_material_quantities(
        &mut totals,
        &vec![("Ore".to_string(), 9), ("Component".to_string(), 4)],
    );
    merge_material_quantities(&mut totals, &vec![("Ore".to_string(), 5)]);
    assert_eq!(totals, vec![("Ore".to_string(), 14), ("Component".to_string(), 4)]);
}

#[test]
fn blueprint_without_materials_creates_only_product() {
    let type_names = vec![(1i64, "Air Blueprint".to_string()), (2i64, "Air".to_string())];
    let defs = vec![(1i64, BlueprintDef { materials: Vec::new(), products: vec![2] })];
    let mut db = Database::new(type_names, defs, Vec::new(), Vec::new(), Vec::new());
    let created = db.add_blueprint(1, 0, 0).unwrap();
    assert_eq!(created, vec!["Air".to_string()]);
    let bp = db.get_blueprint("Air Blueprint").unwrap();
    assert!(bp.manufacturing_mats.is_empty());

    db.add_productionrun("Air Blueprint", 2, 30).unwrap();
    let run = db.get_productionrun("Air Blueprint").unwrap();
    assert_eq!(run.get_production_materials(&db).unwrap(), Vec::<(String, u64)>::new());
    // with no materials the cost is the installation cost alone
    assert_eq!(run.get_production_cost(&db).unwrap(), 30);
}

#[test]
fn empty_catalog_finds_nothing() {
    let mut db = Database::new(Vec::new(), Vec::new(), Vec::new(), Vec::new(), Vec::new());
    assert!(db.search_ids("anything").is_empty());
    assert_eq!(db.add_blueprint(1, 0, 0), Err(DbError::UnknownTypeId(1)));
}

#[test]
fn bootstrap_shares_items_between_blueprints() {
    // two blueprints consuming the same material create its item only once
    let type_names = vec![
        (1i64, "A Blueprint".to_string()),
        (2i64, "A".to_string()),
        (3i64, "B Blueprint".to_string()),
        (4i64, "B".to_string()),
        (5i64, "Shared Ore".to_string()),
    ];
    let defs = vec![
        (1i64, BlueprintDef { materials: vec![(5, 1)], products: vec![2] }),
        (3i64, BlueprintDef { materials: vec![(5, 2)], products: vec![4] }),
    ];
    let mut db = Database::new(type_names, defs, Vec::new(), Vec::new(), Vec::new());
    assert_eq!(db.add_blueprint(1, 0, 0).unwrap(), vec!["Shared Ore".to_string(), "A".to_string()]);
    assert_eq!(db.add_blueprint(3, 0, 0).unwrap(), vec!["B".to_string()]);
    assert_eq!(db.get_item_iter().len(), 3);
}

#[test]
fn large_quantities_scale_without_overflow() {
    let base: u64 = u64::MAX / 2;
    let type_names = vec![(1i64, "Bulk Blueprint".to_string()), (2i64, "Bulk".to_string()), (3i64, "Mass".to_string())];
    let defs = vec![(1i64, BlueprintDef { materials: vec![(3, base)], products: vec![2] })];
    let mut db = Database::new(type_names, defs, Vec::new(), Vec::new(), Vec::new());
    db.add_blueprint(1, 10, 0).unwrap();
    db.add_productionrun("Bulk Blueprint", 2, 0).unwrap();
    let run = db.get_productionrun("Bulk Blueprint").unwrap();
    let mats = run.get_production_materials(&db).unwrap();
    // floor(base * 2 * 90 / 100), computed in wide arithmetic
    let expected = ((base as u128) * 2 * 90 / 100) as u64;
    assert_eq!(mats, vec![("Mass".to_string(), expected)]);
}
