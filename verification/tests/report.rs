use manifest_core::model::{AssetSet, ModFile};
use manifest_core::report::{already_optimal, build, conflicts_involving, scan_exit_code, SCHEMA_VERSION};
use manifest_core::sort::Pins;
use manifest_core::warnings::Warning;

fn mk(name: &str, assets: &[&str]) -> ModFile {
    ModFile {
        path: format!("/tmp/{name}.otr"),
        name: name.into(),
        enabled: true,
        assets: AssetSet::from_vec(assets.iter().map(|s| s.to_string()).collect()),
        error: None,
        gamebanana_mod_id: None,
    }
}

#[test]
fn golden_report_shape() {
    let mods = vec![mk("Small", &["a"]), mk("Big", &["a", "b"])];
    let order: Vec<String> = ["Small", "Big"].map(String::from).into();
    let report = build(&mods, &order, &Pins::default());
    assert_eq!(report.schema_version, 2);
    assert_eq!(report.mods.len(), 2);
    assert_eq!(report.conflicts[0].asset, "a");
    assert_eq!(report.conflicts[0].winner, "Big");
    assert_eq!(report.proposed_order[0], "Big");
    assert_eq!(report.proposed_order[1], "Small");
    assert!(!report.moves.is_empty());
}

#[test]
fn report_marks_pinned_mods_and_ignores_stale_pins() {
    let mods = vec![mk("Small", &["a"]), mk("Big", &["a", "b"])];
    let order: Vec<String> = ["Small", "Big"].map(String::from).into();
    let pins = Pins { top: vec!["Small".to_string()], bottom: vec!["Ghost".to_string()] };
    let report = build(&mods, &order, &pins);
    assert_eq!(report.schema_version, 2);
    assert_eq!(report.mods[0].pinned.as_deref(), Some("top"));
    assert_eq!(report.mods[1].pinned, None);
    // Pinned mod holds the top despite the specificity heuristic.
    assert_eq!(report.proposed_order[0], "Small");
    // A pin naming a mod that does not exist never enters the order.
    assert!(report.proposed_order.iter().all(|n| n != "Ghost"));
}

#[test]
fn report_rows_follow_the_mods() {
    let mut broken = mk("Broken", &[]);
    broken.error = Some("bad header".into());
    broken.enabled = false;
    let mods = vec![mk("One", &["x", "y"]), broken, mk("Two", &["y"])];
    let order: Vec<String> = vec!["Two".into(), "One".into()];
    let pins = Pins { top: vec!["Two".into()], bottom: vec!["Two".into(), "One".into()] };
    let report = build(&mods, &order, &pins);
    assert_eq!(SCHEMA_VERSION, 2);
    assert_eq!(report.mods.len(), 3);
    assert_eq!(report.mods[0].name, "One");
    assert_eq!(report.mods[0].asset_count, 2);
    assert_eq!(report.mods[0].pinned.as_deref(), Some("bottom"));
    assert!(!report.mods[1].enabled);
    assert_eq!(report.mods[1].error.as_deref(), Some("bad header"));
    // Top wins over bottom when both name the mod.
    assert_eq!(report.mods[2].pinned.as_deref(), Some("top"));
    assert_eq!(report.current_order, order);
    assert_eq!(report.conflicts.len(), 1);
    assert_eq!(report.conflicts[0].asset, "y");
    assert_eq!(report.conflicts[0].providers, vec!["Two".to_string(), "One".to_string()]);
    assert_eq!(report.conflicts[0].winner, "One");
    assert_eq!(report.warnings, vec![Warning::TotalEclipse { name: "Two".into() }]);
}

#[test]
fn scans_with_conflicts_or_warnings_exit_with_three() {
    let mods = vec![mk("Small", &["a"]), mk("Big", &["a", "b"])];
    let order: Vec<String> = ["Small", "Big"].map(String::from).into();
    assert_eq!(scan_exit_code(&build(&mods, &order, &Pins::default())), 3);
    let clean = vec![mk("One", &["a"]), mk("Two", &["b"])];
    let order: Vec<String> = ["One", "Two"].map(String::from).into();
    assert_eq!(scan_exit_code(&build(&clean, &order, &Pins::default())), 0);
}

#[test]
fn optimal_order_needs_no_moves() {
    let mods = vec![mk("Small", &["a"]), mk("Big", &["a", "b"])];
    let sorted: Vec<String> = ["Big", "Small"].map(String::from).into();
    assert!(already_optimal(&build(&mods, &sorted, &Pins::default())));
    let unsorted: Vec<String> = ["Small", "Big"].map(String::from).into();
    assert!(!already_optimal(&build(&mods, &unsorted, &Pins::default())));
}

#[test]
fn explain_lists_the_assets_a_mod_contests() {
    let mods = vec![mk("One", &["a", "b"]), mk("Two", &["b", "c"]), mk("Three", &["a", "c"])];
    let order: Vec<String> = ["One", "Two", "Three"].map(String::from).into();
    let report = build(&mods, &order, &Pins::default());
    let assets = |name: &str| -> Vec<String> {
        conflicts_involving(&report, &name.to_string()).into_iter().map(|k| report.conflicts[k].asset.clone()).collect()
    };
    assert_eq!(assets("One"), vec!["a".to_string(), "b".to_string()]);
    assert_eq!(assets("Two"), vec!["b".to_string(), "c".to_string()]);
    assert_eq!(assets("Nobody"), Vec::<String>::new());
}

#[test]
fn duplicate_install_is_reported_from_paths() {
    let mut a = mk("Copy1", &["x"]);
    a.path = "/mods/one/copy1.otr".into();
    a.gamebanana_mod_id = Some(42);
    let mut b = mk("Copy2", &["y"]);
    b.path = "/mods/two/copy2.otr".into();
    b.gamebanana_mod_id = Some(42);
    let order: Vec<String> = ["Copy1", "Copy2"].map(String::from).into();
    let report = build(&[a, b], &order, &Pins::default());
    assert_eq!(
        report.warnings,
        vec![Warning::DuplicateGamebananaMod { mod_id: 42, names: vec!["Copy1".into(), "Copy2".into()] }]
    );
    assert_eq!(scan_exit_code(&report), 3);
}
