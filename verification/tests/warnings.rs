use manifest_core::conflicts::ConflictGraph;
use manifest_core::model::{AssetSet, ModFile};
use manifest_core::warnings::{detect, detect_with_folders, Warning};

fn mk(name: &str, assets: &[&str], error: Option<&str>) -> ModFile {
    ModFile {
        path: format!("/tmp/{name}/f.otr"),
        name: name.into(),
        enabled: true,
        assets: AssetSet::from_vec(assets.iter().map(|s| s.to_string()).collect()),
        error: error.map(String::from),
        gamebanana_mod_id: None,
    }
}

fn gb(path: &str, name: &str, enabled: bool, id: u64) -> ModFile {
    ModFile {
        path: path.into(),
        name: name.into(),
        enabled,
        assets: AssetSet::new(),
        error: None,
        gamebanana_mod_id: Some(id),
    }
}

#[test]
fn detects_eclipse_mutual_overlap_and_unlistable() {
    let mods = vec![
        mk("Eclipsed", &["a", "b"], None),
        mk("CoverA", &["a"], None),
        mk("CoverB", &["b"], None),
        mk("TwinOne", &["z"], None),
        mk("TwinTwo", &["z"], None),
        mk("Sick", &[], Some("no (listfile)")),
    ];
    let order: Vec<String> =
        ["Eclipsed", "CoverA", "CoverB", "TwinOne", "TwinTwo"].map(String::from).into();
    let graph = ConflictGraph::build(&mods, &order);
    let warnings = detect(&mods, &order, &graph);
    assert!(warnings.contains(&Warning::TotalEclipse { name: "Eclipsed".into() }));
    assert!(warnings.contains(&Warning::MutualOverlap {
        names: vec!["TwinOne".into(), "TwinTwo".into()]
    }));
    assert!(warnings.contains(&Warning::Unlistable {
        name: "Sick".into(),
        reason: "no (listfile)".into()
    }));
    // TwinOne is overridden on its only asset, but mutual overlap is the
    // more precise diagnosis - it must NOT also be reported as eclipsed.
    assert!(!warnings.contains(&Warning::TotalEclipse { name: "TwinOne".into() }));
}

#[test]
fn detects_duplicate_gamebanana_across_folders_with_disabled_mod() {
    let mods = vec![
        gb("/folder1/mod_a.otr", "ModA", true, 777),
        gb("/folder2/mod_b.otr", "ModB", false, 777),
    ];
    let order: Vec<String> = vec![];
    let graph = ConflictGraph::build(&mods, &order);
    let warnings = detect(&mods, &order, &graph);
    assert!(warnings.contains(&Warning::DuplicateGamebananaMod {
        mod_id: 777,
        names: vec!["ModA".into(), "ModB".into()]
    }));
}

#[test]
fn does_not_detect_duplicate_gamebanana_in_same_folder() {
    let mods = vec![
        gb("/shared/mod_a.otr", "ModA", true, 777),
        gb("/shared/mod_b.otr", "ModB", true, 777),
    ];
    let order: Vec<String> = vec![];
    let graph = ConflictGraph::build(&mods, &order);
    let warnings = detect(&mods, &order, &graph);
    assert!(!warnings.contains(&Warning::DuplicateGamebananaMod {
        mod_id: 777,
        names: vec!["ModA".into(), "ModB".into()]
    }));
}

#[test]
fn warnings_come_sorted_by_kind_then_name() {
    let mut mods = vec![
        mk("Zeta", &[], Some("broken")),
        mk("Alpha", &[], Some("also broken")),
        mk("PairB", &["p"], None),
        mk("PairA", &["p"], None),
        mk("Hidden", &["h"], None),
        mk("Cover", &["h", "c"], None),
    ];
    mods.push(gb("/one/x.otr", "X1", true, 9));
    mods.push(gb("/two/x.otr", "X2", true, 9));
    mods.push(gb("/one/y.otr", "Y1", true, 10));
    mods.push(gb("/two/y.otr", "Y2", true, 10));
    let order: Vec<String> = vec!["Hidden".into(), "Cover".into()];
    let graph = ConflictGraph::build(&mods, &order);
    let warnings = detect(&mods, &order, &graph);
    assert_eq!(
        warnings,
        vec![
            // "10" sorts before "9" as text.
            Warning::DuplicateGamebananaMod { mod_id: 10, names: vec!["Y1".into(), "Y2".into()] },
            Warning::DuplicateGamebananaMod { mod_id: 9, names: vec!["X1".into(), "X2".into()] },
            Warning::MutualOverlap { names: vec!["PairA".into(), "PairB".into()] },
            Warning::TotalEclipse { name: "Hidden".into() },
            Warning::Unlistable { name: "Alpha".into(), reason: "also broken".into() },
            Warning::Unlistable { name: "Zeta".into(), reason: "broken".into() },
        ]
    );
}

#[test]
fn disabled_mods_raise_no_asset_warnings() {
    let mut off = mk("Off", &["a"], Some("bad"));
    off.enabled = false;
    let mut twin = mk("Twin", &["a"], None);
    twin.enabled = false;
    let mods = vec![off, twin, mk("On", &["a"], None)];
    let order: Vec<String> = vec![];
    let graph = ConflictGraph::build(&mods, &order);
    assert_eq!(detect(&mods, &order, &graph), vec![]);
}

#[test]
fn a_mod_that_wins_one_asset_is_not_eclipsed() {
    let mods = vec![mk("Keeps", &["a", "b"], None), mk("Covers", &["a"], None)];
    let order: Vec<String> = vec!["Keeps".into(), "Covers".into()];
    let graph = ConflictGraph::build(&mods, &order);
    assert_eq!(detect(&mods, &order, &graph), vec![]);
}

#[test]
fn duplicate_names_are_listed_once_with_given_folders() {
    let mods = vec![
        gb("a", "Same", true, 5),
        gb("b", "Same", true, 5),
        gb("c", "Other", true, 5),
    ];
    let folders = vec![Some("one".to_string()), Some("two".to_string()), None];
    let graph = ConflictGraph::build(&mods, &[]);
    assert_eq!(
        detect_with_folders(&mods, &graph, &folders),
        vec![Warning::DuplicateGamebananaMod { mod_id: 5, names: vec!["Same".into()] }]
    );
}
