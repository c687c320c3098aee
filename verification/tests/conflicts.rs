use manifest_core::conflicts::ConflictGraph;
use manifest_core::model::{AssetSet, ModFile};

fn mk(name: &str, enabled: bool, assets: &[&str]) -> ModFile {
    ModFile {
        path: format!("/tmp/{name}.otr"),
        name: name.into(),
        enabled,
        assets: AssetSet::from_vec(assets.iter().map(|s| s.to_string()).collect()),
        error: None,
        gamebanana_mod_id: None,
    }
}

#[test]
fn builds_providers_in_load_order_and_finds_conflicts() {
    let mods = vec![
        mk("Big", true, &["a", "b", "c"]),
        mk("Small", true, &["b"]),
        mk("Off", false, &["b"]),
    ];
    let order = vec!["Big".to_string(), "Small".to_string()];
    let graph = ConflictGraph::build(&mods, &order);
    let conflicting = graph.conflicting();
    assert_eq!(conflicting.len(), 1);
    let b = conflicting.iter().find(|e| e.asset == "b").unwrap();
    assert_eq!(&b.providers, &vec!["Big".to_string(), "Small".to_string()]);
    assert_eq!(graph.winner("b"), Some(&"Small".to_string()));
    assert_eq!(graph.winner("a"), Some(&"Big".to_string()));
}

#[test]
fn mods_outside_the_order_load_after_it_by_name() {
    let mods = vec![
        mk("Zed", true, &["x"]),
        mk("Amy", true, &["x"]),
        mk("Listed", true, &["x"]),
    ];
    let order = vec!["Listed".to_string()];
    let graph = ConflictGraph::build(&mods, &order);
    let all = graph.providers();
    assert_eq!(all.len(), 1);
    assert_eq!(
        all[0].providers,
        vec!["Listed".to_string(), "Amy".to_string(), "Zed".to_string()]
    );
    assert_eq!(graph.winner("x"), Some(&"Zed".to_string()));
    assert_eq!(graph.winner("nothing"), None);
}

#[test]
fn providers_are_sorted_by_asset() {
    let mods = vec![mk("M", true, &["zeta", "alpha", "mid"])];
    let graph = ConflictGraph::build(&mods, &[]);
    let assets: Vec<String> = graph.providers().into_iter().map(|e| e.asset).collect();
    assert_eq!(assets, vec!["alpha".to_string(), "mid".to_string(), "zeta".to_string()]);
    assert!(graph.conflicting().is_empty());
}

#[test]
fn asset_set_sorts_and_dedups() {
    let set = AssetSet::from_vec(vec!["b".into(), "a".into(), "b".into(), "é".into(), "Z".into()]);
    assert_eq!(set.len(), 4);
    assert_eq!(set.get(0), "Z");
    assert_eq!(set.get(1), "a");
    assert_eq!(set.get(2), "b");
    assert_eq!(set.get(3), "é");
    assert!(set.contains("a"));
    assert!(!set.contains("c"));
    let other = AssetSet::from_vec(vec!["c".into(), "é".into()]);
    assert!(set.intersects(&other));
    assert!(!AssetSet::from_vec(vec!["q".into()]).intersects(&other));
}

#[test]
fn the_graph_depends_only_on_the_mods_and_the_order() {
    let mods = vec![mk("A", true, &["x", "y"]), mk("B", true, &["y", "z"]), mk("C", true, &["z"])];
    let order = vec!["C".to_string(), "A".to_string(), "B".to_string()];
    let first = ConflictGraph::build(&mods, &order);
    let second = ConflictGraph::build(&mods, &order);
    let a: Vec<(String, Vec<String>)> = first.providers().into_iter().map(|e| (e.asset, e.providers)).collect();
    let b: Vec<(String, Vec<String>)> = second.providers().into_iter().map(|e| (e.asset, e.providers)).collect();
    assert_eq!(a, b);
    assert_eq!(
        a,
        vec![
            ("x".to_string(), vec!["A".to_string()]),
            ("y".to_string(), vec!["A".to_string(), "B".to_string()]),
            ("z".to_string(), vec!["C".to_string(), "B".to_string()]),
        ]
    );
}
