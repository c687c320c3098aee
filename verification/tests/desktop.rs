use manifest_core::desktop::{check_reorder, with_paths, ModToggle, StoredSettings};
use manifest_core::model::{AssetSet, ModFile};

fn mk(name: &str, enabled: bool) -> ModFile {
    ModFile {
        path: format!("/mods/{name}.o2r"),
        name: name.into(),
        enabled,
        assets: AssetSet::new(),
        error: None,
        gamebanana_mod_id: None,
    }
}

fn names(v: &[&str]) -> Vec<String> {
    v.iter().map(|s| s.to_string()).collect()
}

#[test]
fn reorder_concatenates_the_blocks() {
    let mods = vec![mk("Big", true), mk("Small", true)];
    let order = names(&["Small", "Big"]);
    assert_eq!(check_reorder(&mods, &order, &names(&["Big"]), &[], &names(&["Small"])), Ok(names(&["Big", "Small"])));
}

#[test]
fn reorder_drops_stale_names_from_the_ledger() {
    let mods = vec![mk("Big", true), mk("Small", true)];
    let order = names(&["Small", "Stale", "Big"]);
    assert_eq!(check_reorder(&mods, &order, &[], &names(&["Big", "Small"]), &[]), Ok(names(&["Big", "Small"])));
}

#[test]
fn reorder_rejects_unknown_and_duplicate_names() {
    let mods = vec![mk("Big", true), mk("Small", true)];
    let order = names(&["Small", "Big"]);
    let err = check_reorder(&mods, &order, &[], &names(&["Big", "Nobody", "Small"]), &[]).unwrap_err();
    assert_eq!(err, "Nobody is not in the loaded ledger; take inventory and retry");
    let err = check_reorder(&mods, &order, &names(&["Big"]), &names(&["Big", "Small"]), &[]).unwrap_err();
    assert_eq!(err, "Big appears twice in the new order; take inventory and retry");
}

#[test]
fn reorder_rejects_a_missing_loaded_mod() {
    let mods = vec![mk("Big", true), mk("Small", true), mk("Alpha", true)];
    let order = names(&["Small", "Big", "Alpha"]);
    let err = check_reorder(&mods, &order, &[], &names(&["Big"]), &[]).unwrap_err();
    // The first missing name by name order.
    assert_eq!(err, "Alpha is missing from the new order; take inventory and retry");
}

#[test]
fn disabled_mods_are_not_loaded() {
    let mods = vec![mk("Big", true), mk("Off", false)];
    let order = names(&["Big", "Off"]);
    let err = check_reorder(&mods, &order, &[], &names(&["Off", "Big"]), &[]).unwrap_err();
    assert_eq!(err, "Off is not in the loaded ledger; take inventory and retry");
    assert_eq!(check_reorder(&mods, &order, &[], &names(&["Big"]), &[]), Ok(names(&["Big"])));
}

#[test]
fn errors_carry_the_paths() {
    assert_eq!(
        with_paths("mods directory not found", "/a/shipofharkinian.json", "/a/mods"),
        "mods directory not found (config: /a/shipofharkinian.json, mods: /a/mods)"
    );
    let s = StoredSettings { config_path: "/a/shipofharkinian.json".into(), mods_dir: "/a/mods".into() };
    assert_eq!(s.clone(), s);
    let t = ModToggle { path: "/a/mods/Small.o2r".into(), enabled: false };
    assert!(!t.enabled);
}
