use manifest_core::model::{AssetSet, ModFile};
use manifest_core::sort::{propose, Pins};

fn mk(name: &str, assets: &[&str]) -> ModFile {
    ModFile {
        path: format!("/tmp/{name}.otr"),
        name: name.into(),
        enabled: true,
        assets: AssetSet::from_vec(assets.iter().map(|s| s.to_string()).collect()),
        error: None,
        gamebanana_mod_id: None,
    }
}

#[test]
fn specific_mod_moves_after_broad_pack() {
    let mods = vec![mk("SwordSkin", &["a"]), mk("BigOverhaul", &["a", "b", "c"])];
    let current: Vec<String> = ["SwordSkin", "BigOverhaul"].map(String::from).into();
    let result = propose(&mods, &current, &Pins::default());
    assert_eq!(
        result.proposed,
        vec!["BigOverhaul".to_string(), "SwordSkin".to_string()]
    );
    assert_eq!(result.moves.len(), 2);
    assert!(result
        .moves
        .iter()
        .any(|m| m.name == "SwordSkin" && m.reason.contains("BigOverhaul")));
}

#[test]
fn non_conflicting_mods_keep_relative_order() {
    let mods = vec![mk("Zeta", &["x"]), mk("Alpha", &["y"]), mk("Mid", &["z"])];
    let current: Vec<String> = ["Zeta", "Alpha", "Mid"].map(String::from).into();
    let result = propose(&mods, &current, &Pins::default());
    assert_eq!(result.proposed, current);
    assert!(result.moves.is_empty());
}

#[test]
fn pins_override_heuristics() {
    let mods = vec![mk("SwordSkin", &["a"]), mk("BigOverhaul", &["a", "b", "c"])];
    let current: Vec<String> = ["SwordSkin", "BigOverhaul"].map(String::from).into();
    let pins = Pins {
        top: vec!["SwordSkin".into()],
        bottom: vec![],
    };
    let result = propose(&mods, &current, &pins);
    assert_eq!(
        result.proposed,
        vec!["SwordSkin".to_string(), "BigOverhaul".to_string()]
    );
}

#[test]
fn deterministic_across_runs() {
    let mods = vec![
        mk("A", &["1", "2", "3", "4"]),
        mk("B", &["2", "3"]),
        mk("C", &["3"]),
        mk("D", &["9"]),
    ];
    let current: Vec<String> = ["C", "A", "D", "B"].map(String::from).into();
    let first = propose(&mods, &current, &Pins::default()).proposed;
    for _ in 0..10 {
        assert_eq!(propose(&mods, &current, &Pins::default()).proposed, first);
    }
    let idx = |n: &str| first.iter().position(|x| x == n).unwrap();
    assert!(idx("A") < idx("B"));
    assert!(idx("B") < idx("C"));
}

#[test]
fn pins_no_duplicates_top_wins() {
    let mods = vec![mk("A", &["x"]), mk("B", &["y"])];
    let current: Vec<String> = ["A", "B"].map(String::from).into();
    let pins = Pins {
        top: vec!["A".into()],
        bottom: vec!["A".into()],
    };
    let result = propose(&mods, &current, &pins);
    let a_count = result.proposed.iter().filter(|n| *n == "A").count();
    assert_eq!(a_count, 1, "Mod A should appear exactly once");
    assert_eq!(result.proposed[0], "A");
    let b_count = result.proposed.iter().filter(|n| *n == "B").count();
    assert_eq!(b_count, 1, "Mod B should appear exactly once");
}

#[test]
fn no_duplicates_in_current() {
    let mods = vec![mk("A", &["x"]), mk("B", &["y"])];
    let current: Vec<String> = ["A", "A", "B"].map(String::from).into();
    let result = propose(&mods, &current, &Pins::default());
    let a_count = result.proposed.iter().filter(|n| *n == "A").count();
    let b_count = result.proposed.iter().filter(|n| *n == "B").count();
    assert_eq!(a_count, 1, "Mod A should appear exactly once");
    assert_eq!(b_count, 1, "Mod B should appear exactly once");
    assert_eq!(
        result.proposed.len(),
        2,
        "proposed should have exactly 2 mods"
    );
    assert_eq!(result.proposed, vec!["A".to_string(), "B".to_string()]);
}

#[test]
fn error_and_disabled_mods_are_excluded_from_proposal() {
    let mut broken = mk("Broken", &["a"]);
    broken.error = Some("no (listfile)".into());
    let mut parked = mk("Parked", &["b"]);
    parked.enabled = false;
    let mods = vec![mk("Fine", &["c"]), broken, parked];
    let current: Vec<String> = ["Broken", "Parked", "Fine"].map(String::from).into();
    let result = propose(&mods, &current, &Pins::default());
    assert_eq!(result.proposed, vec!["Fine".to_string()]);
}

#[test]
fn mods_missing_from_current_append_alphabetically() {
    let mods = vec![mk("Zulu", &["z"]), mk("Alpha", &["a"]), mk("Kept", &["k"])];
    let current: Vec<String> = ["Kept"].map(String::from).into();
    let result = propose(&mods, &current, &Pins::default());
    assert_eq!(
        result.proposed,
        vec!["Kept".to_string(), "Alpha".to_string(), "Zulu".to_string()],
        "missing mods should append after current order, alphabetically"
    );
}

#[test]
fn move_reason_names_the_broader_mod_and_both_counts() {
    let mods = vec![mk("SwordSkin", &["a"]), mk("BigOverhaul", &["a", "b", "c"])];
    let current: Vec<String> = ["SwordSkin", "BigOverhaul"].map(String::from).into();
    let result = propose(&mods, &current, &Pins::default());
    let sword = result.moves.iter().find(|m| m.name == "SwordSkin").unwrap();
    assert_eq!(
        sword.reason,
        "moved after BigOverhaul: its 1 assets overlap BigOverhaul's 3 and the more specific mod wins"
    );
    let big = result.moves.iter().find(|m| m.name == "BigOverhaul").unwrap();
    assert_eq!(
        big.reason,
        "repositioned to preserve relative order after conflict-driven moves"
    );
}

#[test]
fn blame_prefers_the_broadest_predecessor() {
    let mods = vec![
        mk("Tiny", &["a"]),
        mk("Mid", &["a", "b"]),
        mk("Huge", &["a", "b", "c", "d"]),
    ];
    let current: Vec<String> = ["Tiny", "Mid", "Huge"].map(String::from).into();
    let result = propose(&mods, &current, &Pins::default());
    assert_eq!(
        result.proposed,
        vec!["Huge".to_string(), "Mid".to_string(), "Tiny".to_string()]
    );
    let tiny = result.moves.iter().find(|m| m.name == "Tiny").unwrap();
    assert!(tiny.reason.starts_with("moved after Huge:"), "{}", tiny.reason);
    assert!(tiny.reason.contains("its 1 assets overlap Huge's 4"));
}

#[test]
fn bottom_pins_load_last_in_current_order() {
    let mods = vec![mk("A", &["x"]), mk("B", &["y"]), mk("C", &["z"])];
    let current: Vec<String> = ["A", "B", "C"].map(String::from).into();
    let pins = Pins {
        top: vec![],
        bottom: vec!["B".into(), "A".into()],
    };
    let result = propose(&mods, &current, &pins);
    assert_eq!(
        result.proposed,
        vec!["C".to_string(), "A".to_string(), "B".to_string()]
    );
}

#[test]
fn unconstrained_mods_stay_as_early_as_they_can() {
    // Only Pack must precede Skin; Solo keeps its place at the front, and
    // Pack moves up just far enough to precede Skin.
    let mods = vec![mk("Solo", &["s"]), mk("Skin", &["c"]), mk("Pack", &["b", "c"])];
    let current: Vec<String> = ["Solo", "Skin", "Pack"].map(String::from).into();
    let result = propose(&mods, &current, &Pins::default());
    assert_eq!(
        result.proposed,
        vec!["Solo".to_string(), "Pack".to_string(), "Skin".to_string()]
    );
}
