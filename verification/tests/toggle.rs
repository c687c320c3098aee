use std::path::{Path, PathBuf};

use manifest_core::toggle::{
    is_known, plan_toggle, rename_failed_message, set_enabled_batch, target_exists_message, target_extension,
    to_ascii_lower, BatchStep,
};

#[test]
fn extensions_flip_between_enabled_and_disabled() {
    assert_eq!(target_extension("otr", false), Some("disabled"));
    assert_eq!(target_extension("o2r", false), Some("di2abled"));
    assert_eq!(target_extension("disabled", true), Some("otr"));
    assert_eq!(target_extension("di2abled", true), Some("o2r"));
    assert_eq!(target_extension("otr", true), None);
    assert_eq!(target_extension("di2abled", false), None);
    assert_eq!(target_extension("txt", false), None);
}

#[test]
fn known_extensions_are_the_four_mod_extensions() {
    for e in ["otr", "o2r", "disabled", "di2abled"] {
        assert!(is_known(e));
    }
    assert!(!is_known("OTR"));
    assert!(!is_known("zip"));
    assert!(!is_known(""));
}

#[test]
fn plans_compare_extensions_without_ascii_case() {
    assert_eq!(to_ascii_lower("OtR.Ä"), "otr.Ä");
    assert_eq!(plan_toggle("/m/Sword.OTR", "OTR", false), Ok(Some("disabled")));
    assert_eq!(plan_toggle("/m/Sword.otr", "otr", true), Ok(None));
    assert_eq!(
        plan_toggle("/m/notes.txt", "txt", false),
        Err("not a mod file (expected otr/o2r/disabled/di2abled): /m/notes.txt".to_string())
    );
    assert_eq!(
        plan_toggle("/m/noext", "", true),
        Err("not a mod file (expected otr/o2r/disabled/di2abled): /m/noext".to_string())
    );
}

#[test]
fn refusals_name_the_paths() {
    assert_eq!(
        target_exists_message("/m/Sword.disabled"),
        "refusing to rename, target already exists: /m/Sword.disabled"
    );
    assert_eq!(rename_failed_message("denied", "/m/A.otr"), "denied (renaming /m/A.otr)");
}

/// Where a toggle would move the file, as the library plans it (the
/// rename itself is left out).
fn planned(path: &Path, enabled: bool) -> Result<PathBuf, String> {
    let ext = path.extension().and_then(|e| e.to_str()).unwrap_or("");
    let shown = path.display().to_string();
    match plan_toggle(&shown, ext, enabled)? {
        Some(new_ext) => Ok(path.with_extension(new_ext)),
        None => Ok(path.to_path_buf()),
    }
}

/// Drives the library's batch steps over planned toggles.
fn run_batch(changes: &[(PathBuf, bool)]) -> Result<Vec<PathBuf>, String> {
    let mut step = set_enabled_batch(changes.len(), Vec::new(), None);
    let mut tried = 0;
    loop {
        match step {
            BatchStep::Apply { index, done } => {
                tried += 1;
                let (path, enabled) = &changes[index];
                let outcome = planned(path, *enabled).map(|p| p.to_string_lossy().into_owned());
                step = set_enabled_batch(changes.len(), done, Some(outcome));
            }
            BatchStep::Finished(done) => return Ok(done.into_iter().map(PathBuf::from).collect()),
            BatchStep::Failed(m) => {
                assert!(tried <= changes.len());
                return Err(m);
            }
        }
    }
}

#[test]
fn batch_stops_at_first_failure_and_reports_progress() {
    let dir = Path::new("/library");
    let a = dir.join("A.otr");
    let bad = dir.join("bad.txt");
    let c = dir.join("C.o2r");
    let err = run_batch(&[(a, false), (bad, false), (c, false)]).unwrap_err();
    assert!(err.contains("bad.txt"), "error should name the failing path: {err}");
    assert!(err.contains("1 of 3"), "error should say how many applied: {err}");
}

#[test]
fn batch_happy_path_returns_new_paths() {
    let dir = Path::new("/library");
    let out = run_batch(&[(dir.join("A.otr"), false), (dir.join("B.o2r"), false)]).unwrap();
    assert_eq!(out, vec![dir.join("A.disabled"), dir.join("B.di2abled")]);
}

#[test]
fn planned_renames_round_trip() {
    let p = Path::new("/library/Sword.otr");
    let off = planned(p, false).unwrap();
    assert_eq!(off, Path::new("/library/Sword.disabled"));
    assert_eq!(planned(&off, true).unwrap(), p);
    let q = Path::new("/library/Pack.o2r");
    let off = planned(q, false).unwrap();
    assert_eq!(off, Path::new("/library/Pack.di2abled"));
    assert_eq!(planned(&off, true).unwrap(), q);
    assert_eq!(planned(p, true).unwrap(), p);
}

#[test]
fn batch_steps_through_changes_and_stops_at_the_first_failure() {
    let step = set_enabled_batch(3, vec![], None);
    let done = match step {
        BatchStep::Apply { index: 0, done } => done,
        _ => panic!("expected to apply change 0"),
    };
    let step = set_enabled_batch(3, done, Some(Ok("/m/A.disabled".into())));
    let done = match step {
        BatchStep::Apply { index: 1, done } => done,
        _ => panic!("expected to apply change 1"),
    };
    assert_eq!(done, vec!["/m/A.disabled".to_string()]);
    match set_enabled_batch(3, done, Some(Err("not a mod file: bad.txt".into()))) {
        BatchStep::Failed(m) => {
            assert_eq!(m, "not a mod file: bad.txt; 1 of 3 changes applied before this failure");
            assert!(m.contains("1 of 3"));
        }
        _ => panic!("expected a failure"),
    }
}

#[test]
fn batch_finishes_with_the_new_paths_in_order() {
    match set_enabled_batch(0, vec![], None) {
        BatchStep::Finished(d) => assert!(d.is_empty()),
        _ => panic!("an empty batch is finished"),
    }
    let done = vec!["/m/A.disabled".to_string()];
    match set_enabled_batch(2, done, Some(Ok("/m/B.di2abled".into()))) {
        BatchStep::Finished(d) => {
            assert_eq!(d, vec!["/m/A.disabled".to_string(), "/m/B.di2abled".to_string()])
        }
        _ => panic!("expected the batch to finish"),
    }
}
