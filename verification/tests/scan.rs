use std::io::Write;

use manifest_core::formats::{list_zip_assets, FormatError};
use manifest_core::json::{Json, JsonNumber};
use manifest_core::scan::{classify, gamebanana_id, list_archive, mod_file};

fn zip_bytes(entries: &[&str], dirs: &[&str]) -> Vec<u8> {
    let mut z = zip::ZipWriter::new(std::io::Cursor::new(Vec::new()));
    let opts = zip::write::SimpleFileOptions::default();
    for d in dirs {
        z.add_directory(*d, opts).unwrap();
    }
    for e in entries {
        z.start_file(*e, opts).unwrap();
        z.write_all(b"x").unwrap();
    }
    z.finish().unwrap().into_inner()
}

#[test]
fn lists_zip_file_entries_without_directories() {
    let bytes = zip_bytes(&["alt/objects/gSwordTex", "alt/objects/gShieldTex"], &["alt/"]);
    assert_eq!(
        list_zip_assets(bytes).unwrap(),
        vec!["alt/objects/gShieldTex".to_string(), "alt/objects/gSwordTex".to_string()]
    );
}

#[test]
fn corrupt_zip_reports_error_not_panic() {
    assert!(matches!(list_zip_assets(b"PK\x03\x04 not really a zip".to_vec()), Err(FormatError::Corrupt(_))));
}

#[test]
fn archives_are_classified_by_extension() {
    assert_eq!(classify("otr"), Some((true, true)));
    assert_eq!(classify("O2R"), Some((true, false)));
    assert_eq!(classify("Disabled"), Some((false, true)));
    assert_eq!(classify("di2abled"), Some((false, false)));
    assert_eq!(classify("txt"), None);
    assert_eq!(classify(""), None);
}

#[test]
fn sidecar_ids_are_read_when_they_are_numbers() {
    let doc = Json::Object(vec![
        ("gameBananaName".into(), Json::String("Some Mod".into())),
        ("gameBananaModId".into(), Json::Number(JsonNumber { text: "123".into(), as_u64: Some(123) })),
    ]);
    assert_eq!(gamebanana_id(&doc), Some(123));
    let text = Json::Object(vec![("gameBananaModId".into(), Json::String("123".into()))]);
    assert_eq!(gamebanana_id(&text), None);
    assert_eq!(gamebanana_id(&Json::Null), None);
}

#[test]
fn mod_files_keep_the_listing_or_its_error() {
    let ok = mod_file("/m/Shield.o2r".into(), "Shield".into(), true, Ok(vec!["b".into(), "a".into(), "b".into()]), Some(7));
    assert_eq!(ok.assets.to_vec(), vec!["a".to_string(), "b".to_string()]);
    assert_eq!(ok.error, None);
    assert_eq!(ok.gamebanana_mod_id, Some(7));
    let broken = mod_file(
        "/m/Broken.otr".into(),
        "Broken".into(),
        true,
        Err(FormatError::NotAnArchive("no MPQ header".into())),
        None,
    );
    assert!(broken.assets.is_empty());
    assert_eq!(broken.error.as_deref(), Some("not an archive: no MPQ header"));
}

#[test]
fn archives_are_listed_by_their_format() {
    let bytes = zip_bytes(&["alt/gB"], &[]);
    assert_eq!(list_archive(false, bytes.clone()).unwrap(), vec!["alt/gB".to_string()]);
    assert!(matches!(list_archive(true, bytes), Err(FormatError::NotAnArchive(_))));
}
