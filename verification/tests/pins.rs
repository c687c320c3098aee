use manifest_core::json::{Json, JsonNumber};
use manifest_core::pins::{default_pins_path, pins_from_json, pins_to_json, PINS_SCHEMA_VERSION};
use manifest_core::sort::Pins;

fn obj(fields: Vec<(&str, Json)>) -> Json {
    Json::Object(fields.into_iter().map(|(k, v)| (k.to_string(), v)).collect())
}

fn num(text: &str, v: Option<u64>) -> Json {
    Json::Number(JsonNumber { text: text.into(), as_u64: v })
}

fn strs(v: &[&str]) -> Json {
    Json::Array(v.iter().map(|s| Json::String(s.to_string())).collect())
}

#[test]
fn default_pins_path_is_sibling_of_config() {
    let config = "/some/dir/shipofharkinian.json";
    assert_eq!(
        std::path::PathBuf::from(default_pins_path(config)),
        std::path::PathBuf::from("/some/dir/manifest-pins.json")
    );
}

#[test]
fn write_then_read_round_trips() {
    let pins = Pins { top: vec!["Alpha".to_string()], bottom: vec!["Zulu".to_string(), "Yankee".to_string()] };
    let doc = pins_to_json(&pins);
    assert_eq!(pins_from_json(&doc).unwrap(), pins);
    match &doc {
        Json::Object(f) => {
            assert_eq!(f[0].0, "schema_version");
            match &f[0].1 {
                Json::Number(n) => assert_eq!(n.as_u64, Some(1)),
                _ => panic!("schema_version is a number"),
            }
        }
        _ => panic!("the document is an object"),
    }
    assert_eq!(PINS_SCHEMA_VERSION, 1);
}

#[test]
fn read_rejects_non_object_root() {
    let err = pins_from_json(&Json::Array(vec![num("1", Some(1)), num("2", Some(2))])).unwrap_err();
    assert!(err.contains("root"), "error should name the root: {err}");
}

#[test]
fn read_rejects_non_array_top() {
    let doc = obj(vec![("schema_version", num("1", Some(1))), ("top", Json::String("Alpha".into()))]);
    let err = pins_from_json(&doc).unwrap_err();
    assert_eq!(err, "pins top is not an array");
}

#[test]
fn read_rejects_non_string_entry() {
    let doc = obj(vec![("schema_version", num("1", Some(1))), ("bottom", Json::Array(vec![num("7", Some(7))]))]);
    let err = pins_from_json(&doc).unwrap_err();
    assert_eq!(err, "pins bottom contains a non-string entry");
}

#[test]
fn read_rejects_non_number_schema_version() {
    let doc = obj(vec![("schema_version", Json::String("one".into())), ("top", strs(&[]))]);
    assert_eq!(pins_from_json(&doc).unwrap_err(), "pins schema_version is not a number");
    let negative = obj(vec![("schema_version", num("-1", None))]);
    assert_eq!(pins_from_json(&negative).unwrap_err(), "pins schema_version is not a number");
}

#[test]
fn missing_keys_read_as_empty_lists() {
    let doc = obj(vec![("schema_version", num("1", Some(1)))]);
    assert_eq!(pins_from_json(&doc).unwrap(), Pins::default());
    assert_eq!(pins_from_json(&obj(vec![])).unwrap(), Pins::default());
}

#[test]
fn top_is_checked_before_bottom() {
    let doc = obj(vec![("bottom", Json::Null), ("top", Json::Bool(true))]);
    assert_eq!(pins_from_json(&doc).unwrap_err(), "pins top is not an array");
}

#[test]
fn default_pins_path_of_relative_config() {
    assert_eq!(
        std::path::PathBuf::from(default_pins_path("games/soh/shipofharkinian.json")),
        std::path::PathBuf::from("games/soh/manifest-pins.json")
    );
    assert_eq!(
        std::path::PathBuf::from(default_pins_path("shipofharkinian.json")),
        std::path::PathBuf::from("manifest-pins.json")
    );
}
