use manifest_core::config::{join_order, order_from_json, set_enabled_mods};
use manifest_core::json::{Json, JsonNumber};

fn obj(fields: Vec<(&str, Json)>) -> Json {
    Json::Object(fields.into_iter().map(|(k, v)| (k.to_string(), v)).collect())
}

fn num(text: &str, v: Option<u64>) -> Json {
    Json::Number(JsonNumber { text: text.into(), as_u64: v })
}

fn full() -> Json {
    obj(vec![
        ("ConfigVersion", Json::String("1.0".into())),
        ("Window", obj(vec![("Width", num("1920", Some(1920)))])),
        (
            "CVars",
            obj(vec![
                (
                    "gSettings",
                    obj(vec![
                        ("AltAssets", num("1", Some(1))),
                        ("EnabledMods", Json::String("A|B".into())),
                        ("BootSequence", num("2", Some(2))),
                    ]),
                ),
                ("gEnhancements", obj(vec![("FastText", num("1", Some(1)))])),
            ]),
        ),
        ("Audio", obj(vec![("Master", num("0.8", None))])),
    ])
}

fn member<'a>(v: &'a Json, key: &str) -> &'a Json {
    match v {
        Json::Object(f) => &f.iter().find(|(k, _)| k == key).unwrap().1,
        _ => panic!("not an object"),
    }
}

fn text(v: &Json) -> &str {
    match v {
        Json::String(s) => s,
        _ => panic!("not a string"),
    }
}

fn number(v: &Json) -> &str {
    match v {
        Json::Number(n) => &n.text,
        _ => panic!("not a number"),
    }
}

#[test]
fn read_order_parses_pipe_list() {
    assert_eq!(order_from_json(&full()), vec!["A".to_string(), "B".to_string()]);
}

#[test]
fn read_order_drops_empty_names_and_missing_settings() {
    let cfg = obj(vec![("CVars", obj(vec![("gSettings", obj(vec![("EnabledMods", Json::String("|A||B|".into()))]))]))]);
    assert_eq!(order_from_json(&cfg), vec!["A".to_string(), "B".to_string()]);
    let number = obj(vec![("CVars", obj(vec![("gSettings", obj(vec![("EnabledMods", num("3", Some(3)))]))]))]);
    assert_eq!(order_from_json(&number), Vec::<String>::new());
    assert_eq!(order_from_json(&obj(vec![])), Vec::<String>::new());
    assert_eq!(order_from_json(&Json::Null), Vec::<String>::new());
}

#[test]
fn write_order_preserves_unknown_keys() {
    let written = set_enabled_mods(full(), &["B".to_string(), "A".to_string()]).unwrap();
    let cvars = member(&written, "CVars");
    let gsettings = member(cvars, "gSettings");
    assert_eq!(text(member(gsettings, "EnabledMods")), "B|A");
    assert_eq!(text(member(&written, "ConfigVersion")), "1.0");
    assert_eq!(number(member(member(&written, "Window"), "Width")), "1920");
    assert_eq!(number(member(gsettings, "BootSequence")), "2");
    assert_eq!(number(member(member(cvars, "gEnhancements"), "FastText")), "1");
    assert_eq!(number(member(member(&written, "Audio"), "Master")), "0.8");
    assert_eq!(order_from_json(&written), vec!["B".to_string(), "A".to_string()]);
}

#[test]
fn write_order_replaces_pipes_and_fills_null_settings() {
    assert_eq!(join_order(&["a|b".to_string(), "c".to_string()]), "a-b|c");
    assert_eq!(join_order(&[]), "");
    let cfg = obj(vec![("CVars", obj(vec![("gSettings", Json::Null)]))]);
    let written = set_enabled_mods(cfg, &["X".to_string()]).unwrap();
    assert_eq!(order_from_json(&written), vec!["X".to_string()]);
    let appended = set_enabled_mods(
        obj(vec![("CVars", obj(vec![("gSettings", obj(vec![("Other", Json::Bool(true))]))]))]),
        &["Y".to_string()],
    )
    .unwrap();
    assert_eq!(order_from_json(&appended), vec!["Y".to_string()]);
}

#[test]
fn write_order_refuses_configs_without_settings() {
    for cfg in [obj(vec![]), obj(vec![("CVars", Json::Array(vec![]))]), Json::Array(vec![]), obj(vec![("CVars", obj(vec![]))])] {
        assert_eq!(
            set_enabled_mods(cfg, &["A".to_string()]).unwrap_err(),
            "config has no CVars.gSettings object"
        );
    }
}
