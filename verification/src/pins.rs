//! The pins file, `manifest-pins.json`, kept next to the game's config:
//! `{"schema_version": 1, "top": [...], "bottom": [...]}`.

use vstd::prelude::*;
use crate::json::{Json, JsonNumber, member, get, get_member, is_u64, all_strings, strings_in, string_values};
use crate::sort::Pins;
use crate::text::{texts, push_str, string_from_chars};
use crate::paths::{is_sep, is_dots, plain_name, splits_plain};

verus! {

/// The version of the pins file's layout.
pub const PINS_SCHEMA_VERSION: u32 = 1;

/// `std::path::Path::with_file_name`, as text, for a plain file name:
/// `path` with its last component replaced by `name`, or followed by it
/// where it has none. Stated: the result ends with `name`; and where
/// `path` is a plain folder, a `/` and a plain file name, the result is
/// that folder, one separator and `name` (`Path::pop` cuts the last
/// component and the `/` before it; `PathBuf::push` adds the platform's
/// separator after a folder that does not end in one). Which separator
/// that is depends on the platform, and is not stated.
#[verifier::external_body]
fn with_file_name(path: &str, name: &str) -> (r: String)
    requires
        plain_name(name@),
    ensures
        r@.len() >= name@.len(),
        r@.skip(r@.len() - name@.len()) == name@,
        forall|d: Seq<char>, f: Seq<char>| #[trigger] splits_plain(path@, d, f) ==> sibling_of(r@, d, name@),
{
    std::path::Path::new(path).with_file_name(name).to_string_lossy().into_owned()
}

/// `r` is the folder `d`, one separator and the file name `name`.
pub open spec fn sibling_of(r: Seq<char>, d: Seq<char>, name: Seq<char>) -> bool {
    &&& r.len() == d.len() + 1 + name.len()
    &&& is_sep(r[d.len() as int])
    &&& r =~= d + seq![r[d.len() as int]] + name
}

/// The pins file that belongs to a config file: its sibling named
/// `manifest-pins.json`. For a config path that is a plain folder, a `/`
/// and a plain file name, that is the folder, one separator and
/// `manifest-pins.json`.
pub fn default_pins_path(config_path: &str) -> (r: String)
    ensures
        r@.len() >= "manifest-pins.json"@.len(),
        r@.skip(r@.len() - "manifest-pins.json"@.len()) == "manifest-pins.json"@,
        forall|d: Seq<char>, f: Seq<char>| #[trigger] splits_plain(config_path@, d, f)
            ==> sibling_of(r@, d, "manifest-pins.json"@),
{
    proof {
        reveal_strlit("manifest-pins.json");
        assert(!is_dots("manifest-pins.json"@));
    }
    with_file_name(config_path, "manifest-pins.json")
}

/// What the pin list `key` of the pins document gives: nothing when it
/// is absent, its strings when it is an array of strings.
pub open spec fn pin_list(root: Json, key: Seq<char>) -> Result<Seq<Seq<char>>, Seq<char>> {
    match get(root, key) {
        None => Ok(Seq::empty()),
        Some(Json::Array(items)) => match all_strings(items@) {
            Some(t) => Ok(t),
            None => Err("pins "@ + key + " contains a non-string entry"@),
        },
        Some(_) => Err("pins "@ + key + " is not an array"@),
    }
}

/// What a pins document gives: the top and bottom lists, or why not.
pub open spec fn pins_read(root: Json) -> Result<(Seq<Seq<char>>, Seq<Seq<char>>), Seq<char>> {
    if !(root is Object) {
        Err("pins root is not a JSON object"@)
    } else if get(root, "schema_version"@) matches Some(v) && !is_u64(v) {
        Err("pins schema_version is not a number"@)
    } else {
        match pin_list(root, "top"@) {
            Err(e) => Err(e),
            Ok(t) => match pin_list(root, "bottom"@) {
                Err(e) => Err(e),
                Ok(b) => Ok((t, b)),
            },
        }
    }
}

/// The plain value of a pins outcome.
pub open spec fn pins_outcome(r: Result<Pins, String>) -> Result<(Seq<Seq<char>>, Seq<Seq<char>>), Seq<char>> {
    match r {
        Ok(p) => Ok((texts(p.top@), texts(p.bottom@))),
        Err(e) => Err(e@),
    }
}

fn pin_list_of(root: &Json, key: &str) -> (r: Result<Vec<String>, String>)
    ensures
        match r {
            Ok(v) => pin_list(*root, key@) == Ok::<Seq<Seq<char>>, Seq<char>>(texts(v@)),
            Err(e) => pin_list(*root, key@) == Err::<Seq<Seq<char>>, Seq<char>>(e@),
        },
{
    match get_member(root, key) {
        None => {
            let v: Vec<String> = Vec::new();
            assert(texts(v@) =~= Seq::<Seq<char>>::empty());
            Ok(v)
        },
        Some(Json::Array(items)) => match strings_in(items) {
            Some(v) => Ok(v),
            None => {
                let mut msg: Vec<char> = Vec::new();
                push_str(&mut msg, "pins ");
                push_str(&mut msg, key);
                push_str(&mut msg, " contains a non-string entry");
                Err(string_from_chars(msg.as_slice()))
            },
        },
        Some(_) => {
            let mut msg: Vec<char> = Vec::new();
            push_str(&mut msg, "pins ");
            push_str(&mut msg, key);
            push_str(&mut msg, " is not an array");
            Err(string_from_chars(msg.as_slice()))
        },
    }
}

/// Reads the pins out of a pins document: the root must be an object, a
/// `schema_version` present must be a number, and `top` and `bottom`, when
/// present, arrays of strings; absent lists are empty.
pub fn pins_from_json(root: &Json) -> (r: Result<Pins, String>)
    ensures
        pins_outcome(r) == pins_read(*root),
{
    match root {
        Json::Object(_) => {},
        _ => return Err("pins root is not a JSON object".to_owned()),
    }
    match get_member(root, "schema_version") {
        Some(v) => {
            let ok = match v {
                Json::Number(n) => n.as_u64.is_some(),
                _ => false,
            };
            if !ok {
                return Err("pins schema_version is not a number".to_owned());
            }
        },
        None => {},
    }
    let top = match pin_list_of(root, "top") {
        Ok(v) => v,
        Err(e) => return Err(e),
    };
    let bottom = match pin_list_of(root, "bottom") {
        Ok(v) => v,
        Err(e) => return Err(e),
    };
    Ok(Pins { top, bottom })
}

/// `j` is the pins document for the lists `top` and `bottom`:
/// `schema_version` 1, then the two lists as arrays of strings.
pub open spec fn pins_document(j: Json, top: Seq<Seq<char>>, bottom: Seq<Seq<char>>) -> bool {
    &&& j matches Json::Object(f)
    &&& f@.len() == 3
    &&& f@[0].0@ == "schema_version"@
    &&& f@[0].1 matches Json::Number(n) && n.as_u64 == Some(1u64) && n.text@ == "1"@
    &&& f@[1].0@ == "top"@
    &&& f@[1].1 matches Json::Array(a) && all_strings(a@) == Some(top)
    &&& f@[2].0@ == "bottom"@
    &&& f@[2].1 matches Json::Array(b) && all_strings(b@) == Some(bottom)
}

/// The pins document for `pins`.
pub fn pins_to_json(pins: &Pins) -> (j: Json)
    ensures
        pins_document(j, texts(pins.top@), texts(pins.bottom@)),
{
    let version = Json::Number(JsonNumber { text: "1".to_owned(), as_u64: Some(1) });
    let mut fields: Vec<(String, Json)> = Vec::new();
    fields.push(("schema_version".to_owned(), version));
    fields.push(("top".to_owned(), Json::Array(string_values(&pins.top))));
    fields.push(("bottom".to_owned(), Json::Array(string_values(&pins.bottom))));
    Json::Object(fields)
}

proof fn lemma_pin_keys_distinct()
    ensures
        "schema_version"@ != "top"@,
        "schema_version"@ != "bottom"@,
        "top"@ != "bottom"@,
{
    reveal_strlit("schema_version");
    reveal_strlit("top");
    reveal_strlit("bottom");
    assert("schema_version"@.len() != "top"@.len());
    assert("schema_version"@.len() != "bottom"@.len());
    assert("top"@.len() != "bottom"@.len());
}

/// Reading back what was written gives the same pins: the document that
/// `pins_to_json` builds reads as its two lists.
pub proof fn law_pins_round_trip(j: Json, top: Seq<Seq<char>>, bottom: Seq<Seq<char>>)
    requires
        pins_document(j, top, bottom),
    ensures
        pins_read(j) == Ok::<(Seq<Seq<char>>, Seq<Seq<char>>), Seq<char>>((top, bottom)),
{
    lemma_pin_keys_distinct();
    let f = j->Object_0@;
    let f1 = f.drop_first();
    let f2 = f1.drop_first();
    assert(f1[0] == f[1]);
    assert(f2[0] == f[2]);
    assert(member(f, "schema_version"@) == Some(f[0].1));
    assert(member(f1, "top"@) == Some(f[1].1));
    assert(member(f, "top"@) == Some(f[1].1));
    assert(member(f2, "bottom"@) == Some(f[2].1));
    assert(member(f1, "bottom"@) == Some(f[2].1));
    assert(member(f, "bottom"@) == Some(f[2].1));
}

/// The member `key` of `root` is an array of exactly the strings `s`.
pub open spec fn strings_under(root: Json, key: Seq<char>, s: Seq<Seq<char>>) -> bool {
    get(root, key) matches Some(Json::Array(a)) && all_strings(a@) == Some(s)
}

/// Reading a pins document that lists `top` under the key "top" and
/// `bottom` under the key "bottom" gives exactly those lists, each in its
/// own place.
pub proof fn law_pins_read_by_key(root: Json, top: Seq<Seq<char>>, bottom: Seq<Seq<char>>)
    requires
        root is Object,
        get(root, "schema_version"@) matches Some(v) ==> is_u64(v),
        strings_under(root, "top"@, top),
        strings_under(root, "bottom"@, bottom),
    ensures
        pins_read(root) == Ok::<(Seq<Seq<char>>, Seq<Seq<char>>), Seq<char>>((top, bottom)),
{
}

/// Whatever a pins document reads as, its top list is what the document
/// holds under "top" (nothing when the key is absent) and its bottom list
/// what it holds under "bottom".
pub proof fn law_pins_read_lists_from_keys(root: Json, top: Seq<Seq<char>>, bottom: Seq<Seq<char>>)
    requires
        pins_read(root) == Ok::<(Seq<Seq<char>>, Seq<Seq<char>>), Seq<char>>((top, bottom)),
    ensures
        get(root, "top"@) is None ==> top.len() == 0,
        get(root, "top"@) is Some ==> strings_under(root, "top"@, top),
        get(root, "bottom"@) is None ==> bottom.len() == 0,
        get(root, "bottom"@) is Some ==> strings_under(root, "bottom"@, bottom),
{
}

/// The document written for some pins holds the top list under "top", the
/// bottom list under "bottom", and the number 1 under "schema_version".
pub proof fn law_pins_written_by_key(j: Json, top: Seq<Seq<char>>, bottom: Seq<Seq<char>>)
    requires
        pins_document(j, top, bottom),
    ensures
        strings_under(j, "top"@, top),
        strings_under(j, "bottom"@, bottom),
        get(j, "schema_version"@) matches Some(Json::Number(n)) && n.as_u64 == Some(1u64),
{
    lemma_pin_keys_distinct();
    let f = j->Object_0@;
    let f1 = f.drop_first();
    let f2 = f1.drop_first();
    assert(f1[0] == f[1]);
    assert(f2[0] == f[2]);
    assert(member(f, "schema_version"@) == Some(f[0].1));
    assert(member(f1, "top"@) == Some(f[1].1));
    assert(member(f, "top"@) == Some(f[1].1));
    assert(member(f2, "bottom"@) == Some(f[2].1));
    assert(member(f1, "bottom"@) == Some(f[2].1));
    assert(member(f, "bottom"@) == Some(f[2].1));
}

/// An outcome that reads as the lists `top` and `bottom` holds exactly
/// those lists in its `top` and `bottom` fields.
pub proof fn law_pins_outcome_fields(r: Result<Pins, String>, top: Seq<Seq<char>>, bottom: Seq<Seq<char>>)
    requires
        pins_outcome(r) == Ok::<(Seq<Seq<char>>, Seq<Seq<char>>), Seq<char>>((top, bottom)),
    ensures
        r matches Ok(p) && texts(p.top@) == top && texts(p.bottom@) == bottom,
{
}

} // verus!
