//! Turning the files of a mods folder into [`ModFile`]s.

use vstd::prelude::*;
use crate::formats::{FormatError, fault, fault_text, list_zip_assets, names_outcome, zip_listing};
use crate::formats::mpq::{list_mpq_assets, listing_outcome, mpq_listing};
use crate::json::{Json, get, get_member};
use crate::model::{AssetSet, ModFile, text_set};
use crate::text::{same_text, texts};
use crate::toggle::{ascii_lower, to_ascii_lower};

verus! {

/// What a file's extension says of it, ASCII case aside: whether the mod
/// is enabled, and whether the archive is MPQ (else ZIP). Other files are
/// not mods.
pub open spec fn archive_kind(ext: Seq<char>) -> Option<(bool, bool)> {
    let e = ascii_lower(ext);
    if e == "otr"@ {
        Some((true, true))
    } else if e == "o2r"@ {
        Some((true, false))
    } else if e == "disabled"@ {
        Some((false, true))
    } else if e == "di2abled"@ {
        Some((false, false))
    } else {
        None
    }
}

/// Whether a file with extension `ext` is an enabled mod and an MPQ
/// archive, or `None` when it is not a mod file.
pub fn classify(ext: &str) -> (r: Option<(bool, bool)>)
    ensures
        r == archive_kind(ext@),
{
    let e = to_ascii_lower(ext);
    if same_text(e.as_str(), "otr") {
        Some((true, true))
    } else if same_text(e.as_str(), "o2r") {
        Some((true, false))
    } else if same_text(e.as_str(), "disabled") {
        Some((false, true))
    } else if same_text(e.as_str(), "di2abled") {
        Some((false, false))
    } else {
        None
    }
}

/// The GameBanana mod id of a `.sailswift.json` sidecar, if it has one.
pub open spec fn sidecar_id(root: Json) -> Option<u64> {
    match get(root, "gameBananaModId"@) {
        Some(Json::Number(n)) => n.as_u64,
        _ => None,
    }
}

/// Reads `gameBananaModId` out of a folder's sidecar document.
pub fn gamebanana_id(sidecar: &Json) -> (r: Option<u64>)
    ensures
        r == sidecar_id(*sidecar),
{
    match get_member(sidecar, "gameBananaModId") {
        Some(Json::Number(n)) => n.as_u64,
        _ => None,
    }
}

/// What listing an archive gives.
pub open spec fn archive_listing(is_mpq: bool, data: Seq<u8>) -> Result<Seq<Seq<char>>, crate::formats::Fault> {
    if is_mpq {
        mpq_listing(data)
    } else {
        zip_listing(data)
    }
}

/// Lists the assets of an archive's bytes, as MPQ or as ZIP.
pub fn list_archive(is_mpq: bool, data: Vec<u8>) -> (r: Result<Vec<String>, FormatError>)
    ensures
        names_outcome(r) == archive_listing(is_mpq, data@),
{
    if is_mpq {
        let r = list_mpq_assets(data.as_slice());
        assert(names_outcome(r) == listing_outcome(r));
        r
    } else {
        list_zip_assets(data)
    }
}

/// The mod found at `path`: its assets when the archive could be listed,
/// else no assets and the reason as a message.
pub fn mod_file(path: String, name: String, enabled: bool, listed: Result<Vec<String>, FormatError>, gamebanana_mod_id: Option<u64>) -> (m: ModFile)
    ensures
        m.path == path,
        m.name == name,
        m.enabled == enabled,
        m.gamebanana_mod_id == gamebanana_mod_id,
        match listed {
            Ok(v) => text_set(m.assets@) == text_set(texts(v@)) && m.error is None,
            Err(e) => m.assets@.len() == 0 && (m.error matches Some(s) && s@ == fault_text(fault(e))),
        },
{
    let (assets, error) = match listed {
        Ok(list) => (AssetSet::from_vec(list), None),
        Err(e) => (AssetSet::new(), Some(e.message())),
    };
    ModFile { path, name, enabled, assets, error, gamebanana_mod_id }
}

} // verus!
