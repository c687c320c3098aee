//! Enabling and disabling mod files by renaming them between the community
//! extensions: `otr` <-> `disabled` (MPQ), `o2r` <-> `di2abled` (ZIP). The
//! disabled extension keeps the original format, so renames round-trip
//! with no side records. Files are only ever renamed, never deleted,
//! moved or edited.

use vstd::prelude::*;
use crate::text::{same_text, push_str, push_decimal, decimal, string_from_chars};

verus! {

/// The extension a mod file takes in the requested state: `None` when it
/// is already in that state or the extension is not a mod extension.
pub open spec fn target_ext(ext: Seq<char>, enabled: bool) -> Option<Seq<char>> {
    if ext == "otr"@ && !enabled {
        Some("disabled"@)
    } else if ext == "o2r"@ && !enabled {
        Some("di2abled"@)
    } else if ext == "disabled"@ && enabled {
        Some("otr"@)
    } else if ext == "di2abled"@ && enabled {
        Some("o2r"@)
    } else {
        None
    }
}

/// The extensions of mod files, enabled or not.
pub open spec fn known_ext(ext: Seq<char>) -> bool {
    ext == "otr"@ || ext == "o2r"@ || ext == "disabled"@ || ext == "di2abled"@
}

/// The extension to rename to, if a rename is needed.
pub fn target_extension(ext: &str, enabled: bool) -> (r: Option<&'static str>)
    ensures
        match r {
            Some(t) => target_ext(ext@, enabled) == Some(t@),
            None => target_ext(ext@, enabled) is None,
        },
{
    if !enabled && same_text(ext, "otr") {
        Some("disabled")
    } else if !enabled && same_text(ext, "o2r") {
        Some("di2abled")
    } else if enabled && same_text(ext, "disabled") {
        Some("otr")
    } else if enabled && same_text(ext, "di2abled") {
        Some("o2r")
    } else {
        None
    }
}

/// Whether `ext` is a mod file extension.
pub fn is_known(ext: &str) -> (r: bool)
    ensures
        r == known_ext(ext@),
{
    same_text(ext, "otr") || same_text(ext, "o2r") || same_text(ext, "disabled") || same_text(ext, "di2abled")
}

/// ASCII letters in lower case, other characters unchanged.
pub open spec fn ascii_lower(s: Seq<char>) -> Seq<char> {
    s.map_values(|c: char| if 'A' <= c <= 'Z' { ((c as u32) + 32) as char } else { c })
}

/// `s` with its ASCII letters in lower case.
pub fn to_ascii_lower(s: &str) -> (r: String)
    ensures
        r@ == ascii_lower(s@),
{
    let mut out: Vec<char> = Vec::new();
    for c in it: s.chars()
        invariant
            it.seq() == s@,
            out@ == ascii_lower(s@.take(it.index())),
    {
        let d: char = if 'A' <= c && c <= 'Z' { ((c as u8) + 32) as char } else { c };
        proof {
            assert(d == if 'A' <= c <= 'Z' { ((c as u32) + 32) as char } else { c });
            assert(ascii_lower(s@.take(it.index() + 1)) =~= ascii_lower(s@.take(it.index())).push(d));
        }
        out.push(d);
    }
    assert(s@.take(s@.len() as int) =~= s@);
    string_from_chars(out.as_slice())
}

/// What toggling a file asks for.
pub open spec fn toggle_plan(path: Seq<char>, ext: Seq<char>, enabled: bool) -> Result<Option<Seq<char>>, Seq<char>> {
    let e = ascii_lower(ext);
    if !known_ext(e) {
        Err("not a mod file (expected otr/o2r/disabled/di2abled): "@ + path)
    } else {
        Ok(target_ext(e, enabled))
    }
}

/// The plain value of a toggle decision.
pub open spec fn plan_view(r: Result<Option<&'static str>, String>) -> Result<Option<Seq<char>>, Seq<char>> {
    match r {
        Ok(Some(t)) => Ok(Some(t@)),
        Ok(None) => Ok(None),
        Err(e) => Err(e@),
    }
}

/// Decides how to bring the file at `path`, whose extension is `ext`
/// (empty when it has none), into the requested state: an error when it is
/// not a mod file, no rename when it is already there, or the extension
/// to rename it to. Extensions are compared without regard to ASCII case.
pub fn plan_toggle(path: &str, ext: &str, enabled: bool) -> (r: Result<Option<&'static str>, String>)
    ensures
        plan_view(r) == toggle_plan(path@, ext@, enabled),
{
    let lower = to_ascii_lower(ext);
    if !is_known(lower.as_str()) {
        let mut msg: Vec<char> = Vec::new();
        push_str(&mut msg, "not a mod file (expected otr/o2r/disabled/di2abled): ");
        push_str(&mut msg, path);
        return Err(string_from_chars(msg.as_slice()));
    }
    Ok(target_extension(lower.as_str(), enabled))
}

/// The refusal when the renamed file would replace another.
pub fn target_exists_message(target: &str) -> (r: String)
    ensures
        r@ == "refusing to rename, target already exists: "@ + target@,
{
    let mut msg: Vec<char> = Vec::new();
    push_str(&mut msg, "refusing to rename, target already exists: ");
    push_str(&mut msg, target);
    string_from_chars(msg.as_slice())
}

/// The failure of a rename, with the path it was renaming.
pub fn rename_failed_message(error: &str, path: &str) -> (r: String)
    ensures
        r@ == error@ + " (renaming "@ + path@ + ")"@,
{
    let mut msg: Vec<char> = Vec::new();
    push_str(&mut msg, error);
    push_str(&mut msg, " (renaming ");
    push_str(&mut msg, path);
    push_str(&mut msg, ")");
    string_from_chars(msg.as_slice())
}

/// The next step of a batch of changes applied in order.
#[derive(Debug)]
pub enum BatchStep {
    /// Apply change number `index`; `done` holds the new paths so far.
    Apply { index: usize, done: Vec<String> },
    /// Every change applied: the new paths, in order.
    Finished(Vec<String>),
    /// A change failed: its error, and how many applied before it.
    Failed(String),
}

/// The failure of change number `applied` of `total`.
pub open spec fn batch_failure(error: Seq<char>, applied: nat, total: nat) -> Seq<char> {
    error + "; "@ + decimal(applied) + " of "@ + decimal(total) + " changes applied before this failure"@
}

/// The step after `done` paths when the batch has `total` changes.
pub open spec fn continue_or_finish(total: nat, done: Seq<Seq<char>>, step: BatchStep) -> bool {
    if done.len() == total {
        step matches BatchStep::Finished(d) && crate::text::texts(d@) == done
    } else {
        step matches BatchStep::Apply { index, done: d } && index == done.len() && crate::text::texts(d@) == done
    }
}

/// Drives a batch of `total` changes applied in order, stopping at the
/// first failure. `done` holds the new paths of the changes applied so
/// far; `outcome` is what the latest change gave, or `None` to start.
pub fn set_enabled_batch(total: usize, done: Vec<String>, outcome: Option<Result<String, String>>) -> (r: BatchStep)
    requires
        outcome is None ==> done@.len() <= total,
        outcome is Some ==> done@.len() < total,
    ensures
        match outcome {
            None => continue_or_finish(total as nat, crate::text::texts(done@), r),
            Some(Ok(p)) => continue_or_finish(total as nat, crate::text::texts(done@).push(p@), r),
            Some(Err(e)) => r matches BatchStep::Failed(m) && m@ == batch_failure(e@, done@.len(), total as nat),
        },
{
    match outcome {
        None => {
            if done.len() == total {
                BatchStep::Finished(done)
            } else {
                BatchStep::Apply { index: done.len(), done }
            }
        },
        Some(Ok(p)) => {
            let mut done = done;
            let ghost before = done@;
            let ghost pv = p@;
            done.push(p);
            assert(crate::text::texts(done@) =~= crate::text::texts(before).push(pv));
            if done.len() == total {
                BatchStep::Finished(done)
            } else {
                BatchStep::Apply { index: done.len(), done }
            }
        },
        Some(Err(e)) => {
            let mut msg: Vec<char> = Vec::new();
            push_str(&mut msg, e.as_str());
            push_str(&mut msg, "; ");
            push_decimal(&mut msg, done.len() as u64);
            push_str(&mut msg, " of ");
            push_decimal(&mut msg, total as u64);
            push_str(&mut msg, " changes applied before this failure");
            BatchStep::Failed(string_from_chars(msg.as_slice()))
        },
    }
}

proof fn lemma_mod_exts_distinct()
    ensures
        "otr"@ != "o2r"@,
        "otr"@ != "disabled"@,
        "otr"@ != "di2abled"@,
        "o2r"@ != "disabled"@,
        "o2r"@ != "di2abled"@,
        "disabled"@ != "di2abled"@,
{
    reveal_strlit("otr");
    reveal_strlit("o2r");
    reveal_strlit("disabled");
    reveal_strlit("di2abled");
    assert("otr"@[1] != "o2r"@[1]);
    assert("otr"@.len() != "disabled"@.len());
    assert("otr"@.len() != "di2abled"@.len());
    assert("o2r"@.len() != "disabled"@.len());
    assert("o2r"@.len() != "di2abled"@.len());
    assert("disabled"@[2] != "di2abled"@[2]);
}

/// Renames round-trip: disabling a mod file and enabling it again brings
/// back its extension, and so does enabling a disabled one and disabling
/// it again.
pub proof fn law_toggle_round_trip(ext: Seq<char>, enabled: bool)
    requires
        known_ext(ext),
        target_ext(ext, !enabled) is Some,
    ensures
        target_ext(target_ext(ext, !enabled)->0, enabled) == Some(ext),
{
    lemma_mod_exts_distinct();
}

/// A file already in the requested state needs no rename.
pub proof fn law_toggle_idempotent(ext: Seq<char>, enabled: bool)
    requires
        known_ext(ext),
        target_ext(ext, enabled) is Some,
    ensures
        target_ext(target_ext(ext, enabled)->0, enabled) is None,
{
    lemma_mod_exts_distinct();
}

} // verus!
