//! The full analysis of a library, as one report.

use vstd::prelude::*;
use crate::model::ModFile;
use crate::conflicts::{ConflictGraph, ProviderEntry, graph_of, load_sequence, contested, entry_view};
use crate::sort::{Pins, Move, propose, proposed_order, moves_of, move_view, sort_input};
use crate::warnings::{Warning, detect, warning_view, warnings_of, folders_of_paths, all_plain, plain_folders};
use crate::text::{texts, strings_contain, same_text};

verus! {

/// The version of the report's layout.
pub const SCHEMA_VERSION: u32 = 2;

/// One mod as the report shows it.
pub struct ReportMod {
    pub name: String,
    pub enabled: bool,
    pub asset_count: usize,
    pub error: Option<String>,
    /// `"top"` or `"bottom"` when the mod is pinned there.
    pub pinned: Option<String>,
}

/// One contested asset, its providers in load order and the one that wins.
pub struct ReportConflict {
    pub asset: String,
    pub providers: Vec<String>,
    pub winner: String,
}

/// Everything known about a library and its load order.
pub struct Report {
    pub schema_version: u32,
    pub mods: Vec<ReportMod>,
    pub conflicts: Vec<ReportConflict>,
    pub warnings: Vec<Warning>,
    pub current_order: Vec<String>,
    pub proposed_order: Vec<String>,
    pub moves: Vec<Move>,
}

/// An optional string as optional text.
pub open spec fn option_text(o: Option<String>) -> Option<Seq<char>> {
    match o {
        Some(s) => Some(s@),
        None => None,
    }
}

/// Where `name` is pinned: the top wins when both lists name it.
pub open spec fn pin_label(pins: Pins, name: Seq<char>) -> Option<Seq<char>> {
    if texts(pins.top@).contains(name) {
        Some(seq!['t', 'o', 'p'])
    } else if texts(pins.bottom@).contains(name) {
        Some(seq!['b', 'o', 't', 't', 'o', 'm'])
    } else {
        None
    }
}

/// The report row `r` describes mod `m`.
pub open spec fn mod_row(r: ReportMod, m: ModFile, pins: Pins) -> bool {
    &&& r.name@ == m.name@
    &&& r.enabled == m.enabled
    &&& r.asset_count == m.assets@.len()
    &&& option_text(r.error) == option_text(m.error)
    &&& option_text(r.pinned) == pin_label(pins, m.name@)
}

/// The report row `r` describes the graph entry `e`; the winner is the
/// last provider, or empty where there is none.
pub open spec fn conflict_row(r: ReportConflict, e: (Seq<char>, Seq<Seq<char>>)) -> bool {
    &&& r.asset@ == e.0
    &&& texts(r.providers@) == e.1
    &&& r.winner@ == if e.1.len() > 0 { e.1.last() } else { Seq::<char>::empty() }
}

/// The rows describe the entries one for one.
pub open spec fn conflict_rows(rows: Seq<ReportConflict>, entries: Seq<(Seq<char>, Seq<Seq<char>>)>) -> bool {
    &&& rows.len() == entries.len()
    &&& forall|k: int| 0 <= k < rows.len() ==> conflict_row(#[trigger] rows[k], entries[k])
}

fn pinned_label(pins: &Pins, name: &String) -> (r: Option<String>)
    ensures
        option_text(r) == pin_label(*pins, name@),
{
    if strings_contain(&pins.top, name) {
        proof {
            reveal_strlit("top");
        }
        Some("top".to_owned())
    } else if strings_contain(&pins.bottom, name) {
        proof {
            reveal_strlit("bottom");
        }
        Some("bottom".to_owned())
    } else {
        None
    }
}

fn mod_rows(mods: &[ModFile], pins: &Pins) -> (r: Vec<ReportMod>)
    ensures
        r@.len() == mods@.len(),
        forall|i: int| 0 <= i < mods@.len() ==> mod_row(#[trigger] r@[i], mods@[i], *pins),
{
    let mut rows: Vec<ReportMod> = Vec::new();
    let mut i: usize = 0;
    while i < mods.len()
        invariant
            i <= mods@.len(),
            rows@.len() == i,
            forall|k: int| 0 <= k < i ==> mod_row(#[trigger] rows@[k], mods@[k], *pins),
        decreases mods@.len() - i,
    {
        let m = &mods[i];
        let error = match &m.error {
            Some(e) => Some(e.clone()),
            None => None,
        };
        let row = ReportMod {
            name: m.name.clone(),
            enabled: m.enabled,
            asset_count: m.assets.len(),
            error,
            pinned: pinned_label(pins, &m.name),
        };
        rows.push(row);
        i = i + 1;
    }
    rows
}

fn conflict_rows_of(entries: Vec<ProviderEntry>) -> (r: Vec<ReportConflict>)
    ensures
        conflict_rows(r@, entries@.map_values(|e: ProviderEntry| entry_view(e))),
{
    let ghost ev = entries@.map_values(|e: ProviderEntry| entry_view(e));
    let mut rows: Vec<ReportConflict> = Vec::new();
    let mut i: usize = 0;
    while i < entries.len()
        invariant
            ev == entries@.map_values(|e: ProviderEntry| entry_view(e)),
            i <= entries@.len(),
            rows@.len() == i,
            forall|k: int| 0 <= k < i ==> conflict_row(#[trigger] rows@[k], ev[k]),
        decreases entries@.len() - i,
    {
        let e = &entries[i];
        let n = e.providers.len();
        let winner = if n > 0 {
            e.providers[n - 1].clone()
        } else {
            String::new()
        };
        let providers = crate::text::clone_strings(&e.providers);
        let row = ReportConflict { asset: e.asset.clone(), providers, winner };
        proof {
            assert(ev[i as int] == entry_view(entries@[i as int]));
            if n > 0 {
                assert(texts(e.providers@).last() == e.providers@[n - 1]@);
            }
        }
        rows.push(row);
        i = i + 1;
    }
    rows
}

/// Builds the report: every mod with its pin, the contested assets with
/// their winners, the warnings, and the proposed order with its moves.
pub fn build(mods: &[ModFile], order: &[String], pins: &Pins) -> (r: Report)
    ensures
        r.schema_version == SCHEMA_VERSION,
        r.mods@.len() == mods@.len(),
        forall|i: int| 0 <= i < mods@.len() ==> mod_row(#[trigger] r.mods@[i], mods@[i], *pins),
        exists|g: Seq<(Seq<char>, Seq<Seq<char>>)>| #![trigger contested(g)] {
            &&& graph_of(g, mods@, load_sequence(mods@, texts(order@)))
            &&& conflict_rows(r.conflicts@, contested(g))
            &&& exists|f: Seq<Option<Seq<char>>>| folders_of_paths(mods@, f)
                && r.warnings@.map_values(|w: Warning| warning_view(w)) == warnings_of(mods@, g, f)
            &&& all_plain(mods@) ==> r.warnings@.map_values(|w: Warning| warning_view(w))
                == warnings_of(mods@, g, plain_folders(mods@))
        },
        texts(r.current_order@) == texts(order@),
        texts(r.proposed_order@) == proposed_order(sort_input(mods@, order@, *pins)),
        r.moves@.map_values(|m: Move| move_view(m)) == moves_of(sort_input(mods@, order@, *pins)),
{
    let graph = ConflictGraph::build(mods, order);
    let warnings = detect(mods, order, &graph);
    let sort = propose(mods, order, pins);
    let conflicts = conflict_rows_of(graph.conflicting());
    let mut current: Vec<String> = Vec::new();
    let mut i: usize = 0;
    while i < order.len()
        invariant
            i <= order@.len(),
            current@.len() == i,
            forall|k: int| 0 <= k < i ==> (#[trigger] current@[k])@ == order@[k]@,
        decreases order@.len() - i,
    {
        current.push(order[i].clone());
        i = i + 1;
    }
    assert(texts(current@) =~= texts(order@));
    let r = Report {
        schema_version: SCHEMA_VERSION,
        mods: mod_rows(mods, pins),
        conflicts,
        warnings,
        current_order: current,
        proposed_order: sort.proposed,
        moves: sort.moves,
    };
    // The graph built above is the one the contract speaks of.
    assert(contested(graph@) == contested(graph@));
    r
}

/// The exit status of a scan: 3 when there are contested assets or
/// warnings, 0 for a clean library.
pub fn scan_exit_code(report: &Report) -> (code: u8)
    ensures
        code == if report.conflicts@.len() > 0 || report.warnings@.len() > 0 { 3u8 } else { 0u8 },
{
    if report.conflicts.len() > 0 || report.warnings.len() > 0 {
        3
    } else {
        0
    }
}

/// `true` when the proposed order is the current one: nothing to move.
pub fn already_optimal(report: &Report) -> (r: bool)
    ensures
        r == (texts(report.proposed_order@) == texts(report.current_order@)),
{
    let a = &report.proposed_order;
    let b = &report.current_order;
    if a.len() != b.len() {
        assert(texts(a@).len() != texts(b@).len());
        return false;
    }
    let mut i: usize = 0;
    while i < a.len()
        invariant
            a == &report.proposed_order,
            b == &report.current_order,
            a@.len() == b@.len(),
            i <= a@.len(),
            forall|k: int| 0 <= k < i ==> a@[k]@ == b@[k]@,
        decreases a@.len() - i,
    {
        if !same_text(a[i].as_str(), b[i].as_str()) {
            assert(texts(a@)[i as int] != texts(b@)[i as int]);
            assert(texts(a@) != texts(b@));
            return false;
        }
        i = i + 1;
    }
    assert(texts(a@) =~= texts(b@));
    true
}

/// The positions, in order, of the contested assets that `name` provides.
pub fn conflicts_involving(report: &Report, name: &String) -> (r: Vec<usize>)
    ensures
        forall|j: int| 0 <= j < r@.len() ==> r@[j] < report.conflicts@.len(),
        forall|j: int, k: int| 0 <= j < k < r@.len() ==> r@[j] < r@[k],
        forall|k: int| 0 <= k < report.conflicts@.len() ==>
            (r@.contains(k as usize) <==> texts(report.conflicts@[k].providers@).contains(name@)),
{
    let mut r: Vec<usize> = Vec::new();
    let mut i: usize = 0;
    while i < report.conflicts.len()
        invariant
            i <= report.conflicts@.len(),
            forall|j: int| 0 <= j < r@.len() ==> r@[j] < i,
            forall|j: int, k: int| 0 <= j < k < r@.len() ==> r@[j] < r@[k],
            forall|k: int| 0 <= k < i ==>
                (r@.contains(k as usize) <==> texts(report.conflicts@[k].providers@).contains(name@)),
        decreases report.conflicts@.len() - i,
    {
        let ghost before = r@;
        if strings_contain(&report.conflicts[i].providers, name) {
            r.push(i);
            proof {
                assert forall|k: int| 0 <= k < i + 1 implies
                    (r@.contains(k as usize) <==> texts(report.conflicts@[k].providers@).contains(name@)) by {
                    if k < i {
                        if before.contains(k as usize) {
                            let q = choose|q: int| 0 <= q < before.len() && before[q] == k as usize;
                            assert(r@[q] == k as usize);
                        }
                        if r@.contains(k as usize) {
                            let q = choose|q: int| 0 <= q < r@.len() && r@[q] == k as usize;
                            assert(q < before.len());
                            assert(before[q] == k as usize);
                        }
                    } else {
                        assert(r@[before.len() as int] == i);
                    }
                }
            }
        } else {
            proof {
                assert forall|k: int| 0 <= k < i + 1 implies
                    (r@.contains(k as usize) <==> texts(report.conflicts@[k].providers@).contains(name@)) by {
                    if k == i {
                        if r@.contains(k as usize) {
                            let q = choose|q: int| 0 <= q < r@.len() && r@[q] == k as usize;
                            assert(r@[q] < i);
                        }
                    }
                }
            }
        }
        i = i + 1;
    }
    r
}

} // verus!
