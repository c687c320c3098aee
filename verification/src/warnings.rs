//! Problems that no load order can fix.

use vstd::prelude::*;
use crate::model::{AssetSet, ModFile};
use crate::conflicts::{ConflictGraph, winner_of};
use crate::text::{lemma_text_lt_transitive, lemma_text_lt_asymmetric, lemma_text_lt_total};
use crate::text::{texts, text_lt, decimal, push_decimal, string_from_chars, clone_strings, strings_contain, Order3, compare_text, lemma_strictly_sorted_unique, strictly_sorted};
use crate::sorting::{sort_keyed, insert_keyed, sort_texts, sort_names, sort_by_text_key, keyed_view, lemma_sort_keyed_len, lemma_sort_keyed_contains};
use crate::sort::sorted_listing;
use crate::sort_laws::lemma_sorted_listing;
use crate::paths::{splits_plain, has_plain_split, plain_folder, lemma_plain_folder};
use crate::overlap_count::lemma_group_holds_both;

verus! {

/// A diagnosis about the library.
#[derive(Debug, Clone, PartialEq)]
pub enum Warning {
    /// Every asset of the mod is won by another mod.
    TotalEclipse { name: String },
    /// These mods provide exactly the same assets: only one can show.
    MutualOverlap { names: Vec<String> },
    /// The mod's archive could not be listed.
    Unlistable { name: String, reason: String },
    /// The same GameBanana mod is installed in several folders.
    DuplicateGamebananaMod { mod_id: u64, names: Vec<String> },
}

/// A warning as plain values.
pub enum WarningView {
    TotalEclipse { name: Seq<char> },
    MutualOverlap { names: Seq<Seq<char>> },
    Unlistable { name: Seq<char>, reason: Seq<char> },
    DuplicateGamebananaMod { mod_id: u64, names: Seq<Seq<char>> },
}

pub open spec fn warning_view(w: Warning) -> WarningView {
    match w {
        Warning::TotalEclipse { name } => WarningView::TotalEclipse { name: name@ },
        Warning::MutualOverlap { names } => WarningView::MutualOverlap { names: texts(names@) },
        Warning::Unlistable { name, reason } => WarningView::Unlistable { name: name@, reason: reason@ },
        Warning::DuplicateGamebananaMod { mod_id, names } => WarningView::DuplicateGamebananaMod { mod_id, names: texts(names@) },
    }
}

/// Warnings found in generation order, each with the name it sorts by.
pub type Found = Seq<(Seq<char>, WarningView)>;

/// The positions of `s` paired with their keys, stably sorted by key.
pub open spec fn indexed(s: Found) -> Seq<(Seq<char>, int)> {
    Seq::new(s.len(), |i: int| (s[i].0, i))
}

/// The warnings of `s` stably sorted by their keys.
pub open spec fn sorted_found(s: Found) -> Seq<WarningView> {
    sort_keyed(indexed(s)).map_values(|e: (Seq<char>, int)| s[e.1].1)
}

/// Enabled mods among the first `n` whose archive could not be listed.
pub open spec fn unlistable_found(mods: Seq<ModFile>, n: int) -> Found
    decreases n,
{
    if n <= 0 {
        Seq::empty()
    } else {
        let p = unlistable_found(mods, n - 1);
        let m = mods[n - 1];
        match m.error {
            Some(reason) => if m.enabled {
                p.push((m.name@, WarningView::Unlistable { name: m.name@, reason: reason@ }))
            } else {
                p
            },
            None => p,
        }
    }
}

/// Lexicographic order of asset lists, as `Vec<String>` orders them.
pub open spec fn seqs_lt(a: Seq<Seq<char>>, b: Seq<Seq<char>>) -> bool
    decreases a.len(),
{
    if a.len() == 0 {
        b.len() > 0
    } else if b.len() == 0 {
        false
    } else if a[0] != b[0] {
        text_lt(a[0], b[0])
    } else {
        seqs_lt(a.drop_first(), b.drop_first())
    }
}

/// An enabled, listable mod with at least one asset.
pub open spec fn overlap_candidate(m: ModFile) -> bool {
    m.enabled && m.error is None && m.assets@.len() > 0
}

/// Groups of names by asset list, kept in increasing order of asset list.
pub type Groups = Seq<(Seq<Seq<char>>, Seq<Seq<char>>)>;

/// Adds `name` to the group of `key`, creating it in its place if needed.
pub open spec fn add_to_group(groups: Groups, key: Seq<Seq<char>>, name: Seq<char>) -> Groups
    decreases groups.len(),
{
    if groups.len() == 0 {
        seq![(key, seq![name])]
    } else if groups[0].0 == key {
        seq![(key, groups[0].1.push(name))] + groups.drop_first()
    } else if seqs_lt(key, groups[0].0) {
        seq![(key, seq![name])] + groups
    } else {
        seq![groups[0]] + add_to_group(groups.drop_first(), key, name)
    }
}

/// The candidates among the first `n` mods grouped by their asset lists.
pub open spec fn asset_groups(mods: Seq<ModFile>, n: int) -> Groups
    decreases n,
{
    if n <= 0 {
        Seq::empty()
    } else {
        let p = asset_groups(mods, n - 1);
        if overlap_candidate(mods[n - 1]) {
            add_to_group(p, mods[n - 1].assets@, mods[n - 1].name@)
        } else {
            p
        }
    }
}

/// One mutual-overlap warning per group of two or more, in group order.
pub open spec fn overlap_found_in(groups: Groups) -> Found
    decreases groups.len(),
{
    if groups.len() == 0 {
        Seq::empty()
    } else {
        let p = overlap_found_in(groups.drop_last());
        let names = sort_texts(groups.last().1);
        if names.len() >= 2 {
            p.push((names[0], WarningView::MutualOverlap { names }))
        } else {
            p
        }
    }
}

/// The name belongs to a group of two or more.
pub open spec fn in_overlap_group(mods: Seq<ModFile>, name: Seq<char>) -> bool {
    let groups = asset_groups(mods, mods.len() as int);
    exists|k: int| 0 <= k < groups.len() && (#[trigger] groups[k]).1.len() >= 2 && groups[k].1.contains(name)
}

/// Every asset of `m` is won by some other mod.
pub open spec fn eclipsed(g: Seq<(Seq<char>, Seq<Seq<char>>)>, m: ModFile) -> bool {
    forall|a: Seq<char>| #[trigger] m.assets@.contains(a) ==> won_by_other(g, a, m.name@)
}

/// Asset `a` has a winner, and it is not `name`.
pub open spec fn won_by_other(g: Seq<(Seq<char>, Seq<Seq<char>>)>, a: Seq<char>, name: Seq<char>) -> bool {
    match winner_of(g, a) {
        Some(w) => w != name,
        None => false,
    }
}

/// Eclipse warnings for the first `n` mods.
pub open spec fn eclipse_found(mods: Seq<ModFile>, g: Seq<(Seq<char>, Seq<Seq<char>>)>, n: int) -> Found
    decreases n,
{
    if n <= 0 {
        Seq::empty()
    } else {
        let p = eclipse_found(mods, g, n - 1);
        let m = mods[n - 1];
        if overlap_candidate(m) && !in_overlap_group(mods, m.name@) && eclipsed(g, m) {
            p.push((m.name@, WarningView::TotalEclipse { name: m.name@ }))
        } else {
            p
        }
    }
}

/// Installs by GameBanana id, by increasing id: `(folder, name)` pairs.
pub type GbGroups = Seq<(u64, Seq<(Seq<char>, Seq<char>)>)>;

pub open spec fn add_gb(groups: GbGroups, id: u64, entry: (Seq<char>, Seq<char>)) -> GbGroups
    decreases groups.len(),
{
    if groups.len() == 0 {
        seq![(id, seq![entry])]
    } else if groups[0].0 == id {
        seq![(id, groups[0].1.push(entry))] + groups.drop_first()
    } else if id < groups[0].0 {
        seq![(id, seq![entry])] + groups
    } else {
        seq![groups[0]] + add_gb(groups.drop_first(), id, entry)
    }
}

/// The first `n` mods (enabled or not) that have a GameBanana id and a
/// folder, grouped by id.
pub open spec fn gb_groups(mods: Seq<ModFile>, folders: Seq<Option<Seq<char>>>, n: int) -> GbGroups
    decreases n,
{
    if n <= 0 {
        Seq::empty()
    } else {
        let p = gb_groups(mods, folders, n - 1);
        match (mods[n - 1].gamebanana_mod_id, folders[n - 1]) {
            (Some(id), Some(folder)) => add_gb(p, id, (folder, mods[n - 1].name@)),
            _ => p,
        }
    }
}

/// The installs of a group lie in two or more folders.
pub open spec fn several_folders(entries: Seq<(Seq<char>, Seq<char>)>) -> bool {
    exists|i: int, j: int| 0 <= i < entries.len() && 0 <= j < entries.len() && #[trigger] entries[i].0 != #[trigger] entries[j].0
}

/// The distinct names of a group, in increasing order.
pub open spec fn group_names(entries: Seq<(Seq<char>, Seq<char>)>) -> Seq<Seq<char>> {
    sorted_listing(entries.map_values(|e: (Seq<char>, Seq<char>)| e.1).to_set())
}

/// One duplicate warning per id installed in several folders, by id.
pub open spec fn duplicate_found_in(groups: GbGroups) -> Found
    decreases groups.len(),
{
    if groups.len() == 0 {
        Seq::empty()
    } else {
        let p = duplicate_found_in(groups.drop_last());
        let (id, entries) = groups.last();
        if several_folders(entries) {
            p.push((decimal(id as nat), WarningView::DuplicateGamebananaMod { mod_id: id, names: group_names(entries) }))
        } else {
            p
        }
    }
}

/// All warnings: duplicates (by the decimal text of the id), then mutual
/// overlaps (by first name), then eclipses, then unlistable mods (by name);
/// ties keep the order in which they were found.
pub open spec fn warnings_of(mods: Seq<ModFile>, g: Seq<(Seq<char>, Seq<Seq<char>>)>, folders: Seq<Option<Seq<char>>>) -> Seq<WarningView> {
    let n = mods.len() as int;
    sorted_found(duplicate_found_in(gb_groups(mods, folders, n)))
        + sorted_found(overlap_found_in(asset_groups(mods, n)))
        + sorted_found(eclipse_found(mods, g, n))
        + sorted_found(unlistable_found(mods, n))
}

/// The found warnings held as parallel key and warning lists.
pub open spec fn found_view(keys: Seq<String>, items: Seq<Warning>) -> Found {
    Seq::new(keys.len(), |i: int| (keys[i]@, warning_view(items[i])))
}

fn clone_warning(w: &Warning) -> (r: Warning)
    ensures
        warning_view(r) == warning_view(*w),
{
    match w {
        Warning::TotalEclipse { name } => Warning::TotalEclipse { name: name.clone() },
        Warning::MutualOverlap { names } => Warning::MutualOverlap { names: clone_strings(names) },
        Warning::Unlistable { name, reason } => Warning::Unlistable { name: name.clone(), reason: reason.clone() },
        Warning::DuplicateGamebananaMod { mod_id, names } => Warning::DuplicateGamebananaMod { mod_id: *mod_id, names: clone_strings(names) },
    }
}

proof fn lemma_insert_keyed_values<A>(x: (Seq<char>, A), s: Seq<(Seq<char>, A)>, p: spec_fn(A) -> bool)
    requires
        p(x.1),
        forall|k: int| 0 <= k < s.len() ==> #[trigger] p(s[k].1),
    ensures
        forall|k: int| 0 <= k < insert_keyed(x, s).len() ==> #[trigger] p(insert_keyed(x, s)[k].1),
    decreases s.len(),
{
    let r = insert_keyed(x, s);
    if s.len() == 0 {
        assert(r == seq![x]);
    } else if !text_lt(x.0, s[0].0) {
        let t = s.drop_first();
        assert forall|k: int| 0 <= k < t.len() implies #[trigger] p(t[k].1) by {
            assert(t[k] == s[k + 1]);
        }
        lemma_insert_keyed_values(x, t, p);
        let rt = insert_keyed(x, t);
        assert(r == seq![s[0]] + rt);
        assert forall|k: int| 0 <= k < r.len() implies #[trigger] p(r[k].1) by {
            if k > 0 {
                assert(r[k] == rt[k - 1]);
            } else {
                assert(r[0] == s[0]);
            }
        }
    } else {
        assert(r == seq![x] + s);
        assert forall|k: int| 0 <= k < r.len() implies #[trigger] p(r[k].1) by {
            if k > 0 {
                assert(r[k] == s[k - 1]);
            }
        }
    }
}

proof fn lemma_sort_keyed_values<A>(s: Seq<(Seq<char>, A)>, p: spec_fn(A) -> bool)
    requires
        forall|k: int| 0 <= k < s.len() ==> #[trigger] p(s[k].1),
    ensures
        forall|k: int| 0 <= k < sort_keyed(s).len() ==> #[trigger] p(sort_keyed(s)[k].1),
    decreases s.len(),
{
    if s.len() > 0 {
        let d = s.drop_last();
        assert forall|k: int| 0 <= k < d.len() implies #[trigger] p(d[k].1) by {
            assert(d[k] == s[k]);
        }
        lemma_sort_keyed_values(d, p);
        assert(p(s.last().1));
        lemma_insert_keyed_values(s.last(), sort_keyed(d), p);
        assert(sort_keyed(s) == insert_keyed(s.last(), sort_keyed(d)));
    }
}

/// Stably sorts found warnings by their keys.
fn sort_found(keys: Vec<String>, items: Vec<Warning>) -> (r: Vec<Warning>)
    requires
        keys@.len() == items@.len(),
    ensures
        r@.map_values(|w: Warning| warning_view(w)) == sorted_found(found_view(keys@, items@)),
{
    let ghost found = found_view(keys@, items@);
    let mut pairs: Vec<(String, usize)> = Vec::new();
    let mut i: usize = 0;
    while i < keys.len()
        invariant
            found == found_view(keys@, items@),
            keys@.len() == items@.len(),
            i <= keys@.len(),
            pairs@.len() == i,
            forall|k: int| 0 <= k < i ==> (#[trigger] pairs@[k]).0@ == keys@[k]@ && pairs@[k].1 == k,
        decreases keys@.len() - i,
    {
        let c = keys[i].clone();
        pairs.push((c, i));
        i = i + 1;
    }
    let ghost ix = indexed(found);
    proof {
        let kv = keyed_view(pairs@).map_values(|e: (Seq<char>, usize)| (e.0, e.1 as int));
        assert(kv =~= ix);
    }
    let ghost pv = keyed_view(pairs@);
    let sorted = sort_by_text_key(pairs);
    let ghost sv = keyed_view(sorted@);
    proof {
        lemma_sort_keyed_len(pv);
        lemma_sort_keyed_len(ix);
        let bound = |v: usize| v < keys@.len();
        assert forall|k: int| 0 <= k < pv.len() implies #[trigger] bound(pv[k].1) by {
            assert(pv[k].1 == pairs@[k].1);
        }
        lemma_sort_keyed_values(pv, bound);
        lemma_sort_keyed_map(pv);
        assert forall|k: int| 0 <= k < sv.len() implies #[trigger] sv[k].1 < keys@.len() by {
            assert(bound(sort_keyed(pv)[k].1));
        }
    }
    let mut out: Vec<Warning> = Vec::new();
    let mut j: usize = 0;
    while j < sorted.len()
        invariant
            found == found_view(keys@, items@),
            keys@.len() == items@.len(),
            sv == keyed_view(sorted@),
            sv == sort_keyed(pv),
            sort_keyed(pv).map_values(|e: (Seq<char>, usize)| (e.0, e.1 as int)) == sort_keyed(ix),
            ix == indexed(found),
            forall|k: int| 0 <= k < sv.len() ==> #[trigger] sv[k].1 < keys@.len(),
            j <= sorted@.len(),
            out@.len() == j,
            forall|k: int| 0 <= k < j ==> warning_view(#[trigger] out@[k]) == found[sv[k].1 as int].1,
        decreases sorted@.len() - j,
    {
        let idx = sorted[j].1;
        assert(sv[j as int].1 == idx);
        let w = clone_warning(&items[idx]);
        out.push(w);
        j = j + 1;
    }
    proof {
        let lhs = out@.map_values(|w: Warning| warning_view(w));
        let rhs = sorted_found(found);
        assert forall|k: int| 0 <= k < lhs.len() implies #[trigger] lhs[k] == rhs[k] by {
            assert(sort_keyed(ix)[k] == (sv[k].0, sv[k].1 as int));
        }
        assert(lhs =~= rhs);
    }
    out
}

proof fn lemma_insert_keyed_map(x: (Seq<char>, usize), s: Seq<(Seq<char>, usize)>)
    ensures
        insert_keyed(x, s).map_values(|e: (Seq<char>, usize)| (e.0, e.1 as int))
            == insert_keyed((x.0, x.1 as int), s.map_values(|e: (Seq<char>, usize)| (e.0, e.1 as int))),
    decreases s.len(),
{
    let f = |e: (Seq<char>, usize)| (e.0, e.1 as int);
    if s.len() == 0 {
        assert(insert_keyed(x, s).map_values(f) =~= seq![(x.0, x.1 as int)]);
    } else if text_lt(x.0, s[0].0) {
        assert(insert_keyed(x, s).map_values(f) =~= seq![(x.0, x.1 as int)] + s.map_values(f));
    } else {
        lemma_insert_keyed_map(x, s.drop_first());
        assert(s.map_values(f).drop_first() =~= s.drop_first().map_values(f));
        assert(insert_keyed(x, s).map_values(f) =~= seq![f(s[0])] + insert_keyed(x, s.drop_first()).map_values(f));
    }
}

proof fn lemma_sort_keyed_map(s: Seq<(Seq<char>, usize)>)
    ensures
        sort_keyed(s).map_values(|e: (Seq<char>, usize)| (e.0, e.1 as int))
            == sort_keyed(s.map_values(|e: (Seq<char>, usize)| (e.0, e.1 as int))),
    decreases s.len(),
{
    let f = |e: (Seq<char>, usize)| (e.0, e.1 as int);
    if s.len() == 0 {
        assert(sort_keyed(s).map_values(f) =~= Seq::<(Seq<char>, int)>::empty());
        assert(s.map_values(f) =~= Seq::<(Seq<char>, int)>::empty());
    } else {
        lemma_sort_keyed_map(s.drop_last());
        assert(s.map_values(f).drop_last() =~= s.drop_last().map_values(f));
        lemma_insert_keyed_map(s.last(), sort_keyed(s.drop_last()));
    }
}

/// Unlistable warnings for the enabled mods that could not be listed.
fn unlistable_exec(mods: &[ModFile]) -> (r: (Vec<String>, Vec<Warning>))
    ensures
        r.0@.len() == r.1@.len(),
        found_view(r.0@, r.1@) == unlistable_found(mods@, mods@.len() as int),
{
    let mut keys: Vec<String> = Vec::new();
    let mut items: Vec<Warning> = Vec::new();
    let mut i: usize = 0;
    while i < mods.len()
        invariant
            i <= mods@.len(),
            keys@.len() == items@.len(),
            found_view(keys@, items@) == unlistable_found(mods@, i as int),
        decreases mods@.len() - i,
    {
        let ghost before = found_view(keys@, items@);
        if mods[i].enabled {
            match &mods[i].error {
                Some(reason) => {
                    keys.push(mods[i].name.clone());
                    items.push(Warning::Unlistable { name: mods[i].name.clone(), reason: reason.clone() });
                    assert(found_view(keys@, items@) =~= before.push((mods@[i as int].name@, WarningView::Unlistable { name: mods@[i as int].name@, reason: reason@ })));
                },
                None => {},
            }
        }
        i = i + 1;
    }
    (keys, items)
}

proof fn lemma_seqs_lt_common_prefix(a: Seq<Seq<char>>, b: Seq<Seq<char>>, i: int)
    requires
        0 <= i <= a.len(),
        i <= b.len(),
        a.take(i) == b.take(i),
    ensures
        seqs_lt(a, b) == seqs_lt(a.skip(i), b.skip(i)),
    decreases i,
{
    if i > 0 {
        assert(a[0] == a.take(i)[0]);
        assert(b[0] == b.take(i)[0]);
        assert(a.drop_first().take(i - 1) =~= a.take(i).drop_first());
        assert(b.drop_first().take(i - 1) =~= b.take(i).drop_first());
        lemma_seqs_lt_common_prefix(a.drop_first(), b.drop_first(), i - 1);
        assert(a.drop_first().skip(i - 1) =~= a.skip(i));
        assert(b.drop_first().skip(i - 1) =~= b.skip(i));
    } else {
        assert(a.skip(0) =~= a);
        assert(b.skip(0) =~= b);
    }
}

/// Whether two asset sets are equal, and whether the first sorts before.
fn assets_eq_lt(a: &AssetSet, b: &AssetSet) -> (r: (bool, bool))
    ensures
        r.0 == (a@ == b@),
        r.1 == seqs_lt(a@, b@),
{
    let mut i: usize = 0;
    while i < a.len() && i < b.len()
        invariant
            i <= a@.len(),
            i <= b@.len(),
            a@.take(i as int) == b@.take(i as int),
        decreases a@.len() - i,
    {
        let c = compare_text(a.get(i).as_str(), b.get(i).as_str());
        if c != Order3::Same {
            proof {
                lemma_seqs_lt_common_prefix(a@, b@, i as int);
                assert(a@.skip(i as int)[0] == a@[i as int]);
                assert(b@.skip(i as int)[0] == b@[i as int]);
                assert(a@ != b@) by {
                    assert(a@[i as int] != b@[i as int]);
                }
            }
            return (false, c == Order3::Before);
        }
        proof {
            assert(a@.take(i + 1) =~= a@.take(i as int).push(a@[i as int]));
            assert(b@.take(i + 1) =~= b@.take(i as int).push(b@[i as int]));
        }
        i = i + 1;
    }
    proof {
        lemma_seqs_lt_common_prefix(a@, b@, i as int);
    }
    if a.len() == b.len() {
        proof {
            assert(a@ =~= a@.take(i as int));
            assert(b@ =~= b@.take(i as int));
        }
        (true, false)
    } else if a.len() < b.len() {
        proof {
            assert(a@.skip(i as int).len() == 0);
            assert(a@ != b@);
        }
        (false, true)
    } else {
        proof {
            assert(b@.skip(i as int).len() == 0);
            assert(a@ != b@);
        }
        (false, false)
    }
}

/// The groups, with each key read from the mod that first had it.
pub open spec fn groups_view(mods: Seq<ModFile>, g: Seq<(usize, Vec<String>)>) -> Groups {
    Seq::new(g.len(), |k: int| (mods[g[k].0 as int].assets@, texts(g[k].1@)))
}

proof fn lemma_add_to_group(groups: Groups, key: Seq<Seq<char>>, name: Seq<char>, p: int)
    requires
        0 <= p <= groups.len(),
        forall|q: int| 0 <= q < p ==> (#[trigger] groups[q]).0 != key && !seqs_lt(key, groups[q].0),
        p == groups.len() || groups[p].0 == key || seqs_lt(key, groups[p].0),
    ensures
        add_to_group(groups, key, name) == if p < groups.len() && groups[p].0 == key {
            groups.take(p).push((key, groups[p].1.push(name))) + groups.skip(p + 1)
        } else {
            groups.take(p).push((key, seq![name])) + groups.skip(p)
        },
    decreases p,
{
    if p == 0 {
        if groups.len() == 0 {
            assert(groups.take(0).push((key, seq![name])) + groups.skip(0) =~= seq![(key, seq![name])]);
        } else if groups[0].0 == key {
            assert(groups.take(0).push((key, groups[0].1.push(name))) + groups.skip(1) =~= seq![(key, groups[0].1.push(name))] + groups.drop_first());
        } else {
            assert(groups.take(0).push((key, seq![name])) + groups.skip(0) =~= seq![(key, seq![name])] + groups);
        }
    } else {
        let t = groups.drop_first();
        assert forall|q: int| 0 <= q < p - 1 implies (#[trigger] t[q]).0 != key && !seqs_lt(key, t[q].0) by {
            assert(t[q] == groups[q + 1]);
        }
        if p - 1 < t.len() {
            assert(t[p - 1] == groups[p]);
        }
        assert(groups[0].0 != key && !seqs_lt(key, groups[0].0));
        lemma_add_to_group(t, key, name, p - 1);
        if p < groups.len() && groups[p].0 == key {
            assert(seq![groups[0]] + (t.take(p - 1).push((key, t[p - 1].1.push(name))) + t.skip(p)) =~= groups.take(p).push((key, groups[p].1.push(name))) + groups.skip(p + 1));
        } else {
            assert(seq![groups[0]] + (t.take(p - 1).push((key, seq![name])) + t.skip(p - 1)) =~= groups.take(p).push((key, seq![name])) + groups.skip(p));
        }
    }
}

/// Groups the listable, non-empty enabled mods by their asset lists.
fn group_by_assets(mods: &[ModFile]) -> (g: Vec<(usize, Vec<String>)>)
    ensures
        groups_view(mods@, g@) == asset_groups(mods@, mods@.len() as int),
        forall|k: int| 0 <= k < g@.len() ==> (#[trigger] g@[k]).0 < mods@.len(),
{
    let mut groups: Vec<(usize, Vec<String>)> = Vec::new();
    let mut i: usize = 0;
    while i < mods.len()
        invariant
            i <= mods@.len(),
            forall|k: int| 0 <= k < groups@.len() ==> (#[trigger] groups@[k]).0 < mods@.len(),
            groups_view(mods@, groups@) == asset_groups(mods@, i as int),
        decreases mods@.len() - i,
    {
        let m = &mods[i];
        if m.enabled && m.error.is_none() && !m.assets.is_empty() {
            let ghost gv = groups_view(mods@, groups@);
            let ghost key = m.assets@;
            let mut p: usize = 0;
            let mut stop = false;
            let mut same = false;
            while p < groups.len() && !stop
                invariant
                    gv == groups_view(mods@, groups@),
                    key == m.assets@,
                    forall|k: int| 0 <= k < groups@.len() ==> (#[trigger] groups@[k]).0 < mods@.len(),
                    p <= groups@.len(),
                    !stop ==> forall|q: int| 0 <= q < p ==> (#[trigger] gv[q]).0 != key && !seqs_lt(key, gv[q].0),
                    stop ==> p < groups@.len() && (gv[p as int].0 == key || seqs_lt(key, gv[p as int].0))
                        && forall|q: int| 0 <= q < p ==> (#[trigger] gv[q]).0 != key && !seqs_lt(key, gv[q].0),
                    stop ==> same == (gv[p as int].0 == key),
                decreases groups@.len() - p + (if stop { 0int } else { 1int }),
            {
                let r = assets_eq_lt(&m.assets, &mods[groups[p].0].assets);
                assert(gv[p as int].0 == mods@[groups@[p as int].0 as int].assets@);
                if r.0 || r.1 {
                    stop = true;
                    same = r.0;
                } else {
                    p = p + 1;
                }
            }
            proof {
                lemma_add_to_group(gv, key, m.name@, p as int);
                assert(asset_groups(mods@, i + 1) == add_to_group(gv, key, m.name@));
            }
            if stop && same {
                let nm = m.name.clone();
                let ghost before = groups@;
                groups[p].1.push(nm);
                proof {
                    let nv = groups_view(mods@, groups@);
                    assert(nv =~= gv.take(p as int).push((key, gv[p as int].1.push(m.name@))) + gv.skip(p + 1)) by {
                        assert forall|k: int| 0 <= k < nv.len() implies #[trigger] nv[k] == (gv.take(p as int).push((key, gv[p as int].1.push(m.name@))) + gv.skip(p + 1))[k] by {
                            if k != p {
                                assert(groups@[k] == before[k]);
                            } else {
                                assert(texts(groups@[k].1@) =~= texts(before[k].1@).push(m.name@));
                            }
                        }
                    }
                }
            } else {
                let mut fresh: Vec<String> = Vec::new();
                fresh.push(m.name.clone());
                let ghost before = groups@;
                groups.insert(p, (i, fresh));
                proof {
                    let nv = groups_view(mods@, groups@);
                    assert(!(p < gv.len() && gv[p as int].0 == key));
                    assert(texts(fresh@) =~= seq![m.name@]);
                    assert(nv =~= gv.take(p as int).push((key, seq![m.name@])) + gv.skip(p as int)) by {
                        assert forall|k: int| 0 <= k < nv.len() implies #[trigger] nv[k] == (gv.take(p as int).push((key, seq![m.name@])) + gv.skip(p as int))[k] by {
                            if k < p {
                                assert(groups@[k] == before[k]);
                            } else if k > p {
                                assert(groups@[k] == before[k - 1]);
                            }
                        }
                    }
                }
            }
        }
        i = i + 1;
    }
    groups
}

/// Whether `name` belongs to a group of two or more.
fn in_some_overlap(mods: &[ModFile], groups: &Vec<(usize, Vec<String>)>, name: &String) -> (r: bool)
    requires
        forall|k: int| 0 <= k < groups@.len() ==> (#[trigger] groups@[k]).0 < mods@.len(),
    ensures
        r == exists|k: int| 0 <= k < groups@.len() && (#[trigger] groups_view(mods@, groups@)[k]).1.len() >= 2
            && groups_view(mods@, groups@)[k].1.contains(name@),
{
    let ghost gv = groups_view(mods@, groups@);
    let mut k: usize = 0;
    while k < groups.len()
        invariant
            gv == groups_view(mods@, groups@),
            k <= groups@.len(),
            forall|q: int| 0 <= q < k ==> !((#[trigger] gv[q]).1.len() >= 2 && gv[q].1.contains(name@)),
        decreases groups@.len() - k,
    {
        assert(gv[k as int].1 == texts(groups@[k as int].1@));
        if groups[k].1.len() >= 2 && strings_contain(&groups[k].1, name) {
            return true;
        }
        k = k + 1;
    }
    false
}

/// Mutual-overlap warnings, one per group of two or more, in group order.
fn overlap_exec(mods: &[ModFile], groups: &Vec<(usize, Vec<String>)>) -> (r: (Vec<String>, Vec<Warning>))
    requires
        forall|k: int| 0 <= k < groups@.len() ==> (#[trigger] groups@[k]).0 < mods@.len(),
    ensures
        r.0@.len() == r.1@.len(),
        found_view(r.0@, r.1@) == overlap_found_in(groups_view(mods@, groups@)),
{
    let ghost gv = groups_view(mods@, groups@);
    let mut keys: Vec<String> = Vec::new();
    let mut items: Vec<Warning> = Vec::new();
    let mut i: usize = 0;
    assert(gv.take(0) =~= Seq::<(Seq<Seq<char>>, Seq<Seq<char>>)>::empty());
    while i < groups.len()
        invariant
            gv == groups_view(mods@, groups@),
            i <= groups@.len(),
            keys@.len() == items@.len(),
            found_view(keys@, items@) == overlap_found_in(gv.take(i as int)),
        decreases groups@.len() - i,
    {
        let names = sort_names(clone_strings(&groups[i].1));
        let ghost before = found_view(keys@, items@);
        proof {
            assert(gv.take(i + 1).drop_last() =~= gv.take(i as int));
            assert(gv.take(i + 1).last() == gv[i as int]);
            assert(gv[i as int].1 == texts(groups@[i as int].1@));
        }
        if names.len() >= 2 {
            let key = names[0].clone();
            let ghost nv = texts(names@);
            keys.push(key);
            items.push(Warning::MutualOverlap { names });
            assert(found_view(keys@, items@) =~= before.push((nv[0], WarningView::MutualOverlap { names: nv })));
        }
        i = i + 1;
    }
    assert(gv.take(i as int) =~= gv);
    (keys, items)
}

/// Whether every asset of `m` is won by another mod.
fn is_eclipsed(graph: &ConflictGraph, m: &ModFile) -> (r: bool)
    ensures
        r == eclipsed(graph@, *m),
{
    let mut j: usize = 0;
    while j < m.assets.len()
        invariant
            j <= m.assets@.len(),
            forall|q: int| 0 <= q < j ==> won_by_other(graph@, #[trigger] m.assets@[q], m.name@),
        decreases m.assets@.len() - j,
    {
        let a = m.assets.get(j);
        let w = graph.winner(a.as_str());
        let lost = match w {
            Some(w) => *w != m.name,
            None => false,
        };
        if !lost {
            assert(m.assets@.contains(m.assets@[j as int]));
            return false;
        }
        j = j + 1;
    }
    assert forall|a: Seq<char>| #[trigger] m.assets@.contains(a) implies won_by_other(graph@, a, m.name@) by {
        let q = choose|q: int| 0 <= q < m.assets@.len() && m.assets@[q] == a;
        assert(won_by_other(graph@, m.assets@[q], m.name@));
    }
    true
}

/// Eclipse warnings for mods that are not part of a mutual overlap.
fn eclipse_exec(mods: &[ModFile], graph: &ConflictGraph, groups: &Vec<(usize, Vec<String>)>) -> (r: (Vec<String>, Vec<Warning>))
    requires
        groups_view(mods@, groups@) == asset_groups(mods@, mods@.len() as int),
        forall|k: int| 0 <= k < groups@.len() ==> (#[trigger] groups@[k]).0 < mods@.len(),
    ensures
        r.0@.len() == r.1@.len(),
        found_view(r.0@, r.1@) == eclipse_found(mods@, graph@, mods@.len() as int),
{
    let mut keys: Vec<String> = Vec::new();
    let mut items: Vec<Warning> = Vec::new();
    let mut i: usize = 0;
    while i < mods.len()
        invariant
            groups_view(mods@, groups@) == asset_groups(mods@, mods@.len() as int),
            forall|k: int| 0 <= k < groups@.len() ==> (#[trigger] groups@[k]).0 < mods@.len(),
            i <= mods@.len(),
            keys@.len() == items@.len(),
            found_view(keys@, items@) == eclipse_found(mods@, graph@, i as int),
        decreases mods@.len() - i,
    {
        let m = &mods[i];
        let ghost before = found_view(keys@, items@);
        if m.enabled && m.error.is_none() && !m.assets.is_empty() && !in_some_overlap(mods, groups, &m.name)
            && is_eclipsed(graph, m) {
            keys.push(m.name.clone());
            items.push(Warning::TotalEclipse { name: m.name.clone() });
            assert(found_view(keys@, items@) =~= before.push((m.name@, WarningView::TotalEclipse { name: m.name@ })));
        }
        i = i + 1;
    }
    (keys, items)
}

/// The folders as plain texts.
pub open spec fn folder_views(f: Seq<Option<String>>) -> Seq<Option<Seq<char>>> {
    f.map_values(|o: Option<String>| match o {
        Some(s) => Some(s@),
        None => None,
    })
}

/// The id groups with their `(folder, name)` entries as texts.
pub open spec fn gb_view(g: Seq<(u64, Vec<(String, String)>)>) -> GbGroups {
    g.map_values(|e: (u64, Vec<(String, String)>)| (e.0, entries_view(e.1@)))
}

/// `(folder, name)` entries as texts.
pub open spec fn entries_view(v: Seq<(String, String)>) -> Seq<(Seq<char>, Seq<char>)> {
    v.map_values(|p: (String, String)| (p.0@, p.1@))
}

proof fn lemma_add_gb(groups: GbGroups, id: u64, entry: (Seq<char>, Seq<char>), p: int)
    requires
        0 <= p <= groups.len(),
        forall|q: int| 0 <= q < p ==> (#[trigger] groups[q]).0 < id,
        p == groups.len() || groups[p].0 >= id,
    ensures
        add_gb(groups, id, entry) == if p < groups.len() && groups[p].0 == id {
            groups.take(p).push((id, groups[p].1.push(entry))) + groups.skip(p + 1)
        } else {
            groups.take(p).push((id, seq![entry])) + groups.skip(p)
        },
    decreases p,
{
    if p == 0 {
        if groups.len() == 0 {
            assert(groups.take(0).push((id, seq![entry])) + groups.skip(0) =~= seq![(id, seq![entry])]);
        } else if groups[0].0 == id {
            assert(groups.take(0).push((id, groups[0].1.push(entry))) + groups.skip(1) =~= seq![(id, groups[0].1.push(entry))] + groups.drop_first());
        } else {
            assert(groups.take(0).push((id, seq![entry])) + groups.skip(0) =~= seq![(id, seq![entry])] + groups);
        }
    } else {
        let t = groups.drop_first();
        assert forall|q: int| 0 <= q < p - 1 implies (#[trigger] t[q]).0 < id by {
            assert(t[q] == groups[q + 1]);
        }
        if p - 1 < t.len() {
            assert(t[p - 1] == groups[p]);
        }
        assert(groups[0].0 < id);
        lemma_add_gb(t, id, entry, p - 1);
        if p < groups.len() && groups[p].0 == id {
            assert(seq![groups[0]] + (t.take(p - 1).push((id, t[p - 1].1.push(entry))) + t.skip(p)) =~= groups.take(p).push((id, groups[p].1.push(entry))) + groups.skip(p + 1));
        } else {
            assert(seq![groups[0]] + (t.take(p - 1).push((id, seq![entry])) + t.skip(p - 1)) =~= groups.take(p).push((id, seq![entry])) + groups.skip(p));
        }
    }
}

/// Groups the mods that have a GameBanana id and a folder by id.
fn group_by_gamebanana(mods: &[ModFile], folders: &[Option<String>]) -> (g: Vec<(u64, Vec<(String, String)>)>)
    requires
        folders@.len() == mods@.len(),
    ensures
        gb_view(g@) == gb_groups(mods@, folder_views(folders@), mods@.len() as int),
{
    let ghost fv = folder_views(folders@);
    let mut groups: Vec<(u64, Vec<(String, String)>)> = Vec::new();
    let mut i: usize = 0;
    assert(gb_view(groups@) =~= Seq::<(u64, Seq<(Seq<char>, Seq<char>)>)>::empty());
    while i < mods.len()
        invariant
            fv == folder_views(folders@),
            folders@.len() == mods@.len(),
            i <= mods@.len(),
            gb_view(groups@) == gb_groups(mods@, fv, i as int),
        decreases mods@.len() - i,
    {
        let m = &mods[i];
        match (m.gamebanana_mod_id, &folders[i]) {
            (Some(id), Some(folder)) => {
                let ghost gv = gb_view(groups@);
                let ghost entry = (folder@, m.name@);
                assert(fv[i as int] == Some(folder@));
                let mut p: usize = 0;
                while p < groups.len() && groups[p].0 < id
                    invariant
                        gv == gb_view(groups@),
                        p <= groups@.len(),
                        forall|q: int| 0 <= q < p ==> (#[trigger] gv[q]).0 < id,
                    decreases groups@.len() - p,
                {
                    p = p + 1;
                }
                proof {
                    lemma_add_gb(gv, id, entry, p as int);
                    assert(gb_groups(mods@, fv, i + 1) == add_gb(gv, id, entry));
                }
                let e = (folder.clone(), m.name.clone());
                if p < groups.len() && groups[p].0 == id {
                    let ghost before = groups@;
                    groups[p].1.push(e);
                    proof {
                        let nv = gb_view(groups@);
                        let want = gv.take(p as int).push((id, gv[p as int].1.push(entry))) + gv.skip(p + 1);
                        assert forall|k: int| 0 <= k < nv.len() implies #[trigger] nv[k] == want[k] by {
                            if k != p {
                                assert(groups@[k] == before[k]);
                            } else {
                                assert(entries_view(groups@[k].1@) =~= entries_view(before[k].1@).push(entry));
                            }
                        }
                        assert(nv =~= want);
                    }
                } else {
                    let mut fresh: Vec<(String, String)> = Vec::new();
                    fresh.push(e);
                    let ghost before = groups@;
                    groups.insert(p, (id, fresh));
                    proof {
                        let nv = gb_view(groups@);
                        let want = gv.take(p as int).push((id, seq![entry])) + gv.skip(p as int);
                        assert(entries_view(fresh@) =~= seq![entry]);
                        assert forall|k: int| 0 <= k < nv.len() implies #[trigger] nv[k] == want[k] by {
                            if k < p {
                                assert(groups@[k] == before[k]);
                            } else if k > p {
                                assert(groups@[k] == before[k - 1]);
                            }
                        }
                        assert(nv =~= want);
                    }
                }
            },
            _ => {
                assert(gb_groups(mods@, fv, i + 1) == gb_groups(mods@, fv, i as int));
            },
        }
        i = i + 1;
    }
    groups
}

/// Whether the entries lie in two or more folders.
fn spans_folders(entries: &Vec<(String, String)>) -> (r: bool)
    ensures
        r == several_folders(entries_view(entries@)),
{
    let ghost ev = entries_view(entries@);
    if entries.len() == 0 {
        return false;
    }
    let mut j: usize = 1;
    while j < entries.len()
        invariant
            ev == entries_view(entries@),
            1 <= j <= entries@.len(),
            forall|q: int| 0 <= q < j ==> (#[trigger] ev[q]).0 == ev[0].0,
        decreases entries@.len() - j,
    {
        if entries[j].0 != entries[0].0 {
            assert(ev[j as int].0 != ev[0].0);
            return true;
        }
        j = j + 1;
    }
    false
}

/// The distinct names of the entries, in increasing order.
fn names_of_entries(entries: &Vec<(String, String)>) -> (r: Vec<String>)
    ensures
        texts(r@) == group_names(entries_view(entries@)),
{
    let ghost ev = entries_view(entries@);
    let ghost nv = ev.map_values(|e: (Seq<char>, Seq<char>)| e.1);
    let mut names: Vec<String> = Vec::new();
    let mut j: usize = 0;
    while j < entries.len()
        invariant
            ev == entries_view(entries@),
            nv == ev.map_values(|e: (Seq<char>, Seq<char>)| e.1),
            j <= entries@.len(),
            names@.len() == j,
            texts(names@) == nv.take(j as int),
        decreases entries@.len() - j,
    {
        let c = entries[j].1.clone();
        let ghost before = names@;
        assert(c@ == nv[j as int]);
        names.push(c);
        assert forall|k: int| 0 <= k < j + 1 implies #[trigger] texts(names@)[k] == nv.take(j + 1)[k] by {
            if k < j {
                assert(names@[k] == before[k]);
                assert(texts(before)[k] == nv.take(j as int)[k]);
            }
        }
        assert(texts(names@) =~= nv.take(j + 1));
        j = j + 1;
    }
    assert(nv.take(j as int) =~= nv);
    let set = AssetSet::from_vec(names);
    let r = set.to_vec();
    proof {
        let chosen = sorted_listing(nv.to_set());
        assert(strictly_sorted(set@) && set@.to_set() == nv.to_set());
        assert(strictly_sorted(chosen) && chosen.to_set() == nv.to_set());
        lemma_strictly_sorted_unique(set@, chosen);
    }
    r
}

/// Duplicate warnings, one per id installed in several folders, by id.
fn duplicate_exec(groups: &Vec<(u64, Vec<(String, String)>)>) -> (r: (Vec<String>, Vec<Warning>))
    ensures
        r.0@.len() == r.1@.len(),
        found_view(r.0@, r.1@) == duplicate_found_in(gb_view(groups@)),
{
    let ghost gv = gb_view(groups@);
    let mut keys: Vec<String> = Vec::new();
    let mut items: Vec<Warning> = Vec::new();
    let mut i: usize = 0;
    assert(gv.take(0) =~= Seq::<(u64, Seq<(Seq<char>, Seq<char>)>)>::empty());
    while i < groups.len()
        invariant
            gv == gb_view(groups@),
            i <= groups@.len(),
            keys@.len() == items@.len(),
            found_view(keys@, items@) == duplicate_found_in(gv.take(i as int)),
        decreases groups@.len() - i,
    {
        let ghost before = found_view(keys@, items@);
        proof {
            assert(gv.take(i + 1).drop_last() =~= gv.take(i as int));
            assert(gv.take(i + 1).last() == gv[i as int]);
        }
        let id = groups[i].0;
        if spans_folders(&groups[i].1) {
            let names = names_of_entries(&groups[i].1);
            let mut digits: Vec<char> = Vec::new();
            push_decimal(&mut digits, id);
            assert(digits@ =~= decimal(id as nat));
            let key = string_from_chars(digits.as_slice());
            let ghost nv = texts(names@);
            keys.push(key);
            items.push(Warning::DuplicateGamebananaMod { mod_id: id, names });
            assert(found_view(keys@, items@) =~= before.push((decimal(id as nat), WarningView::DuplicateGamebananaMod { mod_id: id, names: nv })));
        }
        i = i + 1;
    }
    assert(gv.take(i as int) =~= gv);
    (keys, items)
}

/// The folder that holds `path`, by `std::path::Path::parent`, as text.
/// Stated: it is a leading part of `path`; and where `path` is a plain
/// folder, a `/` and a plain file name, it is that folder (`parent` drops
/// the last component and the `/` before it, and keeps the rest as it
/// stands). For other paths, where a path splits into components depends
/// on the platform, and is not stated.
#[verifier::external_body]
fn parent_folder(path: &String) -> (r: Option<String>)
    ensures
        match r {
            Some(f) => f@.len() <= path@.len() && f@ == path@.take(f@.len() as int),
            None => true,
        },
        forall|d: Seq<char>, n: Seq<char>| #[trigger] splits_plain(path@, d, n) ==> r.is_some() && r.unwrap()@ == d,
{
    match std::path::Path::new(path.as_str()).parent() {
        Some(p) => Some(p.to_string_lossy().into_owned()),
        None => None,
    }
}

/// `f` gives, for each mod, no folder or a leading part of its path, and
/// for a plain path (a plain folder, a `/` and a plain file name) that
/// folder.
pub open spec fn folders_of_paths(mods: Seq<ModFile>, f: Seq<Option<Seq<char>>>) -> bool {
    &&& f.len() == mods.len()
    &&& forall|i: int| 0 <= i < f.len() ==> match #[trigger] f[i] {
        Some(x) => x.len() <= mods[i].path@.len() && x == mods[i].path@.take(x.len() as int),
        None => true,
    }
    &&& forall|i: int, d: Seq<char>, n: Seq<char>|
        0 <= i < f.len() && #[trigger] splits_plain(mods[i].path@, d, n) ==> f[i] == Some(d)
}

/// Every mod's path is a plain folder, a `/` and a plain file name.
pub open spec fn all_plain(mods: Seq<ModFile>) -> bool {
    forall|i: int| 0 <= i < mods.len() ==> has_plain_split(#[trigger] mods[i].path@)
}

/// The folder of each mod whose path is plain.
pub open spec fn plain_folders(mods: Seq<ModFile>) -> Seq<Option<Seq<char>>> {
    Seq::new(mods.len(), |i: int| Some(plain_folder(mods[i].path@)))
}

/// Where every path is plain, the folders are fixed: each is the part of
/// the path before its last `/`.
pub proof fn lemma_plain_folders(mods: Seq<ModFile>, f: Seq<Option<Seq<char>>>)
    requires
        folders_of_paths(mods, f),
        all_plain(mods),
    ensures
        f == plain_folders(mods),
{
    assert forall|i: int| 0 <= i < f.len() implies f[i] == plain_folders(mods)[i] by {
        assert(has_plain_split(mods[i].path@));
        let (d, n) = choose|d: Seq<char>, n: Seq<char>| splits_plain(mods[i].path@, d, n);
        lemma_plain_folder(mods[i].path@, d, n);
    }
    assert(f =~= plain_folders(mods));
}

/// The warnings of a library whose mods lie in the given folders:
/// `folders[i]` is the folder of `mods[i]`, if it has one.
pub fn detect_with_folders(mods: &[ModFile], graph: &ConflictGraph, folders: &[Option<String>]) -> (r: Vec<Warning>)
    requires
        folders@.len() == mods@.len(),
    ensures
        r@.map_values(|w: Warning| warning_view(w)) == warnings_of(mods@, graph@, folder_views(folders@)),
{
    let gb = group_by_gamebanana(mods, folders);
    let dup = duplicate_exec(&gb);
    let groups = group_by_assets(mods);
    let over = overlap_exec(mods, &groups);
    let ecl = eclipse_exec(mods, graph, &groups);
    let unl = unlistable_exec(mods);
    let mut r = sort_found(dup.0, dup.1);
    let mut o = sort_found(over.0, over.1);
    let mut e = sort_found(ecl.0, ecl.1);
    let mut u = sort_found(unl.0, unl.1);
    let ghost (rv, ov, ev, uv) = (r@, o@, e@, u@);
    r.append(&mut o);
    r.append(&mut e);
    r.append(&mut u);
    proof {
        let f = |w: Warning| warning_view(w);
        assert(r@ == rv + ov + ev + uv);
        assert((rv + ov + ev + uv).map_values(f) =~= rv.map_values(f) + ov.map_values(f) + ev.map_values(f) + uv.map_values(f));
    }
    r
}

/// Looks for problems that no load order can fix: mods whose every asset
/// another mod wins, groups of mods with identical assets, archives that
/// could not be listed, and one GameBanana mod installed in several
/// folders. The folder of a mod is that of its path; for a plain path,
/// the part before its last `/`.
pub fn detect(mods: &[ModFile], _order: &[String], graph: &ConflictGraph) -> (r: Vec<Warning>)
    ensures
        exists|f: Seq<Option<Seq<char>>>| folders_of_paths(mods@, f)
            && r@.map_values(|w: Warning| warning_view(w)) == warnings_of(mods@, graph@, f),
        all_plain(mods@) ==> r@.map_values(|w: Warning| warning_view(w))
            == warnings_of(mods@, graph@, plain_folders(mods@)),
{
    let mut folders: Vec<Option<String>> = Vec::new();
    let mut i: usize = 0;
    while i < mods.len()
        invariant
            i <= mods@.len(),
            folders@.len() == i,
            forall|k: int| 0 <= k < i ==> match #[trigger] folder_views(folders@)[k] {
                Some(x) => x.len() <= mods@[k].path@.len() && x == mods@[k].path@.take(x.len() as int),
                None => true,
            },
            forall|k: int, d: Seq<char>, n: Seq<char>|
                0 <= k < i && #[trigger] splits_plain(mods@[k].path@, d, n) ==> folder_views(folders@)[k] == Some(d),
        decreases mods@.len() - i,
    {
        let f = parent_folder(&mods[i].path);
        let ghost before = folders@;
        folders.push(f);
        proof {
            assert forall|k: int| 0 <= k < i + 1 implies match #[trigger] folder_views(folders@)[k] {
                Some(x) => x.len() <= mods@[k].path@.len() && x == mods@[k].path@.take(x.len() as int),
                None => true,
            } by {
                if k < i {
                    assert(folders@[k] == before[k]);
                    assert(folder_views(before)[k] == folder_views(folders@)[k]);
                }
            }
            assert forall|k: int, d: Seq<char>, n: Seq<char>|
                0 <= k < i + 1 && #[trigger] splits_plain(mods@[k].path@, d, n) implies folder_views(folders@)[k] == Some(d) by {
                if k < i {
                    assert(folders@[k] == before[k]);
                    assert(folder_views(before)[k] == folder_views(folders@)[k]);
                } else {
                    assert(folders@[k] == f);
                }
            }
        }
        i = i + 1;
    }
    let r = detect_with_folders(mods, graph, folders.as_slice());
    assert(folders_of_paths(mods@, folder_views(folders@)));
    proof {
        if all_plain(mods@) {
            lemma_plain_folders(mods@, folder_views(folders@));
        }
    }
    r
}

proof fn lemma_sorted_found_from(found: Found, w: WarningView)
    requires
        sorted_found(found).contains(w),
    ensures
        exists|i: int| 0 <= i < found.len() && #[trigger] found[i].1 == w,
{
    let ix = indexed(found);
    let sk = sort_keyed(ix);
    lemma_sort_keyed_len(ix);
    let q = choose|q: int| 0 <= q < sorted_found(found).len() && sorted_found(found)[q] == w;
    let e = sk[q];
    assert(found[e.1].1 == w);
    assert(sk.contains(e));
    lemma_sort_keyed_contains(ix, e);
    let i = choose|i: int| 0 <= i < ix.len() && ix[i] == e;
    assert(e.1 == i);
}

proof fn lemma_sort_texts_from(s: Seq<Seq<char>>, x: Seq<char>)
    requires
        sort_texts(s).contains(x),
    ensures
        s.contains(x),
{
    let ks = s.map_values(|t: Seq<char>| (t, ()));
    let sk = sort_keyed(ks);
    lemma_sort_keyed_len(ks);
    let q = choose|q: int| 0 <= q < sort_texts(s).len() && sort_texts(s)[q] == x;
    let e = sk[q];
    assert(e.0 == x);
    assert(sk.contains(e));
    lemma_sort_keyed_contains(ks, e);
    let i = choose|i: int| 0 <= i < ks.len() && ks[i] == e;
    assert(s[i] == x);
}

pub(crate) proof fn lemma_duplicate_kinds(groups: GbGroups, i: int)
    requires
        0 <= i < duplicate_found_in(groups).len(),
    ensures
        duplicate_found_in(groups)[i].1 is DuplicateGamebananaMod,
    decreases groups.len(),
{
    let p = duplicate_found_in(groups.drop_last());
    if i < p.len() {
        lemma_duplicate_kinds(groups.drop_last(), i);
    }
}

pub(crate) proof fn lemma_unlistable_kinds(mods: Seq<ModFile>, n: int, i: int)
    requires
        0 <= i < unlistable_found(mods, n).len(),
    ensures
        unlistable_found(mods, n)[i].1 is Unlistable,
    decreases n,
{
    if n > 0 {
        let p = unlistable_found(mods, n - 1);
        if i < p.len() {
            lemma_unlistable_kinds(mods, n - 1, i);
        }
    }
}

pub(crate) proof fn lemma_overlap_kinds(groups: Groups, i: int)
    requires
        0 <= i < overlap_found_in(groups).len(),
    ensures
        overlap_found_in(groups)[i].1 matches WarningView::MutualOverlap { names }
            && exists|k: int| 0 <= k < groups.len() && (#[trigger] groups[k]).1.len() >= 2 && names == sort_texts(groups[k].1),
    decreases groups.len(),
{
    let d = groups.drop_last();
    let p = overlap_found_in(d);
    if i < p.len() {
        lemma_overlap_kinds(d, i);
        let names = p[i].1->MutualOverlap_names;
        let k = choose|k: int| 0 <= k < d.len() && (#[trigger] d[k]).1.len() >= 2 && names == sort_texts(d[k].1);
        assert(groups[k] == d[k]);
    } else {
        let k = groups.len() - 1;
        assert(groups[k] == groups.last());
        crate::sorting::lemma_sort_keyed_len(groups.last().1.map_values(|t: Seq<char>| (t, ())));
    }
}

pub(crate) proof fn lemma_eclipse_kinds(mods: Seq<ModFile>, g: Seq<(Seq<char>, Seq<Seq<char>>)>, n: int, i: int)
    requires
        0 <= i < eclipse_found(mods, g, n).len(),
    ensures
        eclipse_found(mods, g, n)[i].1 matches WarningView::TotalEclipse { name } && !in_overlap_group(mods, name),
    decreases n,
{
    if n > 0 {
        let p = eclipse_found(mods, g, n - 1);
        if i < p.len() {
            lemma_eclipse_kinds(mods, g, n - 1, i);
        }
    }
}

/// A mutual overlap is the more precise diagnosis: a mod named in a
/// mutual-overlap warning is never also reported as totally eclipsed.
pub proof fn law_overlap_not_eclipsed(mods: Seq<ModFile>, g: Seq<(Seq<char>, Seq<Seq<char>>)>, folders: Seq<Option<Seq<char>>>, names: Seq<Seq<char>>, x: Seq<char>)
    requires
        warnings_of(mods, g, folders).contains(WarningView::MutualOverlap { names }),
        names.contains(x),
    ensures
        !warnings_of(mods, g, folders).contains(WarningView::TotalEclipse { name: x }),
{
    let n = mods.len() as int;
    let a = sorted_found(duplicate_found_in(gb_groups(mods, folders, n)));
    let groups = asset_groups(mods, n);
    let b = sorted_found(overlap_found_in(groups));
    let c = sorted_found(eclipse_found(mods, g, n));
    let d = sorted_found(unlistable_found(mods, n));
    let all = warnings_of(mods, g, folders);
    assert(all == a + b + c + d);
    let mo = WarningView::MutualOverlap { names };
    let q = choose|q: int| 0 <= q < all.len() && all[q] == mo;
    // The overlap warning comes from the overlap part.
    if q < a.len() {
        assert(a[q] == mo);
        assert(a.contains(mo));
        lemma_sorted_found_from(duplicate_found_in(gb_groups(mods, folders, n)), mo);
        let i = choose|i: int| 0 <= i < duplicate_found_in(gb_groups(mods, folders, n)).len() && #[trigger] duplicate_found_in(gb_groups(mods, folders, n))[i].1 == mo;
        lemma_duplicate_kinds(gb_groups(mods, folders, n), i);
    } else if q >= a.len() + b.len() + c.len() {
        assert(d[q - a.len() - b.len() - c.len()] == mo);
        assert(d.contains(mo));
        lemma_sorted_found_from(unlistable_found(mods, n), mo);
        let i = choose|i: int| 0 <= i < unlistable_found(mods, n).len() && #[trigger] unlistable_found(mods, n)[i].1 == mo;
        lemma_unlistable_kinds(mods, n, i);
    } else if q >= a.len() + b.len() {
        assert(c[q - a.len() - b.len()] == mo);
        assert(c.contains(mo));
        lemma_sorted_found_from(eclipse_found(mods, g, n), mo);
        let i = choose|i: int| 0 <= i < eclipse_found(mods, g, n).len() && #[trigger] eclipse_found(mods, g, n)[i].1 == mo;
        lemma_eclipse_kinds(mods, g, n, i);
    } else {
        assert(b[q - a.len()] == mo);
        assert(b.contains(mo));
        lemma_sorted_found_from(overlap_found_in(groups), mo);
        let i = choose|i: int| 0 <= i < overlap_found_in(groups).len() && #[trigger] overlap_found_in(groups)[i].1 == mo;
        lemma_overlap_kinds(groups, i);
        let k = choose|k: int| 0 <= k < groups.len() && (#[trigger] groups[k]).1.len() >= 2 && names == sort_texts(groups[k].1);
        lemma_sort_texts_from(groups[k].1, x);
        assert(in_overlap_group(mods, x));
        let te = WarningView::TotalEclipse { name: x };
        if all.contains(te) {
            let r = choose|r: int| 0 <= r < all.len() && all[r] == te;
            if r < a.len() {
                assert(a[r] == te);
                assert(a.contains(te));
                lemma_sorted_found_from(duplicate_found_in(gb_groups(mods, folders, n)), te);
                let j = choose|j: int| 0 <= j < duplicate_found_in(gb_groups(mods, folders, n)).len() && #[trigger] duplicate_found_in(gb_groups(mods, folders, n))[j].1 == te;
                lemma_duplicate_kinds(gb_groups(mods, folders, n), j);
            } else if r < a.len() + b.len() {
                assert(b[r - a.len()] == te);
                assert(b.contains(te));
                lemma_sorted_found_from(overlap_found_in(groups), te);
                let j = choose|j: int| 0 <= j < overlap_found_in(groups).len() && #[trigger] overlap_found_in(groups)[j].1 == te;
                lemma_overlap_kinds(groups, j);
            } else if r < a.len() + b.len() + c.len() {
                assert(c[r - a.len() - b.len()] == te);
                assert(c.contains(te));
                lemma_sorted_found_from(eclipse_found(mods, g, n), te);
                let j = choose|j: int| 0 <= j < eclipse_found(mods, g, n).len() && #[trigger] eclipse_found(mods, g, n)[j].1 == te;
                lemma_eclipse_kinds(mods, g, n, j);
            } else {
                assert(d[r - a.len() - b.len() - c.len()] == te);
                assert(d.contains(te));
                lemma_sorted_found_from(unlistable_found(mods, n), te);
                let j = choose|j: int| 0 <= j < unlistable_found(mods, n).len() && #[trigger] unlistable_found(mods, n)[j].1 == te;
                lemma_unlistable_kinds(mods, n, j);
            }
        }
    }
}

/// The ids of the groups strictly increase.
pub open spec fn gb_keys_sorted(groups: GbGroups) -> bool {
    forall|x: int, y: int| 0 <= x < y < groups.len() ==> (#[trigger] groups[x]).0 < (#[trigger] groups[y]).0
}

/// Some group of id `id` holds the entry `e`.
pub open spec fn filed(groups: GbGroups, id: u64, e: (Seq<char>, Seq<char>)) -> bool {
    exists|k: int| 0 <= k < groups.len() && (#[trigger] groups[k]).0 == id && groups[k].1.contains(e)
}

proof fn lemma_add_gb_only(groups: GbGroups, id: u64, entry: (Seq<char>, Seq<char>))
    ensures
        forall|x: u64, e: (Seq<char>, Seq<char>)| #[trigger] filed(add_gb(groups, id, entry), x, e)
            ==> (x == id && e == entry) || filed(groups, x, e),
    decreases groups.len(),
{
    let r = add_gb(groups, id, entry);
    if groups.len() > 0 && groups[0].0 != id && !(id < groups[0].0) {
        let t = groups.drop_first();
        lemma_add_gb_only(t, id, entry);
        let rt = add_gb(t, id, entry);
        assert(r == seq![groups[0]] + rt);
    }
    assert forall|x: u64, e: (Seq<char>, Seq<char>)| #[trigger] filed(r, x, e) implies (x == id && e == entry) || filed(groups, x, e) by {
        let k = choose|k: int| 0 <= k < r.len() && (#[trigger] r[k]).0 == x && r[k].1.contains(e);
        if groups.len() == 0 {
            assert(r[0].1 == seq![entry]);
        } else if groups[0].0 == id {
            if k == 0 {
                let q = choose|q: int| 0 <= q < r[0].1.len() && r[0].1[q] == e;
                if q < groups[0].1.len() {
                    assert(r[0].1[q] == groups[0].1[q]);
                }
            } else {
                assert(r[k] == groups[k]);
            }
        } else if id < groups[0].0 {
            if k == 0 {
                assert(r[0].1 == seq![entry]);
            } else {
                assert(r[k] == groups[k - 1]);
            }
        } else {
            let t = groups.drop_first();
            let rt = add_gb(t, id, entry);
            if k == 0 {
                assert(r[0] == groups[0]);
            } else {
                assert(r[k] == rt[k - 1]);
                assert(filed(rt, x, e));
                if filed(t, x, e) {
                    let j = choose|j: int| 0 <= j < t.len() && (#[trigger] t[j]).0 == x && t[j].1.contains(e);
                    assert(t[j] == groups[j + 1]);
                }
            }
        }
    }
}

proof fn lemma_add_gb_files(groups: GbGroups, id: u64, entry: (Seq<char>, Seq<char>))
    requires
        gb_keys_sorted(groups),
    ensures
        gb_keys_sorted(add_gb(groups, id, entry)),
        filed(add_gb(groups, id, entry), id, entry),
        forall|x: u64, e: (Seq<char>, Seq<char>)| #[trigger] filed(groups, x, e) ==> filed(add_gb(groups, id, entry), x, e),
        forall|k: int| 0 <= k < add_gb(groups, id, entry).len() ==> (#[trigger] add_gb(groups, id, entry)[k]).0 == id
            || exists|q: int| 0 <= q < groups.len() && (#[trigger] groups[q]).0 == add_gb(groups, id, entry)[k].0,
        forall|x: u64, e: (Seq<char>, Seq<char>)| #[trigger] filed(add_gb(groups, id, entry), x, e)
            ==> (x == id && e == entry) || filed(groups, x, e),
    decreases groups.len(),
{
    lemma_add_gb_only(groups, id, entry);
    let r = add_gb(groups, id, entry);
    if groups.len() == 0 {
        assert(r[0].1.contains(entry)) by { assert(r[0].1[0] == entry); }
    } else if groups[0].0 == id {
        assert(r[0].1 == groups[0].1.push(entry));
        assert(r[0].1[groups[0].1.len() as int] == entry);
        assert forall|x: int, y: int| 0 <= x < y < r.len() implies (#[trigger] r[x]).0 < (#[trigger] r[y]).0 by {
            assert(r[y] == groups[y]);
            if x > 0 { assert(r[x] == groups[x]); }
        }
        assert forall|x: u64, e: (Seq<char>, Seq<char>)| #[trigger] filed(groups, x, e) implies filed(r, x, e) by {
            let k = choose|k: int| 0 <= k < groups.len() && (#[trigger] groups[k]).0 == x && groups[k].1.contains(e);
            if k == 0 {
                let q = choose|q: int| 0 <= q < groups[0].1.len() && groups[0].1[q] == e;
                assert(r[0].1[q] == e);
            } else {
                assert(r[k] == groups[k]);
            }
        }
        assert forall|k: int| 0 <= k < r.len() implies (#[trigger] r[k]).0 == id
            || exists|q: int| 0 <= q < groups.len() && (#[trigger] groups[q]).0 == r[k].0 by {
            if k > 0 { assert(r[k] == groups[k]); }
        }
    } else if id < groups[0].0 {
        assert(r[0].1[0] == entry);
        assert forall|x: int, y: int| 0 <= x < y < r.len() implies (#[trigger] r[x]).0 < (#[trigger] r[y]).0 by {
            assert(r[y] == groups[y - 1]);
            if x > 0 {
                assert(r[x] == groups[x - 1]);
            } else if y > 1 {
                assert(groups[0].0 < groups[y - 1].0);
            }
        }
        assert forall|x: u64, e: (Seq<char>, Seq<char>)| #[trigger] filed(groups, x, e) implies filed(r, x, e) by {
            let k = choose|k: int| 0 <= k < groups.len() && (#[trigger] groups[k]).0 == x && groups[k].1.contains(e);
            assert(r[k + 1] == groups[k]);
        }
        assert forall|k: int| 0 <= k < r.len() implies (#[trigger] r[k]).0 == id
            || exists|q: int| 0 <= q < groups.len() && (#[trigger] groups[q]).0 == r[k].0 by {
            if k > 0 { assert(r[k] == groups[k - 1]); }
        }
    } else {
        let t = groups.drop_first();
        assert forall|x: int, y: int| 0 <= x < y < t.len() implies (#[trigger] t[x]).0 < (#[trigger] t[y]).0 by {
            assert(t[x] == groups[x + 1] && t[y] == groups[y + 1]);
        }
        lemma_add_gb_files(t, id, entry);
        let rt = add_gb(t, id, entry);
        assert(r == seq![groups[0]] + rt);
        assert forall|x: int, y: int| 0 <= x < y < r.len() implies (#[trigger] r[x]).0 < (#[trigger] r[y]).0 by {
            assert(r[y] == rt[y - 1]);
            if x > 0 {
                assert(r[x] == rt[x - 1]);
            } else {
                if rt[y - 1].0 != id {
                    let q = choose|q: int| 0 <= q < t.len() && (#[trigger] t[q]).0 == rt[y - 1].0;
                    assert(t[q] == groups[q + 1]);
                }
            }
        }
        let k0 = choose|k: int| 0 <= k < rt.len() && (#[trigger] rt[k]).0 == id && rt[k].1.contains(entry);
        assert(r[k0 + 1] == rt[k0]);
        assert forall|x: u64, e: (Seq<char>, Seq<char>)| #[trigger] filed(groups, x, e) implies filed(r, x, e) by {
            let k = choose|k: int| 0 <= k < groups.len() && (#[trigger] groups[k]).0 == x && groups[k].1.contains(e);
            if k == 0 {
                assert(r[0] == groups[0]);
            } else {
                assert(t[k - 1] == groups[k]);
                assert(filed(t, x, e));
                let j = choose|j: int| 0 <= j < rt.len() && (#[trigger] rt[j]).0 == x && rt[j].1.contains(e);
                assert(r[j + 1] == rt[j]);
            }
        }
        assert forall|k: int| 0 <= k < r.len() implies (#[trigger] r[k]).0 == id
            || exists|q: int| 0 <= q < groups.len() && (#[trigger] groups[q]).0 == r[k].0 by {
            if k > 0 {
                assert(r[k] == rt[k - 1]);
                if rt[k - 1].0 != id {
                    let q = choose|q: int| 0 <= q < t.len() && (#[trigger] t[q]).0 == rt[k - 1].0;
                    assert(t[q] == groups[q + 1]);
                }
            }
        }
    }
}

proof fn lemma_gb_groups_file(mods: Seq<ModFile>, folders: Seq<Option<Seq<char>>>, n: int)
    requires
        0 <= n <= mods.len(),
        folders.len() == mods.len(),
    ensures
        gb_keys_sorted(gb_groups(mods, folders, n)),
        forall|i: int, id: u64, f: Seq<char>| 0 <= i < n && mods[i].gamebanana_mod_id == Some(id) && folders[i] == Some(f)
            ==> #[trigger] filed(gb_groups(mods, folders, n), id, (f, mods[i].name@)),
    decreases n,
{
    if n > 0 {
        lemma_gb_groups_file(mods, folders, n - 1);
        let p = gb_groups(mods, folders, n - 1);
        match (mods[n - 1].gamebanana_mod_id, folders[n - 1]) {
            (Some(id), Some(folder)) => {
                lemma_add_gb_files(p, id, (folder, mods[n - 1].name@));
            },
            _ => {},
        }
        assert forall|i: int, id: u64, f: Seq<char>| 0 <= i < n && mods[i].gamebanana_mod_id == Some(id) && folders[i] == Some(f)
            implies #[trigger] filed(gb_groups(mods, folders, n), id, (f, mods[i].name@)) by {
            if i < n - 1 {
                assert(filed(p, id, (f, mods[i].name@)));
            }
        }
    }
}

proof fn lemma_gb_groups_only(mods: Seq<ModFile>, folders: Seq<Option<Seq<char>>>, n: int)
    requires
        0 <= n <= mods.len(),
        folders.len() == mods.len(),
    ensures
        forall|x: u64, e: (Seq<char>, Seq<char>)| #[trigger] filed(gb_groups(mods, folders, n), x, e)
            ==> exists|i: int| 0 <= i < n && mods[i].gamebanana_mod_id == Some(x) && #[trigger] folders[i] == Some(e.0)
                && mods[i].name@ == e.1,
    decreases n,
{
    if n > 0 {
        lemma_gb_groups_only(mods, folders, n - 1);
        let p = gb_groups(mods, folders, n - 1);
        match (mods[n - 1].gamebanana_mod_id, folders[n - 1]) {
            (Some(id), Some(folder)) => {
                lemma_add_gb_only(p, id, (folder, mods[n - 1].name@));
            },
            _ => {},
        }
        assert forall|x: u64, e: (Seq<char>, Seq<char>)| #[trigger] filed(gb_groups(mods, folders, n), x, e)
            implies exists|i: int| 0 <= i < n && mods[i].gamebanana_mod_id == Some(x) && #[trigger] folders[i] == Some(e.0)
                && mods[i].name@ == e.1 by {
            if filed(p, x, e) {
                let i = choose|i: int| 0 <= i < n - 1 && mods[i].gamebanana_mod_id == Some(x) && #[trigger] folders[i] == Some(e.0)
                    && mods[i].name@ == e.1;
            } else {
                assert(folders[n - 1] == Some(e.0));
            }
        }
    }
}

proof fn lemma_duplicate_from(groups: GbGroups, q: int)
    requires
        0 <= q < duplicate_found_in(groups).len(),
    ensures
        exists|k: int| 0 <= k < groups.len() && several_folders((#[trigger] groups[k]).1)
            && duplicate_found_in(groups)[q].1
                == (WarningView::DuplicateGamebananaMod { mod_id: groups[k].0, names: group_names(groups[k].1) }),
    decreases groups.len(),
{
    let d = groups.drop_last();
    let p = duplicate_found_in(d);
    if q < p.len() {
        lemma_duplicate_from(d, q);
        let k = choose|k: int| 0 <= k < d.len() && several_folders((#[trigger] d[k]).1)
            && p[q].1 == (WarningView::DuplicateGamebananaMod { mod_id: d[k].0, names: group_names(d[k].1) });
        assert(groups[k] == d[k]);
    } else {
        assert(groups[groups.len() - 1] == groups.last());
    }
}

/// A duplicate-install warning for `id` comes only from installs of that
/// GameBanana mod in two or more different folders, and names exactly the
/// installs of it that have a folder: copies in one folder never raise it.
pub proof fn law_duplicate_install_needs_two_folders(mods: Seq<ModFile>, g: Seq<(Seq<char>, Seq<Seq<char>>)>,
    folders: Seq<Option<Seq<char>>>, id: u64, names: Seq<Seq<char>>)
    requires
        folders.len() == mods.len(),
        warnings_of(mods, g, folders).contains(WarningView::DuplicateGamebananaMod { mod_id: id, names }),
    ensures
        exists|i: int, j: int| 0 <= i < mods.len() && 0 <= j < mods.len()
            && mods[i].gamebanana_mod_id == Some(id) && mods[j].gamebanana_mod_id == Some(id)
            && #[trigger] folders[i] is Some && #[trigger] folders[j] is Some && folders[i] != folders[j],
        forall|x: Seq<char>| #[trigger] names.contains(x) <==> exists|i: int| 0 <= i < mods.len()
            && mods[i].gamebanana_mod_id == Some(id) && #[trigger] folders[i] is Some && mods[i].name@ == x,
{
    let n = mods.len() as int;
    let groups = gb_groups(mods, folders, n);
    let found = duplicate_found_in(groups);
    let a = sorted_found(found);
    let b = sorted_found(overlap_found_in(asset_groups(mods, n)));
    let c = sorted_found(eclipse_found(mods, g, n));
    let d = sorted_found(unlistable_found(mods, n));
    let all = warnings_of(mods, g, folders);
    assert(all == a + b + c + d);
    let w = WarningView::DuplicateGamebananaMod { mod_id: id, names };
    let r = choose|r: int| 0 <= r < all.len() && all[r] == w;
    // The warning comes from the duplicate part.
    if r >= a.len() + b.len() + c.len() {
        assert(d[r - a.len() - b.len() - c.len()] == w);
        assert(d.contains(w));
        lemma_sorted_found_from(unlistable_found(mods, n), w);
        let i = choose|i: int| 0 <= i < unlistable_found(mods, n).len() && #[trigger] unlistable_found(mods, n)[i].1 == w;
        lemma_unlistable_kinds(mods, n, i);
    } else if r >= a.len() + b.len() {
        assert(c[r - a.len() - b.len()] == w);
        assert(c.contains(w));
        lemma_sorted_found_from(eclipse_found(mods, g, n), w);
        let i = choose|i: int| 0 <= i < eclipse_found(mods, g, n).len() && #[trigger] eclipse_found(mods, g, n)[i].1 == w;
        lemma_eclipse_kinds(mods, g, n, i);
    } else if r >= a.len() {
        assert(b[r - a.len()] == w);
        assert(b.contains(w));
        lemma_sorted_found_from(overlap_found_in(asset_groups(mods, n)), w);
        let i = choose|i: int| 0 <= i < overlap_found_in(asset_groups(mods, n)).len()
            && #[trigger] overlap_found_in(asset_groups(mods, n))[i].1 == w;
        lemma_overlap_kinds(asset_groups(mods, n), i);
    }
    assert(a[r] == w);
    assert(a.contains(w));
    lemma_sorted_found_from(found, w);
    let q = choose|q: int| 0 <= q < found.len() && #[trigger] found[q].1 == w;
    lemma_duplicate_from(groups, q);
    let k = choose|k: int| 0 <= k < groups.len() && several_folders((#[trigger] groups[k]).1)
        && found[q].1 == (WarningView::DuplicateGamebananaMod { mod_id: groups[k].0, names: group_names(groups[k].1) });
    let entries = groups[k].1;
    assert(groups[k].0 == id && names == group_names(entries));
    lemma_gb_groups_only(mods, folders, n);
    lemma_gb_groups_file(mods, folders, n);
    // Two entries in different folders, each from an install of `id`.
    let (x, y) = choose|x: int, y: int| 0 <= x < entries.len() && 0 <= y < entries.len() && #[trigger] entries[x].0 != #[trigger] entries[y].0;
    assert(filed(groups, id, entries[x]));
    assert(filed(groups, id, entries[y]));
    let i = choose|i: int| 0 <= i < n && mods[i].gamebanana_mod_id == Some(id) && #[trigger] folders[i] == Some(entries[x].0)
        && mods[i].name@ == entries[x].1;
    let j = choose|j: int| 0 <= j < n && mods[j].gamebanana_mod_id == Some(id) && #[trigger] folders[j] == Some(entries[y].0)
        && mods[j].name@ == entries[y].1;
    assert(folders[i] is Some && folders[j] is Some && folders[i] != folders[j]);
    // The names are those of the group's entries.
    let nm = entries.map_values(|e: (Seq<char>, Seq<char>)| e.1);
    lemma_sorted_listing(nm.to_set());
    assert forall|t: Seq<char>| #[trigger] names.contains(t) <==> exists|i: int| 0 <= i < mods.len()
        && mods[i].gamebanana_mod_id == Some(id) && #[trigger] folders[i] is Some && mods[i].name@ == t by {
        if names.contains(t) {
            assert(names.to_set().contains(t));
            assert(nm.to_set().contains(t));
            let z = choose|z: int| 0 <= z < nm.len() && nm[z] == t;
            assert(filed(groups, id, entries[z]));
            let m = choose|m: int| 0 <= m < n && mods[m].gamebanana_mod_id == Some(id) && #[trigger] folders[m] == Some(entries[z].0)
                && mods[m].name@ == entries[z].1;
            assert(folders[m] is Some);
        }
        if exists|i: int| 0 <= i < mods.len() && mods[i].gamebanana_mod_id == Some(id) && #[trigger] folders[i] is Some && mods[i].name@ == t {
            let m = choose|m: int| 0 <= m < mods.len() && mods[m].gamebanana_mod_id == Some(id) && #[trigger] folders[m] is Some && mods[m].name@ == t;
            let f = folders[m]->0;
            assert(filed(groups, id, (f, mods[m].name@)));
            let k2 = choose|k2: int| 0 <= k2 < groups.len() && (#[trigger] groups[k2]).0 == id && groups[k2].1.contains((f, mods[m].name@));
            if k2 < k {
                assert(groups[k2].0 < groups[k].0);
            } else if k < k2 {
                assert(groups[k].0 < groups[k2].0);
            }
            let z = choose|z: int| 0 <= z < entries.len() && entries[z] == (f, mods[m].name@);
            assert(nm[z] == t);
            assert(nm.to_set().contains(t));
            assert(names.to_set().contains(t));
        }
    }
}

proof fn lemma_duplicate_found(groups: GbGroups, k: int)
    requires
        0 <= k < groups.len(),
        several_folders(groups[k].1),
    ensures
        exists|q: int| 0 <= q < duplicate_found_in(groups).len() && (#[trigger] duplicate_found_in(groups)[q]).1
            == (WarningView::DuplicateGamebananaMod { mod_id: groups[k].0, names: group_names(groups[k].1) }),
    decreases groups.len(),
{
    let d = groups.drop_last();
    let p = duplicate_found_in(d);
    let r = duplicate_found_in(groups);
    if k < d.len() {
        assert(d[k] == groups[k]);
        lemma_duplicate_found(d, k);
        let q = choose|q: int| 0 <= q < p.len() && (#[trigger] p[q]).1
            == (WarningView::DuplicateGamebananaMod { mod_id: d[k].0, names: group_names(d[k].1) });
        assert(r[q] == p[q]);
    } else {
        assert(groups.last() == groups[k]);
        assert(r[p.len() as int].1 == (WarningView::DuplicateGamebananaMod { mod_id: groups[k].0, names: group_names(groups[k].1) }));
    }
}

proof fn lemma_sorted_found_has(found: Found, q: int)
    requires
        0 <= q < found.len(),
    ensures
        sorted_found(found).contains(found[q].1),
{
    let ix = indexed(found);
    let sk = sort_keyed(ix);
    assert(ix[q] == (found[q].0, q));
    assert(ix.contains(ix[q]));
    lemma_sort_keyed_contains(ix, ix[q]);
    lemma_sort_keyed_len(ix);
    let r = choose|r: int| 0 <= r < sk.len() && sk[r] == ix[q];
    assert(sorted_found(found)[r] == found[q].1);
}

/// One GameBanana mod installed in two different folders is reported, with
/// both installs among the names, whether they are enabled or not.
pub proof fn law_duplicate_install_reported(mods: Seq<ModFile>, g: Seq<(Seq<char>, Seq<Seq<char>>)>,
    folders: Seq<Option<Seq<char>>>, i: int, j: int, id: u64, a: Seq<char>, b: Seq<char>)
    requires
        folders.len() == mods.len(),
        0 <= i < mods.len(),
        0 <= j < mods.len(),
        mods[i].gamebanana_mod_id == Some(id),
        mods[j].gamebanana_mod_id == Some(id),
        folders[i] == Some(a),
        folders[j] == Some(b),
        a != b,
    ensures
        exists|names: Seq<Seq<char>>| #[trigger] warnings_of(mods, g, folders).contains(WarningView::DuplicateGamebananaMod { mod_id: id, names })
            && names.contains(mods[i].name@) && names.contains(mods[j].name@),
{
    let n = mods.len() as int;
    let groups = gb_groups(mods, folders, n);
    lemma_gb_groups_file(mods, folders, n);
    assert(filed(groups, id, (a, mods[i].name@)));
    assert(filed(groups, id, (b, mods[j].name@)));
    let ki = choose|k: int| 0 <= k < groups.len() && (#[trigger] groups[k]).0 == id && groups[k].1.contains((a, mods[i].name@));
    let kj = choose|k: int| 0 <= k < groups.len() && (#[trigger] groups[k]).0 == id && groups[k].1.contains((b, mods[j].name@));
    if ki < kj {
        assert(groups[ki].0 < groups[kj].0);
    } else if kj < ki {
        assert(groups[kj].0 < groups[ki].0);
    }
    let entries = groups[ki].1;
    let x = choose|x: int| 0 <= x < entries.len() && entries[x] == (a, mods[i].name@);
    let y = choose|y: int| 0 <= y < entries.len() && entries[y] == (b, mods[j].name@);
    assert(entries[x].0 != entries[y].0);
    assert(several_folders(entries));
    lemma_duplicate_found(groups, ki);
    let found = duplicate_found_in(groups);
    let names = group_names(entries);
    let w = WarningView::DuplicateGamebananaMod { mod_id: id, names };
    let q = choose|q: int| 0 <= q < found.len() && (#[trigger] found[q]).1 == w;
    lemma_sorted_found_has(found, q);
    let first = sorted_found(found);
    let all = warnings_of(mods, g, folders);
    let pos = choose|r: int| 0 <= r < first.len() && first[r] == w;
    assert(all[pos] == w);
    let nm = entries.map_values(|e: (Seq<char>, Seq<char>)| e.1);
    assert(nm[x] == mods[i].name@ && nm[y] == mods[j].name@);
    lemma_sorted_listing(nm.to_set());
    assert(nm.to_set().contains(mods[i].name@));
    assert(nm.to_set().contains(mods[j].name@));
    assert(names.to_set().contains(mods[i].name@));
    assert(names.to_set().contains(mods[j].name@));
    assert(all.contains(w));
}

/// The mod at `i` is enabled, could not be listed for `reason`, and is
/// named `name`.
pub open spec fn unlistable_at(mods: Seq<ModFile>, i: int, name: Seq<char>, reason: Seq<char>) -> bool {
    &&& mods[i].enabled
    &&& mods[i].error matches Some(r) && r@ == reason
    &&& mods[i].name@ == name
}

/// `w` reports the mod at `i` as unlistable.
pub open spec fn reports_unlistable(mods: Seq<ModFile>, w: WarningView, i: int) -> bool {
    match w {
        WarningView::Unlistable { name, reason } => unlistable_at(mods, i, name, reason),
        _ => false,
    }
}

/// `m` is enabled and could not be listed.
pub open spec fn failed_enabled(m: ModFile) -> bool {
    m.enabled && m.error is Some
}

/// `w` reports one of the first `n` mods as unlistable.
pub open spec fn reports_some_unlistable(mods: Seq<ModFile>, w: WarningView, n: int) -> bool {
    exists|i: int| 0 <= i < n && reports_unlistable(mods, w, i)
}

proof fn lemma_unlistable_found(mods: Seq<ModFile>, n: int)
    requires
        0 <= n <= mods.len(),
    ensures
        forall|q: int| 0 <= q < unlistable_found(mods, n).len()
            ==> reports_some_unlistable(mods, (#[trigger] unlistable_found(mods, n)[q]).1, n),
        forall|i: int| 0 <= i < n && #[trigger] failed_enabled(mods[i]) ==> exists|q: int|
            0 <= q < unlistable_found(mods, n).len() && (#[trigger] unlistable_found(mods, n)[q]).1
                == (WarningView::Unlistable { name: mods[i].name@, reason: mods[i].error->0@ }),
    decreases n,
{
    if n > 0 {
        lemma_unlistable_found(mods, n - 1);
        let p = unlistable_found(mods, n - 1);
        let f = unlistable_found(mods, n);
        let m = mods[n - 1];
        let last = (m.name@, WarningView::Unlistable { name: m.name@, reason: m.error->0@ });
        assert(f == if failed_enabled(m) { p.push(last) } else { p });
        assert forall|q: int| 0 <= q < unlistable_found(mods, n).len()
            implies reports_some_unlistable(mods, (#[trigger] unlistable_found(mods, n)[q]).1, n) by {
            if q < p.len() {
                assert(f[q] == p[q]);
                assert(reports_some_unlistable(mods, p[q].1, n - 1));
                let i = choose|i: int| 0 <= i < n - 1 && reports_unlistable(mods, p[q].1, i);
                assert(reports_unlistable(mods, f[q].1, i));
            } else {
                assert(f[q] == last);
                assert(reports_unlistable(mods, f[q].1, n - 1));
            }
        }
        assert forall|i: int| 0 <= i < n && #[trigger] failed_enabled(mods[i]) implies exists|q: int|
            0 <= q < f.len() && (#[trigger] f[q]).1 == (WarningView::Unlistable { name: mods[i].name@, reason: mods[i].error->0@ }) by {
            if i < n - 1 {
                let q = choose|q: int| 0 <= q < p.len() && (#[trigger] p[q]).1
                    == (WarningView::Unlistable { name: mods[i].name@, reason: mods[i].error->0@ });
                assert(f[q] == p[q]);
            } else {
                assert(f[p.len() as int] == last);
            }
        }
    }
}

/// An archive that could not be listed is reported exactly when its mod is
/// enabled: one warning per such mod, with its name and the reason; a
/// disabled mod with an error raises none.
pub proof fn law_unlistable_exactly(mods: Seq<ModFile>, g: Seq<(Seq<char>, Seq<Seq<char>>)>,
    folders: Seq<Option<Seq<char>>>, name: Seq<char>, reason: Seq<char>)
    ensures
        warnings_of(mods, g, folders).contains(WarningView::Unlistable { name, reason })
            <==> exists|i: int| 0 <= i < mods.len() && #[trigger] unlistable_at(mods, i, name, reason),
{
    let n = mods.len() as int;
    let a = sorted_found(duplicate_found_in(gb_groups(mods, folders, n)));
    let b = sorted_found(overlap_found_in(asset_groups(mods, n)));
    let c = sorted_found(eclipse_found(mods, g, n));
    let uf = unlistable_found(mods, n);
    let d = sorted_found(uf);
    let all = warnings_of(mods, g, folders);
    let w = WarningView::Unlistable { name, reason };
    assert(all == a + b + c + d);
    lemma_unlistable_found(mods, n);
    if all.contains(w) {
        let r = choose|r: int| 0 <= r < all.len() && all[r] == w;
        if r < a.len() {
            assert(a[r] == w);
            assert(a.contains(w));
            lemma_sorted_found_from(duplicate_found_in(gb_groups(mods, folders, n)), w);
            let i = choose|i: int| 0 <= i < duplicate_found_in(gb_groups(mods, folders, n)).len()
                && #[trigger] duplicate_found_in(gb_groups(mods, folders, n))[i].1 == w;
            lemma_duplicate_kinds(gb_groups(mods, folders, n), i);
        } else if r < a.len() + b.len() {
            assert(b[r - a.len()] == w);
            assert(b.contains(w));
            lemma_sorted_found_from(overlap_found_in(asset_groups(mods, n)), w);
            let i = choose|i: int| 0 <= i < overlap_found_in(asset_groups(mods, n)).len()
                && #[trigger] overlap_found_in(asset_groups(mods, n))[i].1 == w;
            lemma_overlap_kinds(asset_groups(mods, n), i);
        } else if r < a.len() + b.len() + c.len() {
            assert(c[r - a.len() - b.len()] == w);
            assert(c.contains(w));
            lemma_sorted_found_from(eclipse_found(mods, g, n), w);
            let i = choose|i: int| 0 <= i < eclipse_found(mods, g, n).len() && #[trigger] eclipse_found(mods, g, n)[i].1 == w;
            lemma_eclipse_kinds(mods, g, n, i);
        } else {
            assert(d[r - a.len() - b.len() - c.len()] == w);
            assert(d.contains(w));
            lemma_sorted_found_from(uf, w);
            let q = choose|q: int| 0 <= q < uf.len() && #[trigger] uf[q].1 == w;
            assert(reports_some_unlistable(mods, uf[q].1, n));
            let i = choose|i: int| 0 <= i < n && reports_unlistable(mods, uf[q].1, i);
            assert(unlistable_at(mods, i, name, reason));
        }
    }
    if exists|i: int| 0 <= i < mods.len() && #[trigger] unlistable_at(mods, i, name, reason) {
        let i = choose|i: int| 0 <= i < mods.len() && #[trigger] unlistable_at(mods, i, name, reason);
        assert(failed_enabled(mods[i]));
        let q = choose|q: int| 0 <= q < uf.len() && (#[trigger] uf[q]).1
            == (WarningView::Unlistable { name: mods[i].name@, reason: mods[i].error->0@ });
        assert(uf[q].1 == w);
        lemma_sorted_found_has(uf, q);
        let pos = choose|pos: int| 0 <= pos < d.len() && d[pos] == w;
        assert(all[a.len() + b.len() + c.len() + pos] == w);
    }
}

/// The mod at `i` is named `name`, is enabled and listable with at least
/// one asset, shares no group of identical asset lists, and loses every
/// asset to another mod.
pub open spec fn eclipsed_at(mods: Seq<ModFile>, g: Seq<(Seq<char>, Seq<Seq<char>>)>, i: int, name: Seq<char>) -> bool {
    &&& mods[i].name@ == name
    &&& overlap_candidate(mods[i])
    &&& !in_overlap_group(mods, name)
    &&& eclipsed(g, mods[i])
}

/// `w` reports one of the first `n` mods as totally eclipsed.
pub open spec fn reports_some_eclipse(mods: Seq<ModFile>, g: Seq<(Seq<char>, Seq<Seq<char>>)>, w: WarningView, n: int) -> bool {
    exists|i: int| 0 <= i < n && w == (WarningView::TotalEclipse { name: mods[i].name@ }) && #[trigger] eclipsed_at(mods, g, i, mods[i].name@)
}

proof fn lemma_eclipse_found(mods: Seq<ModFile>, g: Seq<(Seq<char>, Seq<Seq<char>>)>, n: int)
    requires
        0 <= n <= mods.len(),
    ensures
        forall|q: int| 0 <= q < eclipse_found(mods, g, n).len()
            ==> reports_some_eclipse(mods, g, (#[trigger] eclipse_found(mods, g, n)[q]).1, n),
        forall|i: int| 0 <= i < n && #[trigger] eclipsed_at(mods, g, i, mods[i].name@) ==> exists|q: int|
            0 <= q < eclipse_found(mods, g, n).len()
                && (#[trigger] eclipse_found(mods, g, n)[q]).1 == (WarningView::TotalEclipse { name: mods[i].name@ }),
    decreases n,
{
    if n > 0 {
        lemma_eclipse_found(mods, g, n - 1);
        let p = eclipse_found(mods, g, n - 1);
        let f = eclipse_found(mods, g, n);
        let last = (mods[n - 1].name@, WarningView::TotalEclipse { name: mods[n - 1].name@ });
        assert(f == if eclipsed_at(mods, g, n - 1, mods[n - 1].name@) { p.push(last) } else { p });
        assert forall|q: int| 0 <= q < eclipse_found(mods, g, n).len()
            implies reports_some_eclipse(mods, g, (#[trigger] eclipse_found(mods, g, n)[q]).1, n) by {
            if q < p.len() {
                assert(f[q] == p[q]);
                assert(reports_some_eclipse(mods, g, p[q].1, n - 1));
                let i = choose|i: int| 0 <= i < n - 1 && p[q].1 == (WarningView::TotalEclipse { name: mods[i].name@ })
                    && #[trigger] eclipsed_at(mods, g, i, mods[i].name@);
                assert(eclipsed_at(mods, g, i, mods[i].name@));
            } else {
                assert(f[q] == last);
                assert(eclipsed_at(mods, g, n - 1, mods[n - 1].name@));
            }
        }
        assert forall|i: int| 0 <= i < n && #[trigger] eclipsed_at(mods, g, i, mods[i].name@) implies exists|q: int|
            0 <= q < f.len() && (#[trigger] f[q]).1 == (WarningView::TotalEclipse { name: mods[i].name@ }) by {
            if i < n - 1 {
                let q = choose|q: int| 0 <= q < p.len() && (#[trigger] p[q]).1 == (WarningView::TotalEclipse { name: mods[i].name@ });
                assert(f[q] == p[q]);
            } else {
                assert(f[p.len() as int] == last);
            }
        }
    }
}

/// A mod is reported as totally eclipsed exactly when it is enabled and
/// listable with at least one asset, every asset of it is won by another
/// mod, and it shares no group of identical asset lists (that is reported
/// as a mutual overlap instead).
pub proof fn law_eclipse_exactly(mods: Seq<ModFile>, g: Seq<(Seq<char>, Seq<Seq<char>>)>,
    folders: Seq<Option<Seq<char>>>, name: Seq<char>)
    ensures
        warnings_of(mods, g, folders).contains(WarningView::TotalEclipse { name })
            <==> exists|i: int| 0 <= i < mods.len() && #[trigger] eclipsed_at(mods, g, i, name),
{
    let n = mods.len() as int;
    let a = sorted_found(duplicate_found_in(gb_groups(mods, folders, n)));
    let b = sorted_found(overlap_found_in(asset_groups(mods, n)));
    let ef = eclipse_found(mods, g, n);
    let c = sorted_found(ef);
    let d = sorted_found(unlistable_found(mods, n));
    let all = warnings_of(mods, g, folders);
    let w = WarningView::TotalEclipse { name };
    assert(all == a + b + c + d);
    lemma_eclipse_found(mods, g, n);
    if all.contains(w) {
        let r = choose|r: int| 0 <= r < all.len() && all[r] == w;
        if r < a.len() {
            assert(a[r] == w);
            assert(a.contains(w));
            lemma_sorted_found_from(duplicate_found_in(gb_groups(mods, folders, n)), w);
            let i = choose|i: int| 0 <= i < duplicate_found_in(gb_groups(mods, folders, n)).len()
                && #[trigger] duplicate_found_in(gb_groups(mods, folders, n))[i].1 == w;
            lemma_duplicate_kinds(gb_groups(mods, folders, n), i);
        } else if r < a.len() + b.len() {
            assert(b[r - a.len()] == w);
            assert(b.contains(w));
            lemma_sorted_found_from(overlap_found_in(asset_groups(mods, n)), w);
            let i = choose|i: int| 0 <= i < overlap_found_in(asset_groups(mods, n)).len()
                && #[trigger] overlap_found_in(asset_groups(mods, n))[i].1 == w;
            lemma_overlap_kinds(asset_groups(mods, n), i);
        } else if r < a.len() + b.len() + c.len() {
            assert(c[r - a.len() - b.len()] == w);
            assert(c.contains(w));
            lemma_sorted_found_from(ef, w);
            let q = choose|q: int| 0 <= q < ef.len() && #[trigger] ef[q].1 == w;
            assert(reports_some_eclipse(mods, g, ef[q].1, n));
            let i = choose|i: int| 0 <= i < n && ef[q].1 == (WarningView::TotalEclipse { name: mods[i].name@ })
                && #[trigger] eclipsed_at(mods, g, i, mods[i].name@);
            assert(eclipsed_at(mods, g, i, name));
        } else {
            assert(d[r - a.len() - b.len() - c.len()] == w);
            assert(d.contains(w));
            lemma_sorted_found_from(unlistable_found(mods, n), w);
            let i = choose|i: int| 0 <= i < unlistable_found(mods, n).len() && #[trigger] unlistable_found(mods, n)[i].1 == w;
            lemma_unlistable_kinds(mods, n, i);
        }
    }
    if exists|i: int| 0 <= i < mods.len() && #[trigger] eclipsed_at(mods, g, i, name) {
        let i = choose|i: int| 0 <= i < mods.len() && #[trigger] eclipsed_at(mods, g, i, name);
        assert(eclipsed_at(mods, g, i, mods[i].name@));
        let q = choose|q: int| 0 <= q < ef.len() && (#[trigger] ef[q]).1 == (WarningView::TotalEclipse { name: mods[i].name@ });
        lemma_sorted_found_has(ef, q);
        let pos = choose|pos: int| 0 <= pos < c.len() && c[pos] == w;
        assert(all[a.len() + b.len() + pos] == w);
    }
}

/// Some group of asset list `key` holds the name `x`.
pub open spec fn grouped(groups: Groups, key: Seq<Seq<char>>, x: Seq<char>) -> bool {
    exists|k: int| 0 <= k < groups.len() && (#[trigger] groups[k]).0 == key && groups[k].1.contains(x)
}

proof fn lemma_add_to_group_only(groups: Groups, key: Seq<Seq<char>>, name: Seq<char>)
    ensures
        forall|kk: Seq<Seq<char>>, x: Seq<char>| #[trigger] grouped(add_to_group(groups, key, name), kk, x)
            ==> (kk == key && x == name) || grouped(groups, kk, x),
    decreases groups.len(),
{
    let r = add_to_group(groups, key, name);
    if groups.len() > 0 && groups[0].0 != key && !seqs_lt(key, groups[0].0) {
        lemma_add_to_group_only(groups.drop_first(), key, name);
        assert(r == seq![groups[0]] + add_to_group(groups.drop_first(), key, name));
    }
    assert forall|kk: Seq<Seq<char>>, x: Seq<char>| #[trigger] grouped(r, kk, x) implies (kk == key && x == name) || grouped(groups, kk, x) by {
        let k = choose|k: int| 0 <= k < r.len() && (#[trigger] r[k]).0 == kk && r[k].1.contains(x);
        if groups.len() == 0 {
            assert(r[0].1 == seq![name]);
        } else if groups[0].0 == key {
            if k == 0 {
                let q = choose|q: int| 0 <= q < r[0].1.len() && r[0].1[q] == x;
                if q < groups[0].1.len() {
                    assert(r[0].1[q] == groups[0].1[q]);
                }
            } else {
                assert(r[k] == groups[k]);
            }
        } else if seqs_lt(key, groups[0].0) {
            if k == 0 {
                assert(r[0].1 == seq![name]);
            } else {
                assert(r[k] == groups[k - 1]);
            }
        } else {
            let t = groups.drop_first();
            let rt = add_to_group(t, key, name);
            if k == 0 {
                assert(r[0] == groups[0]);
            } else {
                assert(r[k] == rt[k - 1]);
                assert(grouped(rt, kk, x));
                if grouped(t, kk, x) {
                    let j = choose|j: int| 0 <= j < t.len() && (#[trigger] t[j]).0 == kk && t[j].1.contains(x);
                    assert(t[j] == groups[j + 1]);
                }
            }
        }
    }
}

/// Among the first `n` mods, one that takes part in overlap groups has the
/// asset list `key` and the name `x`.
pub open spec fn candidate_with(mods: Seq<ModFile>, n: int, key: Seq<Seq<char>>, x: Seq<char>) -> bool {
    exists|i: int| 0 <= i < n && #[trigger] overlap_candidate(mods[i]) && mods[i].assets@ == key && mods[i].name@ == x
}

proof fn lemma_asset_groups_only(mods: Seq<ModFile>, n: int)
    requires
        0 <= n <= mods.len(),
    ensures
        forall|kk: Seq<Seq<char>>, x: Seq<char>| #[trigger] grouped(asset_groups(mods, n), kk, x) ==> candidate_with(mods, n, kk, x),
    decreases n,
{
    if n > 0 {
        lemma_asset_groups_only(mods, n - 1);
        let p = asset_groups(mods, n - 1);
        if overlap_candidate(mods[n - 1]) {
            lemma_add_to_group_only(p, mods[n - 1].assets@, mods[n - 1].name@);
        }
        assert forall|kk: Seq<Seq<char>>, x: Seq<char>| #[trigger] grouped(asset_groups(mods, n), kk, x) implies candidate_with(mods, n, kk, x) by {
            if grouped(p, kk, x) {
                assert(candidate_with(mods, n - 1, kk, x));
                let i = choose|i: int| 0 <= i < n - 1 && #[trigger] overlap_candidate(mods[i]) && mods[i].assets@ == kk && mods[i].name@ == x;
            } else {
                assert(overlap_candidate(mods[n - 1]));
            }
        }
    }
}

/// A mutual-overlap warning names two or more mods, and for one non-empty
/// list of assets it names exactly the enabled, listable mods that provide
/// that list.
pub proof fn law_overlap_names_share_assets(mods: Seq<ModFile>, g: Seq<(Seq<char>, Seq<Seq<char>>)>,
    folders: Seq<Option<Seq<char>>>, names: Seq<Seq<char>>)
    requires
        warnings_of(mods, g, folders).contains(WarningView::MutualOverlap { names }),
    ensures
        names.len() >= 2,
        exists|key: Seq<Seq<char>>| key.len() > 0 && forall|x: Seq<char>| #[trigger] names.contains(x)
            <==> candidate_with(mods, mods.len() as int, key, x),
{
    let n = mods.len() as int;
    let groups = asset_groups(mods, n);
    let of = overlap_found_in(groups);
    let a = sorted_found(duplicate_found_in(gb_groups(mods, folders, n)));
    let b = sorted_found(of);
    let c = sorted_found(eclipse_found(mods, g, n));
    let d = sorted_found(unlistable_found(mods, n));
    let all = warnings_of(mods, g, folders);
    let w = WarningView::MutualOverlap { names };
    assert(all == a + b + c + d);
    let r = choose|r: int| 0 <= r < all.len() && all[r] == w;
    if r < a.len() {
        assert(a[r] == w);
        assert(a.contains(w));
        lemma_sorted_found_from(duplicate_found_in(gb_groups(mods, folders, n)), w);
        let i = choose|i: int| 0 <= i < duplicate_found_in(gb_groups(mods, folders, n)).len()
            && #[trigger] duplicate_found_in(gb_groups(mods, folders, n))[i].1 == w;
        lemma_duplicate_kinds(gb_groups(mods, folders, n), i);
    } else if r >= a.len() + b.len() + c.len() {
        assert(d[r - a.len() - b.len() - c.len()] == w);
        assert(d.contains(w));
        lemma_sorted_found_from(unlistable_found(mods, n), w);
        let i = choose|i: int| 0 <= i < unlistable_found(mods, n).len() && #[trigger] unlistable_found(mods, n)[i].1 == w;
        lemma_unlistable_kinds(mods, n, i);
    } else if r >= a.len() + b.len() {
        assert(c[r - a.len() - b.len()] == w);
        assert(c.contains(w));
        lemma_sorted_found_from(eclipse_found(mods, g, n), w);
        let i = choose|i: int| 0 <= i < eclipse_found(mods, g, n).len() && #[trigger] eclipse_found(mods, g, n)[i].1 == w;
        lemma_eclipse_kinds(mods, g, n, i);
    }
    assert(b[r - a.len()] == w);
    assert(b.contains(w));
    lemma_sorted_found_from(of, w);
    let q = choose|q: int| 0 <= q < of.len() && #[trigger] of[q].1 == w;
    lemma_overlap_kinds(groups, q);
    let k = choose|k: int| 0 <= k < groups.len() && (#[trigger] groups[k]).1.len() >= 2 && names == sort_texts(groups[k].1);
    crate::sorting::lemma_sort_keyed_len(groups[k].1.map_values(|t: Seq<char>| (t, ())));
    assert(names.len() == groups[k].1.len());
    lemma_asset_groups_only(mods, n);
    let key = groups[k].0;
    lemma_asset_groups_file(mods, n);
    assert forall|x: Seq<char>| #[trigger] names.contains(x) <==> candidate_with(mods, n, key, x) by {
        if names.contains(x) {
            lemma_sort_texts_from(groups[k].1, x);
            assert(grouped(groups, key, x));
        }
        if candidate_with(mods, n, key, x) {
            let i = choose|i: int| 0 <= i < n && #[trigger] overlap_candidate(mods[i]) && mods[i].assets@ == key && mods[i].name@ == x;
            assert(grouped(groups, key, x));
            let y = groups[k].1[0];
            assert(groups[k].1.contains(y));
            assert(grouped(groups, key, y));
            let k2 = lemma_same_group(groups, key, x, y);
            lemma_seqs_lt_irreflexive(key);
            if k2 < k {
                assert(seqs_lt(groups[k2].0, groups[k].0));
            } else if k < k2 {
                assert(seqs_lt(groups[k].0, groups[k2].0));
            }
            lemma_sort_texts_has(groups[k].1, x);
        }
    }
    assert(names.contains(names[0]));
    assert(candidate_with(mods, n, key, names[0]));
    let i0 = choose|i: int| 0 <= i < n && #[trigger] overlap_candidate(mods[i]) && mods[i].assets@ == key && mods[i].name@ == names[0];
    assert(key.len() > 0);
}

pub(crate) proof fn lemma_seqs_lt_irreflexive(a: Seq<Seq<char>>)
    ensures
        !seqs_lt(a, a),
    decreases a.len(),
{
    if a.len() > 0 {
        lemma_seqs_lt_irreflexive(a.drop_first());
    }
}

pub(crate) proof fn lemma_seqs_lt_transitive(a: Seq<Seq<char>>, b: Seq<Seq<char>>, c: Seq<Seq<char>>)
    requires
        seqs_lt(a, b),
        seqs_lt(b, c),
    ensures
        seqs_lt(a, c),
    decreases a.len(),
{
    if a.len() > 0 && b.len() > 0 && c.len() > 0 {
        if a[0] != b[0] && b[0] != c[0] {
            lemma_text_lt_transitive(a[0], b[0], c[0]);
            lemma_text_lt_asymmetric(a[0], c[0]);
        } else if a[0] != b[0] {
            assert(b[0] == c[0]);
        } else if b[0] != c[0] {
            assert(a[0] == b[0]);
        } else {
            lemma_seqs_lt_transitive(a.drop_first(), b.drop_first(), c.drop_first());
        }
    }
}

pub(crate) proof fn lemma_seqs_lt_total(a: Seq<Seq<char>>, b: Seq<Seq<char>>)
    requires
        a != b,
    ensures
        seqs_lt(a, b) || seqs_lt(b, a),
    decreases a.len(),
{
    if a.len() > 0 && b.len() > 0 {
        if a[0] != b[0] {
            lemma_text_lt_total(a[0], b[0]);
        } else {
            if a.drop_first() == b.drop_first() {
                assert(a =~= seq![a[0]] + a.drop_first());
                assert(b =~= seq![b[0]] + b.drop_first());
            }
            lemma_seqs_lt_total(a.drop_first(), b.drop_first());
        }
    } else if a.len() == 0 && b.len() == 0 {
        assert(a =~= b);
    }
}

/// The asset lists of the groups strictly increase.
pub open spec fn group_keys_sorted(groups: Groups) -> bool {
    forall|x: int, y: int| 0 <= x < y < groups.len() ==> seqs_lt((#[trigger] groups[x]).0, (#[trigger] groups[y]).0)
}

proof fn lemma_add_to_group_files(groups: Groups, key: Seq<Seq<char>>, name: Seq<char>)
    requires
        group_keys_sorted(groups),
    ensures
        group_keys_sorted(add_to_group(groups, key, name)),
        grouped(add_to_group(groups, key, name), key, name),
        forall|kk: Seq<Seq<char>>, x: Seq<char>| #[trigger] grouped(groups, kk, x) ==> grouped(add_to_group(groups, key, name), kk, x),
        forall|k: int| 0 <= k < add_to_group(groups, key, name).len() ==> (#[trigger] add_to_group(groups, key, name)[k]).0 == key
            || exists|q: int| 0 <= q < groups.len() && (#[trigger] groups[q]).0 == add_to_group(groups, key, name)[k].0,
    decreases groups.len(),
{
    let r = add_to_group(groups, key, name);
    if groups.len() == 0 {
        assert(r[0].1[0] == name);
    } else if groups[0].0 == key {
        assert(r[0].1 == groups[0].1.push(name));
        assert(r[0].1[groups[0].1.len() as int] == name);
        assert forall|x: int, y: int| 0 <= x < y < r.len() implies seqs_lt((#[trigger] r[x]).0, (#[trigger] r[y]).0) by {
            assert(r[y] == groups[y]);
            if x > 0 { assert(r[x] == groups[x]); }
        }
        assert forall|kk: Seq<Seq<char>>, x: Seq<char>| #[trigger] grouped(groups, kk, x) implies grouped(r, kk, x) by {
            let k = choose|k: int| 0 <= k < groups.len() && (#[trigger] groups[k]).0 == kk && groups[k].1.contains(x);
            if k == 0 {
                let q = choose|q: int| 0 <= q < groups[0].1.len() && groups[0].1[q] == x;
                assert(r[0].1[q] == x);
            } else {
                assert(r[k] == groups[k]);
            }
        }
        assert forall|k: int| 0 <= k < r.len() implies (#[trigger] r[k]).0 == key
            || exists|q: int| 0 <= q < groups.len() && (#[trigger] groups[q]).0 == r[k].0 by {
            if k > 0 { assert(r[k] == groups[k]); }
        }
    } else if seqs_lt(key, groups[0].0) {
        assert(r[0].1[0] == name);
        assert forall|x: int, y: int| 0 <= x < y < r.len() implies seqs_lt((#[trigger] r[x]).0, (#[trigger] r[y]).0) by {
            assert(r[y] == groups[y - 1]);
            if x > 0 {
                assert(r[x] == groups[x - 1]);
            } else if y > 1 {
                lemma_seqs_lt_transitive(key, groups[0].0, groups[y - 1].0);
            }
        }
        assert forall|kk: Seq<Seq<char>>, x: Seq<char>| #[trigger] grouped(groups, kk, x) implies grouped(r, kk, x) by {
            let k = choose|k: int| 0 <= k < groups.len() && (#[trigger] groups[k]).0 == kk && groups[k].1.contains(x);
            assert(r[k + 1] == groups[k]);
        }
        assert forall|k: int| 0 <= k < r.len() implies (#[trigger] r[k]).0 == key
            || exists|q: int| 0 <= q < groups.len() && (#[trigger] groups[q]).0 == r[k].0 by {
            if k > 0 { assert(r[k] == groups[k - 1]); }
        }
    } else {
        lemma_seqs_lt_total(key, groups[0].0);
        let t = groups.drop_first();
        assert forall|x: int, y: int| 0 <= x < y < t.len() implies seqs_lt((#[trigger] t[x]).0, (#[trigger] t[y]).0) by {
            assert(t[x] == groups[x + 1] && t[y] == groups[y + 1]);
        }
        lemma_add_to_group_files(t, key, name);
        let rt = add_to_group(t, key, name);
        assert(r == seq![groups[0]] + rt);
        assert forall|x: int, y: int| 0 <= x < y < r.len() implies seqs_lt((#[trigger] r[x]).0, (#[trigger] r[y]).0) by {
            assert(r[y] == rt[y - 1]);
            if x > 0 {
                assert(r[x] == rt[x - 1]);
            } else {
                if rt[y - 1].0 != key {
                    let q = choose|q: int| 0 <= q < t.len() && (#[trigger] t[q]).0 == rt[y - 1].0;
                    assert(t[q] == groups[q + 1]);
                }
            }
        }
        let k0 = choose|k: int| 0 <= k < rt.len() && (#[trigger] rt[k]).0 == key && rt[k].1.contains(name);
        assert(r[k0 + 1] == rt[k0]);
        assert forall|kk: Seq<Seq<char>>, x: Seq<char>| #[trigger] grouped(groups, kk, x) implies grouped(r, kk, x) by {
            let k = choose|k: int| 0 <= k < groups.len() && (#[trigger] groups[k]).0 == kk && groups[k].1.contains(x);
            if k == 0 {
                assert(r[0] == groups[0]);
            } else {
                assert(t[k - 1] == groups[k]);
                assert(grouped(t, kk, x));
                let j = choose|j: int| 0 <= j < rt.len() && (#[trigger] rt[j]).0 == kk && rt[j].1.contains(x);
                assert(r[j + 1] == rt[j]);
            }
        }
        assert forall|k: int| 0 <= k < r.len() implies (#[trigger] r[k]).0 == key
            || exists|q: int| 0 <= q < groups.len() && (#[trigger] groups[q]).0 == r[k].0 by {
            if k > 0 {
                assert(r[k] == rt[k - 1]);
                if rt[k - 1].0 != key {
                    let q = choose|q: int| 0 <= q < t.len() && (#[trigger] t[q]).0 == rt[k - 1].0;
                    assert(t[q] == groups[q + 1]);
                }
            }
        }
    }
}

pub(crate) proof fn lemma_asset_groups_file(mods: Seq<ModFile>, n: int)
    requires
        0 <= n <= mods.len(),
    ensures
        group_keys_sorted(asset_groups(mods, n)),
        forall|i: int| 0 <= i < n && #[trigger] overlap_candidate(mods[i])
            ==> grouped(asset_groups(mods, n), mods[i].assets@, mods[i].name@),
    decreases n,
{
    if n > 0 {
        lemma_asset_groups_file(mods, n - 1);
        let p = asset_groups(mods, n - 1);
        if overlap_candidate(mods[n - 1]) {
            lemma_add_to_group_files(p, mods[n - 1].assets@, mods[n - 1].name@);
        }
        assert forall|i: int| 0 <= i < n && #[trigger] overlap_candidate(mods[i])
            implies grouped(asset_groups(mods, n), mods[i].assets@, mods[i].name@) by {
            if i < n - 1 {
                assert(grouped(p, mods[i].assets@, mods[i].name@));
            }
        }
    }
}

proof fn lemma_overlap_found(groups: Groups, k: int)
    requires
        0 <= k < groups.len(),
        groups[k].1.len() >= 2,
    ensures
        exists|q: int| 0 <= q < overlap_found_in(groups).len()
            && (#[trigger] overlap_found_in(groups)[q]).1 == (WarningView::MutualOverlap { names: sort_texts(groups[k].1) }),
    decreases groups.len(),
{
    let d = groups.drop_last();
    let p = overlap_found_in(d);
    let r = overlap_found_in(groups);
    if k < d.len() {
        assert(d[k] == groups[k]);
        lemma_overlap_found(d, k);
        let q = choose|q: int| 0 <= q < p.len() && (#[trigger] p[q]).1 == (WarningView::MutualOverlap { names: sort_texts(d[k].1) });
        assert(r[q] == p[q]);
    } else {
        assert(groups.last() == groups[k]);
        crate::sorting::lemma_sort_keyed_len(groups[k].1.map_values(|t: Seq<char>| (t, ())));
        assert(r[p.len() as int].1 == (WarningView::MutualOverlap { names: sort_texts(groups[k].1) }));
    }
}

proof fn lemma_sort_texts_has(s: Seq<Seq<char>>, x: Seq<char>)
    requires
        s.contains(x),
    ensures
        sort_texts(s).contains(x),
{
    let ks = s.map_values(|t: Seq<char>| (t, ()));
    let sk = sort_keyed(ks);
    lemma_sort_keyed_len(ks);
    let i = choose|i: int| 0 <= i < s.len() && s[i] == x;
    assert(ks[i] == (x, ()));
    assert(ks.contains((x, ())));
    lemma_sort_keyed_contains(ks, (x, ()));
    let q = choose|q: int| 0 <= q < sk.len() && sk[q] == (x, ());
    assert(sort_texts(s)[q] == x);
}

proof fn lemma_same_group(groups: Groups, key: Seq<Seq<char>>, x: Seq<char>, y: Seq<char>) -> (k: int)
    requires
        group_keys_sorted(groups),
        grouped(groups, key, x),
        grouped(groups, key, y),
    ensures
        0 <= k < groups.len(),
        groups[k].0 == key,
        groups[k].1.contains(x),
        groups[k].1.contains(y),
{
    let kx = choose|k: int| 0 <= k < groups.len() && (#[trigger] groups[k]).0 == key && groups[k].1.contains(x);
    let ky = choose|k: int| 0 <= k < groups.len() && (#[trigger] groups[k]).0 == key && groups[k].1.contains(y);
    lemma_seqs_lt_irreflexive(key);
    if kx < ky {
        assert(seqs_lt(groups[kx].0, groups[ky].0));
    } else if ky < kx {
        assert(seqs_lt(groups[ky].0, groups[kx].0));
    }
    kx
}

/// Two enabled, listable mods that provide the same non-empty list of
/// assets are named together in a mutual-overlap warning.
pub proof fn law_identical_mods_overlap(mods: Seq<ModFile>, g: Seq<(Seq<char>, Seq<Seq<char>>)>,
    folders: Seq<Option<Seq<char>>>, i: int, j: int)
    requires
        0 <= i < mods.len(),
        0 <= j < mods.len(),
        i != j,
        overlap_candidate(mods[i]),
        overlap_candidate(mods[j]),
        mods[i].assets@ == mods[j].assets@,
    ensures
        exists|names: Seq<Seq<char>>| #[trigger] warnings_of(mods, g, folders).contains(WarningView::MutualOverlap { names })
            && names.contains(mods[i].name@) && names.contains(mods[j].name@),
{
    let n = mods.len() as int;
    let groups = asset_groups(mods, n);
    lemma_asset_groups_file(mods, n);
    let key = mods[i].assets@;
    let (xi, xj) = (mods[i].name@, mods[j].name@);
    assert(grouped(groups, key, xi));
    assert(grouped(groups, key, xj));
    let k = lemma_same_group(groups, key, xi, xj);
    let members = groups[k].1;
    assert(members.len() >= 2) by {
        lemma_group_holds_both(mods, key, i, j, k);
    }
    lemma_overlap_found(groups, k);
    let of = overlap_found_in(groups);
    let names = sort_texts(members);
    let w = WarningView::MutualOverlap { names };
    let q = choose|q: int| 0 <= q < of.len() && (#[trigger] of[q]).1 == w;
    lemma_sorted_found_has(of, q);
    lemma_sort_texts_has(members, xi);
    lemma_sort_texts_has(members, xj);
    let a = sorted_found(duplicate_found_in(gb_groups(mods, folders, n)));
    let b = sorted_found(of);
    let all = warnings_of(mods, g, folders);
    assert(all == a + b + sorted_found(eclipse_found(mods, g, n)) + sorted_found(unlistable_found(mods, n)));
    let pos = choose|pos: int| 0 <= pos < b.len() && b[pos] == w;
    assert(all[a.len() + pos] == w);
    assert(all.contains(w));
}

} // verus!
