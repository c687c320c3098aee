//! The order of the warnings: by kind (duplicate installs, mutual
//! overlaps, eclipses, unlistable archives), then by key within a kind.

use vstd::prelude::*;
use crate::text::{text_lt, decimal, lemma_text_lt_transitive, lemma_text_lt_asymmetric};
use crate::sorting::{insert_keyed, sort_keyed, lemma_sort_keyed_len, lemma_insert_keyed_contains, lemma_sort_keyed_contains};
use crate::model::ModFile;
use crate::warnings::{WarningView, Found, sorted_found, indexed, warnings_of, duplicate_found_in, gb_groups,
    overlap_found_in, asset_groups, eclipse_found, unlistable_found, GbGroups, Groups,
    lemma_duplicate_kinds, lemma_unlistable_kinds, lemma_overlap_kinds, lemma_eclipse_kinds};

verus! {

/// The text a warning sorts by within its kind: the decimal id of a
/// duplicate install, the first name of a mutual overlap, the mod's name
/// otherwise.
pub open spec fn warning_key(w: WarningView) -> Seq<char> {
    match w {
        WarningView::DuplicateGamebananaMod { mod_id, .. } => decimal(mod_id as nat),
        WarningView::MutualOverlap { names } => names[0],
        WarningView::TotalEclipse { name } => name,
        WarningView::Unlistable { name, .. } => name,
    }
}

/// The place of a warning's kind in the list.
pub open spec fn kind_rank(w: WarningView) -> int {
    match w {
        WarningView::DuplicateGamebananaMod { .. } => 0,
        WarningView::MutualOverlap { .. } => 1,
        WarningView::TotalEclipse { .. } => 2,
        WarningView::Unlistable { .. } => 3,
    }
}

/// Each warning comes after those of earlier kinds, and after those of
/// its kind whose keys come before its own.
pub open spec fn warnings_in_order(ws: Seq<WarningView>) -> bool {
    forall|x: int, y: int| 0 <= x < y < ws.len() ==> kind_rank(#[trigger] ws[x]) < kind_rank(#[trigger] ws[y])
        || (kind_rank(ws[x]) == kind_rank(ws[y]) && !text_lt(warning_key(ws[y]), warning_key(ws[x])))
}

/// No key comes before an earlier one.
pub open spec fn keys_in_order<A>(s: Seq<(Seq<char>, A)>) -> bool {
    forall|x: int, y: int| 0 <= x < y < s.len() ==> !text_lt((#[trigger] s[y]).0, (#[trigger] s[x]).0)
}

proof fn lemma_insert_keyed_in_order<A>(x: (Seq<char>, A), s: Seq<(Seq<char>, A)>)
    requires
        keys_in_order(s),
    ensures
        keys_in_order(insert_keyed(x, s)),
    decreases s.len(),
{
    let r = insert_keyed(x, s);
    if s.len() == 0 {
        assert(r == seq![x]);
    } else if text_lt(x.0, s[0].0) {
        assert(r == seq![x] + s);
        assert forall|a: int, b: int| 0 <= a < b < r.len() implies !text_lt((#[trigger] r[b]).0, (#[trigger] r[a]).0) by {
            assert(r[b] == s[b - 1]);
            if a > 0 {
                assert(r[a] == s[a - 1]);
            } else if text_lt(s[b - 1].0, x.0) {
                if b - 1 == 0 {
                    lemma_text_lt_asymmetric(x.0, s[0].0);
                } else {
                    lemma_text_lt_transitive(s[b - 1].0, x.0, s[0].0);
                }
            }
        }
    } else {
        let t = s.drop_first();
        assert forall|a: int, b: int| 0 <= a < b < t.len() implies !text_lt((#[trigger] t[b]).0, (#[trigger] t[a]).0) by {
            assert(t[a] == s[a + 1] && t[b] == s[b + 1]);
        }
        lemma_insert_keyed_in_order(x, t);
        let rt = insert_keyed(x, t);
        assert(r == seq![s[0]] + rt);
        assert forall|a: int, b: int| 0 <= a < b < r.len() implies !text_lt((#[trigger] r[b]).0, (#[trigger] r[a]).0) by {
            assert(r[b] == rt[b - 1]);
            if a > 0 {
                assert(r[a] == rt[a - 1]);
            } else {
                assert(rt.contains(rt[b - 1]));
                lemma_insert_keyed_contains(x, t, rt[b - 1]);
                if rt[b - 1] != x {
                    let z = choose|z: int| 0 <= z < t.len() && t[z] == rt[b - 1];
                    assert(t[z] == s[z + 1]);
                }
            }
        }
    }
}

proof fn lemma_sort_keyed_in_order<A>(s: Seq<(Seq<char>, A)>)
    ensures
        keys_in_order(sort_keyed(s)),
    decreases s.len(),
{
    if s.len() > 0 {
        lemma_sort_keyed_in_order(s.drop_last());
        lemma_insert_keyed_in_order(s.last(), sort_keyed(s.drop_last()));
        assert(sort_keyed(s) == insert_keyed(s.last(), sort_keyed(s.drop_last())));
    }
}

/// Each found warning is paired with its own key.
pub open spec fn keyed_by_warning(found: Found) -> bool {
    forall|q: int| 0 <= q < found.len() ==> (#[trigger] found[q]).0 == warning_key(found[q].1)
}

/// The sorted warnings of `found`, where each is paired with its own key,
/// come in the order of their keys, each one of `found`.
proof fn lemma_sorted_found_in_order(found: Found)
    requires
        keyed_by_warning(found),
    ensures
        forall|x: int, y: int| 0 <= x < y < sorted_found(found).len()
            ==> !text_lt(warning_key(#[trigger] sorted_found(found)[y]), warning_key(#[trigger] sorted_found(found)[x])),
        forall|r: int| 0 <= r < sorted_found(found).len() ==> exists|q: int| 0 <= q < found.len()
            && #[trigger] sorted_found(found)[r] == found[q].1,
{
    let ix = indexed(found);
    let sk = sort_keyed(ix);
    let sf = sorted_found(found);
    lemma_sort_keyed_len(ix);
    lemma_sort_keyed_in_order(ix);
    assert forall|r: int| 0 <= r < sk.len() implies 0 <= (#[trigger] sk[r]).1 < found.len()
        && sk[r].0 == warning_key(found[sk[r].1].1) && sf[r] == found[sk[r].1].1 by {
        assert(sk.contains(sk[r]));
        lemma_sort_keyed_contains(ix, sk[r]);
        let i = choose|i: int| 0 <= i < ix.len() && ix[i] == sk[r];
        assert(ix[i] == (found[i].0, i));
    }
    assert forall|x: int, y: int| 0 <= x < y < sf.len()
        implies !text_lt(warning_key(#[trigger] sf[y]), warning_key(#[trigger] sf[x])) by {
        assert(sk[x].0 == warning_key(sf[x]));
        assert(sk[y].0 == warning_key(sf[y]));
    }
    assert forall|r: int| 0 <= r < sf.len() implies exists|q: int| 0 <= q < found.len() && #[trigger] sf[r] == found[q].1 by {
        assert(sf[r] == found[sk[r].1].1);
    }
}

proof fn lemma_duplicate_keys(groups: GbGroups)
    ensures
        keyed_by_warning(duplicate_found_in(groups)),
    decreases groups.len(),
{
    if groups.len() > 0 {
        lemma_duplicate_keys(groups.drop_last());
    }
}

proof fn lemma_overlap_keys(groups: Groups)
    ensures
        keyed_by_warning(overlap_found_in(groups)),
    decreases groups.len(),
{
    if groups.len() > 0 {
        lemma_overlap_keys(groups.drop_last());
    }
}

proof fn lemma_eclipse_keys(mods: Seq<ModFile>, g: Seq<(Seq<char>, Seq<Seq<char>>)>, n: int)
    ensures
        keyed_by_warning(eclipse_found(mods, g, n)),
    decreases n,
{
    if n > 0 {
        lemma_eclipse_keys(mods, g, n - 1);
    }
}

proof fn lemma_unlistable_keys(mods: Seq<ModFile>, n: int)
    ensures
        keyed_by_warning(unlistable_found(mods, n)),
    decreases n,
{
    if n > 0 {
        lemma_unlistable_keys(mods, n - 1);
    }
}

/// Every warning of the block `s` has the kind of rank `k`, and the block
/// is in the order of its keys.
pub open spec fn block_of(s: Seq<WarningView>, k: int) -> bool {
    &&& forall|r: int| 0 <= r < s.len() ==> kind_rank(#[trigger] s[r]) == k
    &&& forall|x: int, y: int| 0 <= x < y < s.len() ==> !text_lt(warning_key(#[trigger] s[y]), warning_key(#[trigger] s[x]))
}

proof fn lemma_blocks_in_order(a: Seq<WarningView>, b: Seq<WarningView>, c: Seq<WarningView>, d: Seq<WarningView>)
    requires
        block_of(a, 0),
        block_of(b, 1),
        block_of(c, 2),
        block_of(d, 3),
    ensures
        warnings_in_order(a + b + c + d),
{
    let all = a + b + c + d;
    let la = a.len() as int;
    let lb = b.len() as int;
    let lc = c.len() as int;
    assert forall|x: int| 0 <= x < all.len() implies #[trigger] kind_rank(all[x]) == (if x < la { 0int } else if x < la + lb { 1int }
        else if x < la + lb + lc { 2int } else { 3int }) by {
        if x < la {
            assert(all[x] == a[x]);
        } else if x < la + lb {
            assert(all[x] == b[x - la]);
        } else if x < la + lb + lc {
            assert(all[x] == c[x - la - lb]);
        } else {
            assert(all[x] == d[x - la - lb - lc]);
        }
    }
    assert forall|x: int, y: int| 0 <= x < y < all.len() implies kind_rank(#[trigger] all[x]) < kind_rank(#[trigger] all[y])
        || (kind_rank(all[x]) == kind_rank(all[y]) && !text_lt(warning_key(all[y]), warning_key(all[x]))) by {
        assert(kind_rank(all[x]) == (if x < la { 0int } else if x < la + lb { 1int } else if x < la + lb + lc { 2int } else { 3int }));
        assert(kind_rank(all[y]) == (if y < la { 0int } else if y < la + lb { 1int } else if y < la + lb + lc { 2int } else { 3int }));
        if y < la {
            assert(all[x] == a[x] && all[y] == a[y]);
        } else if la <= x && y < la + lb {
            assert(all[x] == b[x - la] && all[y] == b[y - la]);
        } else if la + lb <= x && y < la + lb + lc {
            assert(all[x] == c[x - la - lb] && all[y] == c[y - la - lb]);
        } else if la + lb + lc <= x {
            assert(all[x] == d[x - la - lb - lc] && all[y] == d[y - la - lb - lc]);
        }
    }
}

/// The warnings come by kind (duplicate installs, mutual overlaps, total
/// eclipses, unlistable archives) and, within a kind, in the order of
/// their keys: the decimal id, the first name, the mod's name.
pub proof fn law_warnings_in_order(mods: Seq<ModFile>, g: Seq<(Seq<char>, Seq<Seq<char>>)>, folders: Seq<Option<Seq<char>>>)
    ensures
        warnings_in_order(warnings_of(mods, g, folders)),
{
    let n = mods.len() as int;
    let fa = duplicate_found_in(gb_groups(mods, folders, n));
    let fb = overlap_found_in(asset_groups(mods, n));
    let fc = eclipse_found(mods, g, n);
    let fd = unlistable_found(mods, n);
    lemma_duplicate_keys(gb_groups(mods, folders, n));
    lemma_overlap_keys(asset_groups(mods, n));
    lemma_eclipse_keys(mods, g, n);
    lemma_unlistable_keys(mods, n);
    lemma_sorted_found_in_order(fa);
    lemma_sorted_found_in_order(fb);
    lemma_sorted_found_in_order(fc);
    lemma_sorted_found_in_order(fd);
    let (a, b, c, d) = (sorted_found(fa), sorted_found(fb), sorted_found(fc), sorted_found(fd));
    assert forall|r: int| 0 <= r < a.len() implies kind_rank(#[trigger] a[r]) == 0 by {
        let q = choose|q: int| 0 <= q < fa.len() && #[trigger] a[r] == fa[q].1;
        lemma_duplicate_kinds(gb_groups(mods, folders, n), q);
    }
    assert forall|r: int| 0 <= r < b.len() implies kind_rank(#[trigger] b[r]) == 1 by {
        let q = choose|q: int| 0 <= q < fb.len() && #[trigger] b[r] == fb[q].1;
        lemma_overlap_kinds(asset_groups(mods, n), q);
    }
    assert forall|r: int| 0 <= r < c.len() implies kind_rank(#[trigger] c[r]) == 2 by {
        let q = choose|q: int| 0 <= q < fc.len() && #[trigger] c[r] == fc[q].1;
        lemma_eclipse_kinds(mods, g, n, q);
    }
    assert forall|r: int| 0 <= r < d.len() implies kind_rank(#[trigger] d[r]) == 3 by {
        let q = choose|q: int| 0 <= q < fd.len() && #[trigger] d[r] == fd[q].1;
        lemma_unlistable_kinds(mods, n, q);
    }
    lemma_blocks_in_order(a, b, c, d);
    assert(warnings_of(mods, g, folders) == a + b + c + d);
}

} // verus!
