//! How many names the group of an asset list holds: one per mod that
//! provides that list.

use vstd::prelude::*;
use crate::model::ModFile;
use crate::warnings::{Groups, add_to_group, asset_groups, overlap_candidate, group_keys_sorted, seqs_lt,
    lemma_seqs_lt_irreflexive, lemma_seqs_lt_transitive, lemma_seqs_lt_total, lemma_asset_groups_file};

verus! {

/// How many of the first `n` mods take part in overlap groups with the
/// asset list `key`.
pub open spec fn count_with(mods: Seq<ModFile>, n: int, key: Seq<Seq<char>>) -> nat
    decreases n,
{
    if n <= 0 {
        0
    } else {
        count_with(mods, n - 1, key) + if overlap_candidate(mods[n - 1]) && mods[n - 1].assets@ == key { 1nat } else { 0nat }
    }
}

/// The group of `key` has `len` names; no group means none.
pub open spec fn group_has_len(groups: Groups, key: Seq<Seq<char>>, len: int) -> bool {
    ||| exists|k: int| 0 <= k < groups.len() && (#[trigger] groups[k]).0 == key && groups[k].1.len() == len
    ||| len == 0 && forall|k: int| 0 <= k < groups.len() ==> (#[trigger] groups[k]).0 != key
}

proof fn lemma_add_to_group_len(groups: Groups, key: Seq<Seq<char>>, name: Seq<char>, kk: Seq<Seq<char>>, len: int)
    requires
        group_keys_sorted(groups),
        group_has_len(groups, kk, len),
    ensures
        group_has_len(add_to_group(groups, key, name), kk, if kk == key { len + 1 } else { len }),
    decreases groups.len(),
{
    let r = add_to_group(groups, key, name);
    let want = if kk == key { len + 1 } else { len };
    lemma_seqs_lt_irreflexive(kk);
    if groups.len() == 0 {
        if kk == key {
            assert(r[0].0 == kk && r[0].1.len() == want);
        } else {
            assert forall|k: int| 0 <= k < r.len() implies (#[trigger] r[k]).0 != kk by {}
        }
    } else if groups[0].0 == key {
        assert(r[0].1 == groups[0].1.push(name));
        if exists|k: int| 0 <= k < groups.len() && (#[trigger] groups[k]).0 == kk && groups[k].1.len() == len {
            let k = choose|k: int| 0 <= k < groups.len() && (#[trigger] groups[k]).0 == kk && groups[k].1.len() == len;
            if k == 0 {
                assert(r[0].0 == kk && r[0].1.len() == want);
            } else {
                assert(r[k] == groups[k]);
                assert(seqs_lt(groups[0].0, groups[k].0));
            }
        } else {
            assert forall|k: int| 0 <= k < r.len() implies (#[trigger] r[k]).0 != kk by {
                if k > 0 { assert(r[k] == groups[k]); }
            }
        }
    } else if seqs_lt(key, groups[0].0) {
        if exists|k: int| 0 <= k < groups.len() && (#[trigger] groups[k]).0 == kk && groups[k].1.len() == len {
            let k = choose|k: int| 0 <= k < groups.len() && (#[trigger] groups[k]).0 == kk && groups[k].1.len() == len;
            assert(r[k + 1] == groups[k]);
            if kk == key {
                if k > 0 {
                    assert(seqs_lt(groups[0].0, groups[k].0));
                    lemma_seqs_lt_transitive(key, groups[0].0, groups[k].0);
                }
            }
        } else {
            if kk == key {
                assert(r[0].0 == kk && r[0].1.len() == want);
            } else {
                assert forall|k: int| 0 <= k < r.len() implies (#[trigger] r[k]).0 != kk by {
                    if k > 0 { assert(r[k] == groups[k - 1]); }
                }
            }
        }
    } else {
        lemma_seqs_lt_total(key, groups[0].0);
        let t = groups.drop_first();
        assert forall|x: int, y: int| 0 <= x < y < t.len() implies seqs_lt((#[trigger] t[x]).0, (#[trigger] t[y]).0) by {
            assert(t[x] == groups[x + 1] && t[y] == groups[y + 1]);
        }
        let rt = add_to_group(t, key, name);
        assert(r == seq![groups[0]] + rt);
        if kk == groups[0].0 {
            let k = choose|k: int| 0 <= k < groups.len() && (#[trigger] groups[k]).0 == kk && groups[k].1.len() == len;
            if k > 0 {
                assert(seqs_lt(groups[0].0, groups[k].0));
            }
            assert(r[0] == groups[0]);
        } else {
            if exists|k: int| 0 <= k < groups.len() && (#[trigger] groups[k]).0 == kk && groups[k].1.len() == len {
                let k = choose|k: int| 0 <= k < groups.len() && (#[trigger] groups[k]).0 == kk && groups[k].1.len() == len;
                assert(k > 0);
                assert(t[k - 1] == groups[k]);
                assert(group_has_len(t, kk, len));
            } else {
                assert forall|k: int| 0 <= k < t.len() implies (#[trigger] t[k]).0 != kk by {
                    assert(t[k] == groups[k + 1]);
                }
                assert(group_has_len(t, kk, len));
            }
            lemma_add_to_group_len(t, key, name, kk, len);
            if exists|k: int| 0 <= k < rt.len() && (#[trigger] rt[k]).0 == kk && rt[k].1.len() == want {
                let k = choose|k: int| 0 <= k < rt.len() && (#[trigger] rt[k]).0 == kk && rt[k].1.len() == want;
                assert(r[k + 1] == rt[k]);
            } else {
                assert forall|k: int| 0 <= k < r.len() implies (#[trigger] r[k]).0 != kk by {
                    if k > 0 { assert(r[k] == rt[k - 1]); }
                }
            }
        }
    }
}

proof fn lemma_asset_groups_len(mods: Seq<ModFile>, n: int, kk: Seq<Seq<char>>)
    requires
        0 <= n <= mods.len(),
    ensures
        group_has_len(asset_groups(mods, n), kk, count_with(mods, n, kk) as int),
    decreases n,
{
    if n > 0 {
        lemma_asset_groups_len(mods, n - 1, kk);
        lemma_asset_groups_file(mods, n - 1);
        let p = asset_groups(mods, n - 1);
        if overlap_candidate(mods[n - 1]) {
            lemma_add_to_group_len(p, mods[n - 1].assets@, mods[n - 1].name@, kk, count_with(mods, n - 1, kk) as int);
        }
    }
}

proof fn lemma_count_two(mods: Seq<ModFile>, n: int, key: Seq<Seq<char>>, i: int, j: int)
    requires
        0 <= i < j < n <= mods.len(),
        overlap_candidate(mods[i]) && mods[i].assets@ == key,
        overlap_candidate(mods[j]) && mods[j].assets@ == key,
    ensures
        count_with(mods, n, key) >= 2,
    decreases n,
{
    if j < n - 1 {
        lemma_count_two(mods, n - 1, key, i, j);
    } else {
        lemma_count_one(mods, n - 1, key, i);
    }
}

proof fn lemma_count_one(mods: Seq<ModFile>, n: int, key: Seq<Seq<char>>, i: int)
    requires
        0 <= i < n <= mods.len(),
        overlap_candidate(mods[i]) && mods[i].assets@ == key,
    ensures
        count_with(mods, n, key) >= 1,
    decreases n,
{
    if i < n - 1 {
        lemma_count_one(mods, n - 1, key, i);
    }
}

/// Two different mods that provide the list `key` put two names in its
/// group.
pub proof fn lemma_group_holds_both(mods: Seq<ModFile>, key: Seq<Seq<char>>, i: int, j: int, k: int)
    requires
        0 <= i < mods.len(),
        0 <= j < mods.len(),
        i != j,
        overlap_candidate(mods[i]) && mods[i].assets@ == key,
        overlap_candidate(mods[j]) && mods[j].assets@ == key,
        0 <= k < asset_groups(mods, mods.len() as int).len(),
        asset_groups(mods, mods.len() as int)[k].0 == key,
    ensures
        asset_groups(mods, mods.len() as int)[k].1.len() >= 2,
{
    let n = mods.len() as int;
    let groups = asset_groups(mods, n);
    lemma_asset_groups_file(mods, n);
    if i < j {
        lemma_count_two(mods, n, key, i, j);
    } else {
        lemma_count_two(mods, n, key, j, i);
    }
    lemma_asset_groups_len(mods, n, key);
    let k2 = choose|k2: int| 0 <= k2 < groups.len() && (#[trigger] groups[k2]).0 == key
        && groups[k2].1.len() == count_with(mods, n, key);
    lemma_seqs_lt_irreflexive(key);
    if k2 < k {
        assert(seqs_lt(groups[k2].0, groups[k].0));
    } else if k < k2 {
        assert(seqs_lt(groups[k].0, groups[k2].0));
    }
}

} // verus!
