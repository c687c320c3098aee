//! What the desktop app keeps and checks: the paths it remembers, the
//! toggles it is asked for, and hand-made load orders.

use vstd::prelude::*;
use crate::model::{AssetSet, ModFile};
use crate::sort::sorted_listing;
use crate::text::{texts, strictly_sorted, strings_contain, push_str, string_from_chars, lemma_strictly_sorted_unique};

verus! {

/// The paths the app remembers between runs.
#[derive(Debug, Clone, PartialEq)]
pub struct StoredSettings {
    pub config_path: String,
    pub mods_dir: String,
}

/// One requested change: enable or disable the mod file at `path`.
#[derive(Debug, Clone)]
pub struct ModToggle {
    pub path: String,
    pub enabled: bool,
}

/// Some enabled mod goes by the name `n`.
pub open spec fn enabled_named(mods: Seq<ModFile>, n: Seq<char>) -> bool {
    exists|k: int| 0 <= k < mods.len() && mods[k].enabled && #[trigger] mods[k].name@ == n
}

/// The loaded ledger: the names of the current order that an enabled mod
/// goes by. Stale names are not in it.
pub open spec fn in_ledger(mods: Seq<ModFile>, order: Seq<Seq<char>>, n: Seq<char>) -> bool {
    order.contains(n) && enabled_named(mods, n)
}

/// The loaded ledger as a set.
pub open spec fn ledger(mods: Seq<ModFile>, order: Seq<Seq<char>>) -> Set<Seq<char>> {
    Set::new(|n: Seq<char>| in_ledger(mods, order, n))
}

/// Entry `j` of the new order repeats an earlier one or is not loaded.
pub open spec fn misplaced(mods: Seq<ModFile>, order: Seq<Seq<char>>, new: Seq<Seq<char>>, j: int) -> bool {
    new.take(j).contains(new[j]) || !in_ledger(mods, order, new[j])
}

/// The first misplaced entry from `i` on.
pub open spec fn first_misplaced(mods: Seq<ModFile>, order: Seq<Seq<char>>, new: Seq<Seq<char>>, i: int) -> Option<int>
    decreases new.len() - i,
{
    if i >= new.len() || i < 0 {
        None
    } else if misplaced(mods, order, new, i) {
        Some(i)
    } else {
        first_misplaced(mods, order, new, i + 1)
    }
}

/// The first name of `l` that `new` leaves out.
pub open spec fn first_missing(l: Seq<Seq<char>>, new: Seq<Seq<char>>) -> Option<Seq<char>>
    decreases l.len(),
{
    if l.len() == 0 {
        None
    } else if !new.contains(l[0]) {
        Some(l[0])
    } else {
        first_missing(l.drop_first(), new)
    }
}

/// What checking a hand-made order `new` against the loaded ledger gives:
/// the first entry that repeats or is not loaded is refused, then the
/// first loaded name (by name) that the order leaves out; else the order.
pub open spec fn reorder_outcome(mods: Seq<ModFile>, order: Seq<Seq<char>>, new: Seq<Seq<char>>) -> Result<Seq<Seq<char>>, Seq<char>> {
    match first_misplaced(mods, order, new, 0) {
        Some(j) => if new.take(j).contains(new[j]) {
            Err(new[j] + " appears twice in the new order; take inventory and retry"@)
        } else {
            Err(new[j] + " is not in the loaded ledger; take inventory and retry"@)
        },
        None => match first_missing(sorted_listing(ledger(mods, order)), new) {
            Some(m) => Err(m + " is missing from the new order; take inventory and retry"@),
            None => Ok(new),
        },
    }
}

/// The plain value of a checked order.
pub open spec fn order_outcome(r: Result<Vec<String>, String>) -> Result<Seq<Seq<char>>, Seq<char>> {
    match r {
        Ok(v) => Ok(texts(v@)),
        Err(e) => Err(e@),
    }
}

fn enabled_mod_named(mods: &[ModFile], name: &String) -> (r: bool)
    ensures
        r == enabled_named(mods@, name@),
{
    let mut k: usize = 0;
    while k < mods.len()
        invariant
            k <= mods@.len(),
            forall|j: int| 0 <= j < k ==> !(mods@[j].enabled && #[trigger] mods@[j].name@ == name@),
        decreases mods@.len() - k,
    {
        if mods[k].enabled && mods[k].name == *name {
            return true;
        }
        k = k + 1;
    }
    false
}

fn copy_into(out: &mut Vec<String>, v: &[String])
    ensures
        texts(final(out)@) == texts(old(out)@) + texts(v@),
{
    let ghost start = texts(out@);
    let mut i: usize = 0;
    while i < v.len()
        invariant
            i <= v@.len(),
            texts(out@) == start + texts(v@).take(i as int),
        decreases v@.len() - i,
    {
        let ghost before = out@;
        out.push(v[i].clone());
        assert(texts(out@) =~= texts(before).push(v@[i as int]@));
        assert(texts(v@).take(i + 1) =~= texts(v@).take(i as int).push(v@[i as int]@));
        i = i + 1;
    }
    assert(texts(v@).take(i as int) =~= texts(v@));
}

fn reason(name: &String, why: &str) -> (r: String)
    ensures
        r@ == name@ + why@,
{
    let mut msg: Vec<char> = Vec::new();
    push_str(&mut msg, name.as_str());
    push_str(&mut msg, why);
    string_from_chars(msg.as_slice())
}

proof fn lemma_first_misplaced_none(mods: Seq<ModFile>, order: Seq<Seq<char>>, new: Seq<Seq<char>>, i: int)
    requires
        0 <= i <= new.len(),
        forall|j: int| i <= j < new.len() ==> !misplaced(mods, order, new, j),
    ensures
        first_misplaced(mods, order, new, i) is None,
    decreases new.len() - i,
{
    if i < new.len() {
        lemma_first_misplaced_none(mods, order, new, i + 1);
    }
}

proof fn lemma_first_misplaced_at(mods: Seq<ModFile>, order: Seq<Seq<char>>, new: Seq<Seq<char>>, i: int, j: int)
    requires
        0 <= i <= j < new.len(),
        forall|q: int| i <= q < j ==> !misplaced(mods, order, new, q),
        misplaced(mods, order, new, j),
    ensures
        first_misplaced(mods, order, new, i) == Some(j),
    decreases j - i,
{
    if i < j {
        lemma_first_misplaced_at(mods, order, new, i + 1, j);
    }
}

proof fn lemma_first_missing_skip(l: Seq<Seq<char>>, new: Seq<Seq<char>>, i: int)
    requires
        0 <= i <= l.len(),
        forall|q: int| 0 <= q < i ==> new.contains(#[trigger] l[q]),
    ensures
        first_missing(l, new) == first_missing(l.skip(i), new),
    decreases i,
{
    if i > 0 {
        assert(new.contains(l[0]));
        let t = l.drop_first();
        assert forall|q: int| 0 <= q < i - 1 implies new.contains(#[trigger] t[q]) by {
            assert(t[q] == l[q + 1]);
        }
        lemma_first_missing_skip(t, new, i - 1);
        assert(t.skip(i - 1) =~= l.skip(i));
    } else {
        assert(l.skip(0) =~= l);
    }
}

/// The loaded names among the first `i` of `order`.
pub open spec fn ledger_upto(mods: Seq<ModFile>, order: Seq<Seq<char>>, i: int) -> Set<Seq<char>> {
    Set::new(|n: Seq<char>| order.take(i).contains(n) && enabled_named(mods, n))
}

proof fn lemma_ledger_step(mods: Seq<ModFile>, ov: Seq<Seq<char>>, i: int, bv: Seq<Seq<char>>, lv: Seq<Seq<char>>, pushed: bool)
    requires
        0 <= i < ov.len(),
        bv.to_set() == ledger_upto(mods, ov, i),
        pushed == enabled_named(mods, ov[i]),
        lv == if pushed { bv.push(ov[i]) } else { bv },
    ensures
        lv.to_set() == ledger_upto(mods, ov, i + 1),
{
    let t0 = ov.take(i);
    let t1 = ov.take(i + 1);
    let x0 = ov[i];
    assert(t1 =~= t0.push(x0));
    assert forall|x: Seq<char>| lv.to_set().contains(x) <==> ledger_upto(mods, ov, i + 1).contains(x) by {
        if lv.to_set().contains(x) {
            let k = choose|k: int| 0 <= k < lv.len() && lv[k] == x;
            if k < bv.len() {
                assert(bv[k] == x);
                assert(bv.to_set().contains(x));
                assert(ledger_upto(mods, ov, i).contains(x));
                let m = choose|m: int| 0 <= m < t0.len() && t0[m] == x;
                assert(t1[m] == x);
            } else {
                assert(x == x0);
                assert(t1[i] == x0);
            }
        }
        if ledger_upto(mods, ov, i + 1).contains(x) {
            let k = choose|k: int| 0 <= k < t1.len() && t1[k] == x;
            if k < i {
                assert(t0[k] == x);
                assert(ledger_upto(mods, ov, i).contains(x));
                assert(bv.to_set().contains(x));
                let m = choose|m: int| 0 <= m < bv.len() && bv[m] == x;
                assert(lv[m] == x);
            } else {
                assert(x == x0);
                assert(lv[bv.len() as int] == x0);
            }
        }
    }
    assert(lv.to_set() =~= ledger_upto(mods, ov, i + 1));
}

/// Checks a hand-made load order, given as its top, middle and bottom
/// blocks, against the loaded ledger (the names of `order` that enabled
/// mods go by): every entry must be loaded and appear once, and every
/// loaded name must appear. Gives the whole new order.
pub fn check_reorder(mods: &[ModFile], order: &[String], fore: &[String], free: &[String], aft: &[String]) -> (r: Result<Vec<String>, String>)
    ensures
        order_outcome(r) == reorder_outcome(mods@, texts(order@), texts(fore@) + texts(free@) + texts(aft@)),
{
    let mut new: Vec<String> = Vec::new();
    copy_into(&mut new, fore);
    copy_into(&mut new, free);
    copy_into(&mut new, aft);
    let ghost nv = texts(new@);
    assert(nv =~= texts(fore@) + texts(free@) + texts(aft@));
    let mut current: Vec<String> = Vec::new();
    copy_into(&mut current, order);
    let ghost ov = texts(order@);
    assert(texts(current@) =~= ov);
    let mut seen: Vec<String> = Vec::new();
    let mut j: usize = 0;
    while j < new.len()
        invariant
            nv == texts(new@),
            nv == texts(fore@) + texts(free@) + texts(aft@),
            ov == texts(order@),
            texts(current@) == ov,
            j <= new@.len(),
            texts(seen@) == nv.take(j as int),
            forall|q: int| 0 <= q < j ==> !misplaced(mods@, ov, nv, q),
        decreases new@.len() - j,
    {
        let name = &new[j];
        assert(nv[j as int] == name@);
        if strings_contain(&seen, name) {
            proof {
                lemma_first_misplaced_at(mods@, ov, nv, 0, j as int);
            }
            return Err(reason(name, " appears twice in the new order; take inventory and retry"));
        }
        if !(strings_contain(&current, name) && enabled_mod_named(mods, name)) {
            proof {
                lemma_first_misplaced_at(mods@, ov, nv, 0, j as int);
            }
            return Err(reason(name, " is not in the loaded ledger; take inventory and retry"));
        }
        let ghost before = seen@;
        seen.push(name.clone());
        assert(texts(seen@) =~= nv.take(j + 1)) by {
            assert(texts(seen@) =~= texts(before).push(name@));
        }
        j = j + 1;
    }
    proof {
        lemma_first_misplaced_none(mods@, ov, nv, 0);
        assert(nv.take(j as int) =~= nv);
    }
    let mut loaded: Vec<String> = Vec::new();
    let mut i: usize = 0;
    assert(texts(loaded@).to_set() =~= ledger_upto(mods@, ov, 0));
    while i < order.len()
        invariant
            i <= order@.len(),
            ov == texts(order@),
            texts(loaded@).to_set() == ledger_upto(mods@, ov, i as int),
        decreases order@.len() - i,
    {
        let ghost before = loaded@;
        let ghost x0 = ov[i as int];
        assert(order@[i as int]@ == x0);
        let pushed = enabled_mod_named(mods, &order[i]);
        if pushed {
            loaded.push(order[i].clone());
        }
        proof {
            let lv = texts(loaded@);
            let bv = texts(before);
            if pushed {
                assert(lv =~= bv.push(x0));
            } else {
                assert(lv =~= bv);
            }
            lemma_ledger_step(mods@, ov, i as int, bv, lv, pushed);
        }
        i = i + 1;
    }
    assert(ov.take(i as int) =~= ov);
    assert(texts(loaded@).to_set() =~= ledger(mods@, ov));
    let set = AssetSet::from_vec(loaded);
    let sorted = set.to_vec();
    proof {
        let want = ledger(mods@, ov);
        assert(set@.to_set() =~= want);
        let chosen = sorted_listing(want);
        assert(strictly_sorted(set@) && set@.to_set() == want);
        assert(strictly_sorted(chosen) && chosen.to_set() == want);
        lemma_strictly_sorted_unique(set@, chosen);
    }
    let ghost lv = texts(sorted@);
    let mut k: usize = 0;
    while k < sorted.len()
        invariant
            lv == texts(sorted@),
            lv == sorted_listing(ledger(mods@, ov)),
            nv == texts(new@),
            nv == texts(fore@) + texts(free@) + texts(aft@),
            ov == texts(order@),
            first_misplaced(mods@, ov, nv, 0) is None,
            k <= sorted@.len(),
            forall|q: int| 0 <= q < k ==> nv.contains(#[trigger] lv[q]),
        decreases sorted@.len() - k,
    {
        assert(lv[k as int] == sorted@[k as int]@);
        if !strings_contain(&new, &sorted[k]) {
            proof {
                lemma_first_missing_skip(lv, nv, k as int);
                assert(lv.skip(k as int)[0] == lv[k as int]);
            }
            return Err(reason(&sorted[k], " is missing from the new order; take inventory and retry"));
        }
        k = k + 1;
    }
    proof {
        lemma_first_missing_skip(lv, nv, k as int);
        assert(lv.skip(k as int).len() == 0);
    }
    Ok(new)
}

/// An error of the app with the paths it concerns.
pub fn with_paths(error: &str, config_path: &str, mods_dir: &str) -> (r: String)
    ensures
        r@ == error@ + " (config: "@ + config_path@ + ", mods: "@ + mods_dir@ + ")"@,
{
    let mut msg: Vec<char> = Vec::new();
    push_str(&mut msg, error);
    push_str(&mut msg, " (config: ");
    push_str(&mut msg, config_path);
    push_str(&mut msg, ", mods: ");
    push_str(&mut msg, mods_dir);
    push_str(&mut msg, ")");
    string_from_chars(msg.as_slice())
}

} // verus!
