//! Proposing a load order: broad packs first, the more specific mods after
//! them, pinned mods at the top or bottom.

use vstd::prelude::*;
use crate::model::{AssetSet, ModFile, text_set};
use crate::conflicts::usable;
use crate::text::{texts, text_lt, strictly_sorted, decimal, push_decimal, push_str, string_from_chars, lemma_strictly_sorted_unique};

verus! {

/// Pinned mod names: `top` entries load first, `bottom` entries load last.
/// Within a block the mods keep their current relative order; the order of
/// the names here carries no meaning beyond membership.
#[derive(Debug, Clone, PartialEq)]
pub struct Pins {
    pub top: Vec<String>,
    pub bottom: Vec<String>,
}

impl Default for Pins {
    fn default() -> (p: Pins)
        ensures
            p.top@.len() == 0,
            p.bottom@.len() == 0,
    {
        Pins { top: Vec::new(), bottom: Vec::new() }
    }
}

/// A mod whose position changed, and why.
#[derive(Debug, Clone)]
pub struct Move {
    pub name: String,
    pub reason: String,
}

/// The proposed order and the moves that lead to it.
#[derive(Debug, Clone)]
pub struct SortResult {
    pub proposed: Vec<String>,
    pub moves: Vec<Move>,
}

/// Everything the proposal depends on, as plain values.
pub struct SortInput {
    pub mods: Seq<ModFile>,
    pub current: Seq<Seq<char>>,
    pub top: Seq<Seq<char>>,
    pub bottom: Seq<Seq<char>>,
}

/// Some enabled, listable mod goes by the name `n`.
pub open spec fn in_use(mods: Seq<ModFile>, n: Seq<char>) -> bool {
    exists|k: int| 0 <= k < mods.len() && usable(mods[k]) && #[trigger] mods[k].name@ == n
}

/// The names of `cur` that are in use, each kept at its first occurrence.
pub open spec fn kept_current(mods: Seq<ModFile>, cur: Seq<Seq<char>>) -> Seq<Seq<char>>
    decreases cur.len(),
{
    if cur.len() == 0 {
        Seq::empty()
    } else {
        let p = kept_current(mods, cur.drop_last());
        let x = cur.last();
        if in_use(mods, x) && !p.contains(x) {
            p.push(x)
        } else {
            p
        }
    }
}

/// Names in use that the current order does not mention.
pub open spec fn extra_names(mods: Seq<ModFile>, cur: Seq<Seq<char>>) -> Set<Seq<char>> {
    Set::new(|n: Seq<char>| in_use(mods, n) && !cur.contains(n))
}

/// The elements of a finite set of texts in increasing order.
pub open spec fn sorted_listing(s: Set<Seq<char>>) -> Seq<Seq<char>> {
    choose|e: Seq<Seq<char>>| strictly_sorted(e) && e.to_set() == s
}

/// The order the proposal starts from: the current order restricted to
/// the mods in use, then the other mods in use by name.
pub open spec fn working_order(mods: Seq<ModFile>, cur: Seq<Seq<char>>) -> Seq<Seq<char>> {
    kept_current(mods, cur) + sorted_listing(extra_names(mods, cur))
}

/// `k` is the last enabled, listable mod named `n`.
pub open spec fn is_mod_for(mods: Seq<ModFile>, n: Seq<char>, k: int) -> bool {
    &&& 0 <= k < mods.len()
    &&& usable(mods[k])
    &&& mods[k].name@ == n
    &&& forall|j: int| k < j < mods.len() && usable(#[trigger] mods[j]) ==> mods[j].name@ != n
}

/// The mod that stands for the name `n` (the last one of that name).
pub open spec fn mod_for(mods: Seq<ModFile>, n: Seq<char>) -> int {
    choose|k: int| is_mod_for(mods, n, k)
}

/// How many assets the mod named `n` provides.
pub open spec fn asset_count(mods: Seq<ModFile>, n: Seq<char>) -> nat {
    mods[mod_for(mods, n)].assets@.len()
}

/// The mods named `a` and `b` provide a common asset.
pub open spec fn overlap(mods: Seq<ModFile>, a: Seq<char>, b: Seq<char>) -> bool {
    exists|x: Seq<char>| mods[mod_for(mods, a)].assets@.contains(x) && mods[mod_for(mods, b)].assets@.contains(x)
}

/// The name is pinned to the top or the bottom.
pub open spec fn pinned(inp: SortInput, n: Seq<char>) -> bool {
    inp.top.contains(n) || inp.bottom.contains(n)
}

/// Mod `a` must load before mod `b`: neither is pinned, they overlap, and
/// `a` is the broader of the two.
pub open spec fn must_precede(inp: SortInput, a: Seq<char>, b: Seq<char>) -> bool {
    &&& !pinned(inp, a)
    &&& !pinned(inp, b)
    &&& overlap(inp.mods, a, b)
    &&& asset_count(inp.mods, a) > asset_count(inp.mods, b)
}

/// Node `i` (of `n`) may come next after the nodes in `out`: it takes part
/// (`free`), is not placed yet, and no unplaced node must precede it.
pub open spec fn ready_in(prec: spec_fn(int, int) -> bool, free: spec_fn(int) -> bool, n: int, out: Seq<int>, i: int) -> bool {
    &&& 0 <= i < n
    &&& free(i)
    &&& !out.contains(i)
    &&& forall|f: int| 0 <= f < n && !out.contains(f) ==> !(#[trigger] prec(f, i))
}

/// The ready node with the smallest index.
pub open spec fn first_ready_in(prec: spec_fn(int, int) -> bool, free: spec_fn(int) -> bool, n: int, out: Seq<int>) -> int {
    choose|i: int| ready_in(prec, free, n, out, i) && forall|j: int| 0 <= j < i ==> !ready_in(prec, free, n, out, j)
}

/// `k` rounds of placing the ready node with the smallest index, when
/// there is one.
pub open spec fn greedy(prec: spec_fn(int, int) -> bool, free: spec_fn(int) -> bool, n: int, k: nat) -> Seq<int>
    decreases k,
{
    if k == 0 {
        Seq::empty()
    } else {
        let p = greedy(prec, free, n, (k - 1) as nat);
        if exists|i: int| ready_in(prec, free, n, p, i) {
            p.push(first_ready_in(prec, free, n, p))
        } else {
            p
        }
    }
}

/// The texts of `s` that satisfy `pred`, in order.
pub open spec fn keep_if(s: Seq<Seq<char>>, pred: spec_fn(Seq<char>) -> bool) -> Seq<Seq<char>>
    decreases s.len(),
{
    if s.len() == 0 {
        Seq::empty()
    } else {
        let p = keep_if(s.drop_last(), pred);
        if pred(s.last()) {
            p.push(s.last())
        } else {
            p
        }
    }
}

/// The starting order of the input.
pub open spec fn working_of(inp: SortInput) -> Seq<Seq<char>> {
    working_order(inp.mods, inp.current)
}

/// The precedence relation between starting positions.
pub open spec fn precede_rel(inp: SortInput) -> spec_fn(int, int) -> bool {
    |f: int, t: int| must_precede(inp, working_of(inp)[f], working_of(inp)[t])
}

/// The starting positions whose mods are not pinned.
pub open spec fn unpinned_at(inp: SortInput) -> spec_fn(int) -> bool {
    |i: int| !pinned(inp, working_of(inp)[i])
}

/// The name at each position of `w`.
pub open spec fn name_at(w: Seq<Seq<char>>) -> spec_fn(int) -> Seq<char> {
    |i: int| w[i]
}

/// Names pinned to the top.
pub open spec fn top_pred(inp: SortInput) -> spec_fn(Seq<char>) -> bool {
    |n: Seq<char>| inp.top.contains(n)
}

/// Names pinned to the bottom and not to the top.
pub open spec fn bottom_pred(inp: SortInput) -> spec_fn(Seq<char>) -> bool {
    |n: Seq<char>| inp.bottom.contains(n) && !inp.top.contains(n)
}

/// The unpinned mods, ordered so that every broader overlapping mod comes
/// before the more specific one, and otherwise by their starting order.
pub open spec fn middle_order(inp: SortInput) -> Seq<Seq<char>> {
    let w = working_of(inp);
    greedy(precede_rel(inp), unpinned_at(inp), w.len() as int, w.len()).map_values(name_at(w))
}

/// The proposed order: top pins, the sorted middle, then bottom pins (a
/// name pinned both ways counts as a top pin).
pub open spec fn proposed_order(inp: SortInput) -> Seq<Seq<char>> {
    let w = working_of(inp);
    keep_if(w, top_pred(inp)) + middle_order(inp) + keep_if(w, bottom_pred(inp))
}

/// `f` is the node blamed for moving node `s`: of the mods that must
/// precede `s`, the broadest, and the earliest of those.
pub open spec fn is_blame(inp: SortInput, w: Seq<Seq<char>>, s: int, f: int) -> bool {
    &&& 0 <= f < w.len()
    &&& must_precede(inp, w[f], w[s])
    &&& forall|g: int| 0 <= g < w.len() && must_precede(inp, #[trigger] w[g], w[s]) ==>
            asset_count(inp.mods, w[g]) < asset_count(inp.mods, w[f])
            || (asset_count(inp.mods, w[g]) == asset_count(inp.mods, w[f]) && f <= g)
}

pub open spec fn blame_of(inp: SortInput, w: Seq<Seq<char>>, s: int) -> Option<int> {
    if exists|f: int| is_blame(inp, w, s, f) {
        Some(choose|f: int| is_blame(inp, w, s, f))
    } else {
        None
    }
}

/// The explanation given for a move caused by an overlap.
pub open spec fn moved_reason(other: Seq<char>, mine: nat, theirs: nat) -> Seq<char> {
    "moved after "@ + other + ": its "@ + decimal(mine) + " assets overlap "@ + other + "'s "@
        + decimal(theirs) + " and the more specific mod wins"@
}

/// The explanation for moving node `s` of `w`.
pub open spec fn reason_for(inp: SortInput, w: Seq<Seq<char>>, s: int) -> Seq<char> {
    match blame_of(inp, w, s) {
        Some(f) => moved_reason(w[f], asset_count(inp.mods, w[s]), asset_count(inp.mods, w[f])),
        None => "repositioned to preserve relative order after conflict-driven moves"@,
    }
}

/// The moves among the first `k` entries of `prop`: each name whose
/// position differs from its starting position, with its reason.
pub open spec fn moves_upto(inp: SortInput, w: Seq<Seq<char>>, prop: Seq<Seq<char>>, k: int) -> Seq<(Seq<char>, Seq<char>)>
    decreases k,
{
    if k <= 0 {
        Seq::empty()
    } else {
        let p = moves_upto(inp, w, prop, k - 1);
        let n = prop[k - 1];
        match w.index_of_first(n) {
            Some(s) => if s != k - 1 {
                p.push((n, reason_for(inp, w, s)))
            } else {
                p
            },
            None => p.push((n, "repositioned to preserve relative order after conflict-driven moves"@)),
        }
    }
}

/// The moves of the proposal.
pub open spec fn moves_of(inp: SortInput) -> Seq<(Seq<char>, Seq<char>)> {
    let prop = proposed_order(inp);
    moves_upto(inp, working_of(inp), prop, prop.len() as int)
}

/// The view of a move.
pub open spec fn move_view(m: Move) -> (Seq<char>, Seq<char>) {
    (m.name@, m.reason@)
}

fn usable_name_set(mods: &[ModFile]) -> (r: AssetSet)
    ensures
        strictly_sorted(r@),
        forall|n: Seq<char>| #[trigger] r@.contains(n) <==> in_use(mods@, n),
{
    let mut r = AssetSet::new();
    let mut i: usize = 0;
    while i < mods.len()
        invariant
            i <= mods@.len(),
            strictly_sorted(r@),
            forall|n: Seq<char>| #[trigger] r@.contains(n) <==> exists|k: int| 0 <= k < i && usable(mods@[k]) && #[trigger] mods@[k].name@ == n,
        decreases mods@.len() - i,
    {
        let ghost before = r@;
        if mods[i].enabled && mods[i].error.is_none() {
            r.insert(mods[i].name.clone());
            proof {
                assert forall|n: Seq<char>| #[trigger] r@.contains(n) <==> exists|k: int| 0 <= k < i + 1 && usable(mods@[k]) && #[trigger] mods@[k].name@ == n by {
                    assert(text_set(r@).contains(n) == r@.contains(n));
                    assert(text_set(before).contains(n) == before.contains(n));
                    if n == mods@[i as int].name@ {
                    } else if r@.contains(n) {
                        let k = choose|k: int| 0 <= k < i && usable(mods@[k]) && #[trigger] mods@[k].name@ == n;
                    }
                }
            }
        } else {
            proof {
                assert forall|n: Seq<char>| #[trigger] r@.contains(n) <==> exists|k: int| 0 <= k < i + 1 && usable(mods@[k]) && #[trigger] mods@[k].name@ == n by {
                    if exists|k: int| 0 <= k < i + 1 && usable(mods@[k]) && #[trigger] mods@[k].name@ == n {
                        let k = choose|k: int| 0 <= k < i + 1 && usable(mods@[k]) && #[trigger] mods@[k].name@ == n;
                        assert(k < i);
                    }
                }
            }
        }
        i = i + 1;
    }
    r
}

fn names_contain(list: &Vec<String>, name: &String) -> (r: bool)
    ensures
        r == texts(list@).contains(name@),
{
    let mut i: usize = 0;
    while i < list.len()
        invariant
            i <= list@.len(),
            forall|j: int| 0 <= j < i ==> texts(list@)[j] != name@,
        decreases list@.len() - i,
    {
        if list[i] == *name {
            assert(texts(list@)[i as int] == name@);
            return true;
        }
        i = i + 1;
    }
    false
}

/// The names kept from the current order are those in use that it lists.
pub proof fn lemma_kept_subset(mods: Seq<ModFile>, cur: Seq<Seq<char>>)
    ensures
        forall|n: Seq<char>| kept_current(mods, cur).contains(n) <==> (in_use(mods, n) && cur.contains(n)),
    decreases cur.len(),
{
    if cur.len() > 0 {
        let c = cur.drop_last();
        lemma_kept_subset(mods, c);
        let p = kept_current(mods, c);
        let x = cur.last();
        assert forall|n: Seq<char>| kept_current(mods, cur).contains(n) <==> (in_use(mods, n) && cur.contains(n)) by {
            if in_use(mods, x) && !p.contains(x) {
                if p.push(x).contains(n) {
                    let k = choose|k: int| 0 <= k < p.push(x).len() && p.push(x)[k] == n;
                    if k < p.len() {
                        assert(p[k] == n);
                    }
                }
                if p.contains(n) {
                    let k = choose|k: int| 0 <= k < p.len() && p[k] == n;
                    assert(p.push(x)[k] == n);
                }
                if n == x {
                    assert(p.push(x)[p.len() as int] == n);
                }
            }
            if cur.contains(n) {
                let k = choose|k: int| 0 <= k < cur.len() && cur[k] == n;
                if k < c.len() {
                    assert(c[k] == n);
                }
            }
            if c.contains(n) {
                let k = choose|k: int| 0 <= k < c.len() && c[k] == n;
                assert(cur[k] == n);
            }
            assert(cur[cur.len() - 1] == x);
        }
    }
}

/// The names kept from the current order are all different.
pub proof fn lemma_kept_unique(mods: Seq<ModFile>, cur: Seq<Seq<char>>)
    ensures
        forall|i: int, j: int| 0 <= i < j < kept_current(mods, cur).len() ==> kept_current(mods, cur)[i] != kept_current(mods, cur)[j],
    decreases cur.len(),
{
    if cur.len() > 0 {
        lemma_kept_unique(mods, cur.drop_last());
        let p = kept_current(mods, cur.drop_last());
        let x = cur.last();
        if in_use(mods, x) && !p.contains(x) {
            let q = p.push(x);
            assert forall|i: int, j: int| 0 <= i < j < q.len() implies q[i] != q[j] by {
                if j == p.len() {
                    assert(q[i] == p[i]);
                }
            }
        }
    }
}

/// The starting order: see `working_order`.
fn working_names(mods: &[ModFile], current: &[String]) -> (w: Vec<String>)
    ensures
        texts(w@) == working_order(mods@, texts(current@)),
        forall|i: int| 0 <= i < w@.len() ==> in_use(mods@, #[trigger] texts(w@)[i]),
        forall|i: int, j: int| 0 <= i < j < w@.len() ==> texts(w@)[i] != texts(w@)[j],
{
    let names = usable_name_set(mods);
    let ghost cur = texts(current@);
    let mut kept: Vec<String> = Vec::new();
    let mut i: usize = 0;
    while i < current.len()
        invariant
            cur == texts(current@),
            i <= current@.len(),
            forall|n: Seq<char>| #[trigger] names@.contains(n) <==> in_use(mods@, n),
            texts(kept@) == kept_current(mods@, cur.take(i as int)),
        decreases current@.len() - i,
    {
        proof {
            assert(cur.take(i + 1).drop_last() =~= cur.take(i as int));
            assert(cur.take(i + 1).last() == current@[i as int]@);
        }
        if names.contains(current[i].as_str()) && !names_contain(&kept, &current[i]) {
            let ghost before = kept@;
            kept.push(current[i].clone());
            assert(texts(kept@) =~= texts(before).push(current@[i as int]@));
        }
        i = i + 1;
    }
    assert(cur.take(i as int) =~= cur);
    proof {
        lemma_kept_subset(mods@, cur);
    }
    let mut w: Vec<String> = Vec::new();
    let mut j: usize = 0;
    while j < kept.len()
        invariant
            j <= kept@.len(),
            texts(w@) == texts(kept@).take(j as int),
            w@.len() == j,
        decreases kept@.len() - j,
    {
        w.push(kept[j].clone());
        assert(texts(w@) =~= texts(kept@).take(j + 1));
        j = j + 1;
    }
    assert(texts(kept@).take(j as int) =~= texts(kept@));
    let ghost kv = texts(kept@);
    let ghost mut extras: Seq<Seq<char>> = Seq::empty();
    names.prove_sorted();
    let mut k: usize = 0;
    while k < names.len()
        invariant
            kv == texts(kept@),
            kv == kept_current(mods@, cur),
            forall|n: Seq<char>| kv.contains(n) <==> (in_use(mods@, n) && cur.contains(n)),
            forall|n: Seq<char>| #[trigger] names@.contains(n) <==> in_use(mods@, n),
            strictly_sorted(names@),
            k <= names@.len(),
            texts(w@) == kv + extras,
            strictly_sorted(extras),
            forall|n: Seq<char>| #[trigger] extras.contains(n) <==> exists|q: int| 0 <= q < k && names@[q] == n && !cur.contains(n),
            forall|q: int| 0 <= q < extras.len() ==> exists|r: int| 0 <= r < k && names@[r] == #[trigger] extras[q],
        decreases names@.len() - k,
    {
        let nm = names.get(k);
        if !names_contain(&kept, nm) {
            let ghost before = extras;
            proof {
                assert(!cur.contains(nm@)) by {
                    assert(names@.contains(names@[k as int]));
                }
                extras = extras.push(nm@);
                assert forall|a: int, b: int| 0 <= a < b < extras.len() implies text_lt(#[trigger] extras[a], #[trigger] extras[b]) by {
                    if b == before.len() {
                        let r = choose|r: int| 0 <= r < k && names@[r] == before[a];
                        assert(text_lt(names@[r], names@[k as int]));
                    }
                }
                assert forall|n: Seq<char>| #[trigger] extras.contains(n) <==> exists|q: int| 0 <= q < k + 1 && names@[q] == n && !cur.contains(n) by {
                    if extras.contains(n) {
                        let q = choose|q: int| 0 <= q < extras.len() && extras[q] == n;
                        if q < before.len() {
                            assert(before.contains(n));
                        }
                    }
                    if exists|q: int| 0 <= q < k + 1 && names@[q] == n && !cur.contains(n) {
                        let q = choose|q: int| 0 <= q < k + 1 && names@[q] == n && !cur.contains(n);
                        if q < k {
                            assert(before.contains(n));
                            let z = choose|z: int| 0 <= z < before.len() && before[z] == n;
                            assert(extras[z] == n);
                        } else {
                            assert(extras[before.len() as int] == n);
                        }
                    }
                }
                assert forall|q: int| 0 <= q < extras.len() implies exists|r: int| 0 <= r < k + 1 && names@[r] == #[trigger] extras[q] by {
                    if q < before.len() {
                        let r = choose|r: int| 0 <= r < k && names@[r] == before[q];
                    } else {
                        assert(names@[k as int] == extras[q]);
                    }
                }
            }
            let ghost wb = w@;
            w.push(nm.clone());
            assert(texts(w@) =~= texts(wb).push(nm@));
            assert(kv + extras =~= (kv + before).push(nm@));
        } else {
            proof {
                assert forall|n: Seq<char>| #[trigger] extras.contains(n) <==> exists|q: int| 0 <= q < k + 1 && names@[q] == n && !cur.contains(n) by {
                    if exists|q: int| 0 <= q < k + 1 && names@[q] == n && !cur.contains(n) {
                        let q = choose|q: int| 0 <= q < k + 1 && names@[q] == n && !cur.contains(n);
                        if q == k {
                            assert(kv.contains(n));
                        }
                    }
                }
                assert forall|q: int| 0 <= q < extras.len() implies exists|r: int| 0 <= r < k + 1 && names@[r] == #[trigger] extras[q] by {
                    let r = choose|r: int| 0 <= r < k && names@[r] == extras[q];
                }
            }
        }
        k = k + 1;
    }
    proof {
        let e = extra_names(mods@, cur);
        assert forall|n: Seq<char>| extras.to_set().contains(n) <==> e.contains(n) by {
            if e.contains(n) {
                assert(names@.contains(n));
                let q = choose|q: int| 0 <= q < names@.len() && names@[q] == n;
                assert(extras.contains(n));
            }
            if extras.contains(n) {
                let q = choose|q: int| 0 <= q < k && names@[q] == n && !cur.contains(n);
                assert(names@.contains(n));
            }
        }
        assert(extras.to_set() =~= e);
        let chosen = sorted_listing(e);
        assert(strictly_sorted(chosen) && chosen.to_set() == e);
        lemma_strictly_sorted_unique(extras, chosen);
        lemma_kept_unique(mods@, cur);
        let wv = texts(w@);
        assert forall|i: int| 0 <= i < w@.len() implies in_use(mods@, #[trigger] texts(w@)[i]) by {
            if i < kv.len() {
                assert(wv[i] == kv[i]);
                assert(kv.contains(kv[i]));
            } else {
                assert(wv[i] == extras[i - kv.len()]);
                assert(extras.contains(extras[i - kv.len()]));
                let q = choose|q: int| 0 <= q < k && names@[q] == wv[i] && !cur.contains(wv[i]);
                assert(names@.contains(wv[i]));
            }
        }
        assert forall|i: int, j: int| 0 <= i < j < w@.len() implies texts(w@)[i] != texts(w@)[j] by {
            if j < kv.len() {
                assert(wv[i] == kv[i] && wv[j] == kv[j]);
            } else if i >= kv.len() {
                assert(wv[i] == extras[i - kv.len()] && wv[j] == extras[j - kv.len()]);
                crate::text::lemma_text_lt_asymmetric(extras[i - kv.len()], extras[j - kv.len()]);
            } else {
                assert(wv[i] == kv[i]);
                assert(kv.contains(kv[i]));
                assert(wv[j] == extras[j - kv.len()]);
                assert(extras.contains(extras[j - kv.len()]));
            }
        }
    }
    w
}

proof fn lemma_mod_for_unique(mods: Seq<ModFile>, n: Seq<char>, k: int)
    requires
        is_mod_for(mods, n, k),
    ensures
        mod_for(mods, n) == k,
{
    let c = mod_for(mods, n);
    assert(is_mod_for(mods, n, c));
    if c < k {
        assert(usable(mods[k]));
    } else if c > k {
        assert(usable(mods[c]));
    }
}

/// The index of the last enabled, listable mod named `name`.
fn mod_index_for(mods: &[ModFile], name: &String) -> (k: usize)
    requires
        in_use(mods@, name@),
    ensures
        k == mod_for(mods@, name@),
        is_mod_for(mods@, name@, k as int),
{
    let mut found: usize = 0;
    let mut any = false;
    let mut i: usize = 0;
    while i < mods.len()
        invariant
            i <= mods@.len(),
            in_use(mods@, name@),
            any ==> (found < i && usable(mods@[found as int]) && mods@[found as int].name@ == name@),
            forall|j: int| (if any { found < j } else { 0 <= j }) && j < i && usable(#[trigger] mods@[j]) ==> mods@[j].name@ != name@,
        decreases mods@.len() - i,
    {
        if mods[i].enabled && mods[i].error.is_none() && mods[i].name == *name {
            found = i;
            any = true;
        }
        i = i + 1;
    }
    proof {
        if !any {
            let q = choose|q: int| 0 <= q < mods@.len() && usable(mods@[q]) && #[trigger] mods@[q].name@ == name@;
            assert(false);
        }
        lemma_mod_for_unique(mods@, name@, found as int);
    }
    found
}

/// The input of a proposal, as plain values.
pub open spec fn sort_input(mods: Seq<ModFile>, current: Seq<String>, pins: Pins) -> SortInput {
    SortInput { mods, current: texts(current), top: texts(pins.top@), bottom: texts(pins.bottom@) }
}

/// For each pair of starting positions, whether the first must load before
/// the second.
fn precedence(mods: &[ModFile], w: &Vec<String>, pin: &Vec<bool>, midx: &Vec<usize>, cnt: &Vec<usize>, Ghost(inp): Ghost<SortInput>) -> (adj: Vec<Vec<bool>>)
    requires
        inp.mods == mods@,
        pin@.len() == w@.len(),
        midx@.len() == w@.len(),
        cnt@.len() == w@.len(),
        forall|i: int| 0 <= i < w@.len() ==> #[trigger] pin@[i] == pinned(inp, texts(w@)[i]),
        forall|i: int| 0 <= i < w@.len() ==> #[trigger] midx@[i] == mod_for(mods@, texts(w@)[i]) && midx@[i] < mods@.len(),
        forall|i: int| 0 <= i < w@.len() ==> #[trigger] cnt@[i] == asset_count(mods@, texts(w@)[i]),
    ensures
        adj@.len() == w@.len(),
        forall|f: int| 0 <= f < w@.len() ==> (#[trigger] adj@[f])@.len() == w@.len(),
        forall|f: int, t: int| 0 <= f < w@.len() && 0 <= t < w@.len() ==> (#[trigger] adj@[f]@[t] == must_precede(inp, texts(w@)[f], texts(w@)[t])),
{
    let n = w.len();
    let mut adj: Vec<Vec<bool>> = Vec::new();
    let mut f: usize = 0;
    while f < n
        invariant
            n == w@.len(),
            inp.mods == mods@,
            pin@.len() == n,
            midx@.len() == n,
            cnt@.len() == n,
            forall|i: int| 0 <= i < n ==> #[trigger] pin@[i] == pinned(inp, texts(w@)[i]),
            forall|i: int| 0 <= i < n ==> #[trigger] midx@[i] == mod_for(mods@, texts(w@)[i]) && midx@[i] < mods@.len(),
            forall|i: int| 0 <= i < n ==> #[trigger] cnt@[i] == asset_count(mods@, texts(w@)[i]),
            f <= n,
            adj@.len() == f,
            forall|a: int| 0 <= a < f ==> (#[trigger] adj@[a])@.len() == n,
            forall|a: int, t: int| 0 <= a < f && 0 <= t < n ==> (#[trigger] adj@[a]@[t] == must_precede(inp, texts(w@)[a], texts(w@)[t])),
        decreases n - f,
    {
        let mut row: Vec<bool> = Vec::new();
        let mut t: usize = 0;
        while t < n
            invariant
                n == w@.len(),
                inp.mods == mods@,
                pin@.len() == n,
                midx@.len() == n,
                cnt@.len() == n,
                forall|i: int| 0 <= i < n ==> #[trigger] pin@[i] == pinned(inp, texts(w@)[i]),
                forall|i: int| 0 <= i < n ==> #[trigger] midx@[i] == mod_for(mods@, texts(w@)[i]) && midx@[i] < mods@.len(),
                forall|i: int| 0 <= i < n ==> #[trigger] cnt@[i] == asset_count(mods@, texts(w@)[i]),
                f < n,
                t <= n,
                row@.len() == t,
                forall|b: int| 0 <= b < t ==> (#[trigger] row@[b] == must_precede(inp, texts(w@)[f as int], texts(w@)[b])),
            decreases n - t,
        {
            let mut edge = false;
            if !pin[f] && !pin[t] && cnt[f] > cnt[t] {
                edge = mods[midx[f]].assets.intersects(&mods[midx[t]].assets);
            }
            assert(pin@[f as int] == pinned(inp, texts(w@)[f as int]));
            assert(pin@[t as int] == pinned(inp, texts(w@)[t as int]));
            assert(cnt@[f as int] == asset_count(mods@, texts(w@)[f as int]));
            assert(cnt@[t as int] == asset_count(mods@, texts(w@)[t as int]));
            assert(midx@[f as int] == mod_for(mods@, texts(w@)[f as int]));
            assert(midx@[t as int] == mod_for(mods@, texts(w@)[t as int]));
            row.push(edge);
            t = t + 1;
        }
        adj.push(row);
        f = f + 1;
    }
    adj
}

/// The relation given by a boolean matrix.
pub open spec fn matrix_rel(adj: Seq<Vec<bool>>) -> spec_fn(int, int) -> bool {
    |f: int, t: int| adj[f]@[t]
}

/// The predicate given by a vector of flags.
pub open spec fn flag_set(v: Seq<bool>) -> spec_fn(int) -> bool {
    |i: int| v[i]
}

proof fn lemma_first_ready_unique(prec: spec_fn(int, int) -> bool, free: spec_fn(int) -> bool, n: int, out: Seq<int>, i: int)
    requires
        ready_in(prec, free, n, out, i),
        forall|j: int| 0 <= j < i ==> !ready_in(prec, free, n, out, j),
    ensures
        first_ready_in(prec, free, n, out) == i,
{
    let c = first_ready_in(prec, free, n, out);
    assert(ready_in(prec, free, n, out, c) && forall|j: int| 0 <= j < c ==> !ready_in(prec, free, n, out, j));
    if c < i {
        assert(!ready_in(prec, free, n, out, c));
    } else if c > i {
        assert(!ready_in(prec, free, n, out, i));
    }
}

proof fn lemma_ready_congruent(p1: spec_fn(int, int) -> bool, f1: spec_fn(int) -> bool, p2: spec_fn(int, int) -> bool, f2: spec_fn(int) -> bool, n: int, out: Seq<int>, i: int)
    requires
        forall|a: int, b: int| 0 <= a < n && 0 <= b < n ==> #[trigger] p1(a, b) == p2(a, b),
        forall|j: int| 0 <= j < n ==> #[trigger] f1(j) == f2(j),
    ensures
        ready_in(p1, f1, n, out, i) == ready_in(p2, f2, n, out, i),
{
    if 0 <= i < n {
        assert forall|f: int| 0 <= f < n && !out.contains(f) implies (p1(f, i) == p2(f, i)) by {}
        assert(f1(i) == f2(i));
    }
}

proof fn lemma_greedy_congruent(p1: spec_fn(int, int) -> bool, f1: spec_fn(int) -> bool, p2: spec_fn(int, int) -> bool, f2: spec_fn(int) -> bool, n: int, k: nat)
    requires
        forall|a: int, b: int| 0 <= a < n && 0 <= b < n ==> #[trigger] p1(a, b) == p2(a, b),
        forall|i: int| 0 <= i < n ==> #[trigger] f1(i) == f2(i),
    ensures
        greedy(p1, f1, n, k) == greedy(p2, f2, n, k),
    decreases k,
{
    if k > 0 {
        lemma_greedy_congruent(p1, f1, p2, f2, n, (k - 1) as nat);
        let out = greedy(p1, f1, n, (k - 1) as nat);
        assert(out == greedy(p2, f2, n, (k - 1) as nat));
        if exists|i: int| ready_in(p1, f1, n, out, i) {
            let w = choose|i: int| ready_in(p1, f1, n, out, i);
            lemma_ready_congruent(p1, f1, p2, f2, n, out, w);
            let c = first_ready_in(p1, f1, n, out);
            assert(ready_in(p1, f1, n, out, c) && forall|j: int| 0 <= j < c ==> !ready_in(p1, f1, n, out, j)) by {
                lemma_first_ready_exists(p1, f1, n, out, w);
            }
            lemma_ready_congruent(p1, f1, p2, f2, n, out, c);
            assert forall|j: int| 0 <= j < c implies !ready_in(p2, f2, n, out, j) by {
                lemma_ready_congruent(p1, f1, p2, f2, n, out, j);
            }
            lemma_first_ready_unique(p2, f2, n, out, c);
            assert(greedy(p1, f1, n, k) == out.push(c));
            assert(greedy(p2, f2, n, k) == out.push(c));
        } else {
            assert forall|i: int| !ready_in(p2, f2, n, out, i) by {
                lemma_ready_congruent(p1, f1, p2, f2, n, out, i);
            }
        }
    }
}

/// When some node is ready, a first ready node exists.
pub proof fn lemma_first_ready_exists(prec: spec_fn(int, int) -> bool, free: spec_fn(int) -> bool, n: int, out: Seq<int>, w: int)
    requires
        ready_in(prec, free, n, out, w),
    ensures
        ready_in(prec, free, n, out, first_ready_in(prec, free, n, out)),
        forall|j: int| 0 <= j < first_ready_in(prec, free, n, out) ==> !ready_in(prec, free, n, out, j),
    decreases w,
{
    if exists|j: int| 0 <= j < w && ready_in(prec, free, n, out, j) {
        let j = choose|j: int| 0 <= j < w && ready_in(prec, free, n, out, j);
        lemma_first_ready_exists(prec, free, n, out, j);
    } else {
        assert(ready_in(prec, free, n, out, w) && forall|j: int| 0 <= j < w ==> !ready_in(prec, free, n, out, j));
    }
}

/// Whether node `i` is ready, given the flags of the placed nodes.
fn is_ready(adj: &Vec<Vec<bool>>, free: &Vec<bool>, done: &Vec<bool>, i: usize, Ghost(out): Ghost<Seq<int>>) -> (r: bool)
    requires
        i < adj@.len(),
        free@.len() == adj@.len(),
        done@.len() == adj@.len(),
        forall|f: int| 0 <= f < adj@.len() ==> (#[trigger] adj@[f])@.len() == adj@.len(),
        forall|f: int| 0 <= f < adj@.len() ==> (#[trigger] done@[f] == out.contains(f)),
    ensures
        r == ready_in(matrix_rel(adj@), flag_set(free@), adj@.len() as int, out, i as int),
{
    let n = adj.len();
    if !free[i] || done[i] {
        return false;
    }
    let mut f: usize = 0;
    while f < n
        invariant
            n == adj@.len(),
            i < n,
            forall|g: int| 0 <= g < n ==> (#[trigger] adj@[g])@.len() == n,
            forall|g: int| 0 <= g < n ==> (#[trigger] done@[g] == out.contains(g)),
            done@.len() == n,
            f <= n,
            forall|g: int| 0 <= g < f && !out.contains(g) ==> !(#[trigger] matrix_rel(adj@)(g, i as int)),
        decreases n - f,
    {
        if !done[f] && adj[f][i] {
            assert(matrix_rel(adj@)(f as int, i as int));
            return false;
        }
        f = f + 1;
    }
    true
}

/// The greedy order of `greedy`, computed on a matrix.
fn greedy_exec(adj: &Vec<Vec<bool>>, free: &Vec<bool>) -> (out: Vec<usize>)
    requires
        free@.len() == adj@.len(),
        forall|f: int| 0 <= f < adj@.len() ==> (#[trigger] adj@[f])@.len() == adj@.len(),
    ensures
        out@.map_values(|k: usize| k as int) == greedy(matrix_rel(adj@), flag_set(free@), adj@.len() as int, adj@.len()),
        forall|k: int| 0 <= k < out@.len() ==> #[trigger] out@[k] < adj@.len(),
{
    let n = adj.len();
    let ghost prec = matrix_rel(adj@);
    let ghost fr = flag_set(free@);
    let mut out: Vec<usize> = Vec::new();
    let mut done: Vec<bool> = vec![false; n];
    let mut round: usize = 0;
    while round < n
        invariant
            n == adj@.len(),
            prec == matrix_rel(adj@),
            fr == flag_set(free@),
            free@.len() == n,
            forall|f: int| 0 <= f < n ==> (#[trigger] adj@[f])@.len() == n,
            done@.len() == n,
            round <= n,
            out@.map_values(|k: usize| k as int) == greedy(prec, fr, n as int, round as nat),
            forall|k: int| 0 <= k < out@.len() ==> #[trigger] out@[k] < n,
            forall|f: int| 0 <= f < n ==> (#[trigger] done@[f] == out@.map_values(|k: usize| k as int).contains(f)),
        decreases n - round,
    {
        let ghost ov = out@.map_values(|k: usize| k as int);
        let mut i: usize = 0;
        while i < n && !is_ready(adj, free, &done, i, Ghost(ov))
            invariant
                n == adj@.len(),
                prec == matrix_rel(adj@),
                fr == flag_set(free@),
                free@.len() == n,
                done@.len() == n,
                forall|f: int| 0 <= f < n ==> (#[trigger] adj@[f])@.len() == n,
                forall|f: int| 0 <= f < n ==> (#[trigger] done@[f] == ov.contains(f)),
                i <= n,
                forall|j: int| 0 <= j < i ==> !ready_in(prec, fr, n as int, ov, j),
            decreases n - i,
        {
            i = i + 1;
        }
        if i < n {
            proof {
                lemma_first_ready_unique(prec, fr, n as int, ov, i as int);
            }
            out.push(i);
            done.set(i, true);
            proof {
                let nv = out@.map_values(|k: usize| k as int);
                assert(nv =~= ov.push(i as int));
                assert forall|f: int| 0 <= f < n implies (#[trigger] done@[f] == nv.contains(f)) by {
                    if f == i {
                        assert(nv[ov.len() as int] == f);
                    } else {
                        if nv.contains(f) {
                            let q = choose|q: int| 0 <= q < nv.len() && nv[q] == f;
                            assert(q < ov.len());
                            assert(ov[q] == f);
                        }
                        if ov.contains(f) {
                            let q = choose|q: int| 0 <= q < ov.len() && ov[q] == f;
                            assert(nv[q] == f);
                        }
                    }
                }
            }
        } else {
            proof {
                assert forall|j: int| !ready_in(prec, fr, n as int, ov, j) by {}
            }
        }
        round = round + 1;
    }
    out
}

/// The node blamed for moving node `s`, found on the matrix.
fn blame_exec(adj: &Vec<Vec<bool>>, cnt: &Vec<usize>, s: usize) -> (r: Option<usize>)
    requires
        s < adj@.len(),
        cnt@.len() == adj@.len(),
        forall|f: int| 0 <= f < adj@.len() ==> (#[trigger] adj@[f])@.len() == adj@.len(),
    ensures
        match r {
            Some(f) => f < adj@.len() && adj@[f as int]@[s as int]
                && forall|g: int| 0 <= g < adj@.len() && #[trigger] adj@[g]@[s as int] ==>
                    cnt@[g] < cnt@[f as int] || (cnt@[g] == cnt@[f as int] && f <= g),
            None => forall|g: int| 0 <= g < adj@.len() ==> !(#[trigger] adj@[g]@[s as int]),
        },
{
    let n = adj.len();
    let mut best: Option<usize> = None;
    let mut f: usize = 0;
    while f < n
        invariant
            n == adj@.len(),
            s < n,
            cnt@.len() == n,
            forall|g: int| 0 <= g < n ==> (#[trigger] adj@[g])@.len() == n,
            f <= n,
            match best {
                Some(b) => b < f && adj@[b as int]@[s as int]
                    && forall|g: int| 0 <= g < f && #[trigger] adj@[g]@[s as int] ==>
                        cnt@[g] < cnt@[b as int] || (cnt@[g] == cnt@[b as int] && b <= g),
                None => forall|g: int| 0 <= g < f ==> !(#[trigger] adj@[g]@[s as int]),
            },
        decreases n - f,
    {
        if adj[f][s] {
            match best {
                Some(b) => {
                    if cnt[f] > cnt[b] {
                        best = Some(f);
                    }
                },
                None => {
                    best = Some(f);
                },
            }
        }
        f = f + 1;
    }
    best
}

proof fn lemma_blame(inp: SortInput, w: Seq<Seq<char>>, s: int, f: int)
    requires
        is_blame(inp, w, s, f),
    ensures
        blame_of(inp, w, s) == Some(f),
{
    let c = choose|g: int| is_blame(inp, w, s, g);
    assert(is_blame(inp, w, s, c));
    assert(must_precede(inp, w[c], w[s]));
    assert(must_precede(inp, w[f], w[s]));
}

proof fn lemma_first_index(w: Seq<Seq<char>>, x: Seq<char>, s: int)
    requires
        0 <= s < w.len(),
        w[s] == x,
        forall|j: int| 0 <= j < s ==> w[j] != x,
    ensures
        w.index_of_first(x) == Some(s),
{
    w.index_of_first_ensures(x);
    assert(w.contains(x));
    let i = w.index_of_first(x).unwrap();
    if i < s {
        assert(w[i] != x);
    } else if i > s {
        assert(w[s] != x);
    }
}

fn first_index(w: &Vec<String>, x: &String) -> (r: Option<usize>)
    ensures
        match r {
            Some(s) => texts(w@).index_of_first(x@) == Some(s as int) && s < w@.len() && texts(w@)[s as int] == x@,
            None => texts(w@).index_of_first(x@) is None,
        },
{
    let ghost t = texts(w@);
    let mut i: usize = 0;
    while i < w.len()
        invariant
            t == texts(w@),
            i <= w@.len(),
            forall|j: int| 0 <= j < i ==> t[j] != x@,
        decreases w@.len() - i,
    {
        if w[i] == *x {
            proof {
                lemma_first_index(t, x@, i as int);
            }
            return Some(i);
        }
        i = i + 1;
    }
    proof {
        t.index_of_first_ensures(x@);
        if t.contains(x@) {
            let k = choose|k: int| 0 <= k < t.len() && t[k] == x@;
            assert(t[k] != x@);
        }
    }
    None
}

/// Per starting position: pinned or not, the mod standing for the name,
/// and its asset count.
fn position_facts(mods: &[ModFile], w: &Vec<String>, pins: &Pins, Ghost(inp): Ghost<SortInput>) -> (r: (Vec<bool>, Vec<bool>, Vec<usize>, Vec<usize>))
    requires
        inp.mods == mods@,
        inp.top == texts(pins.top@),
        inp.bottom == texts(pins.bottom@),
        forall|k: int| 0 <= k < w@.len() ==> in_use(mods@, #[trigger] texts(w@)[k]),
    ensures
        r.0@.len() == w@.len(),
        r.1@.len() == w@.len(),
        r.2@.len() == w@.len(),
        r.3@.len() == w@.len(),
        forall|k: int| 0 <= k < w@.len() ==> #[trigger] r.0@[k] == pinned(inp, texts(w@)[k]),
        forall|k: int| 0 <= k < w@.len() ==> #[trigger] r.1@[k] == !pinned(inp, texts(w@)[k]),
        forall|k: int| 0 <= k < w@.len() ==> #[trigger] r.2@[k] == mod_for(mods@, texts(w@)[k]) && r.2@[k] < mods@.len(),
        forall|k: int| 0 <= k < w@.len() ==> #[trigger] r.3@[k] == asset_count(mods@, texts(w@)[k]),
{
    let ghost wv = texts(w@);
    let n = w.len();
    let mut pin: Vec<bool> = Vec::new();
    let mut free: Vec<bool> = Vec::new();
    let mut midx: Vec<usize> = Vec::new();
    let mut cnt: Vec<usize> = Vec::new();
    let mut i: usize = 0;
    while i < n
        invariant
            n == w@.len(),
            wv == texts(w@),
            inp.mods == mods@,
            inp.top == texts(pins.top@),
            inp.bottom == texts(pins.bottom@),
            forall|k: int| 0 <= k < w@.len() ==> in_use(mods@, #[trigger] texts(w@)[k]),
            i <= n,
            pin@.len() == i,
            free@.len() == i,
            midx@.len() == i,
            cnt@.len() == i,
            forall|k: int| 0 <= k < i ==> #[trigger] pin@[k] == pinned(inp, wv[k]),
            forall|k: int| 0 <= k < i ==> #[trigger] free@[k] == !pinned(inp, wv[k]),
            forall|k: int| 0 <= k < i ==> #[trigger] midx@[k] == mod_for(mods@, wv[k]) && midx@[k] < mods@.len(),
            forall|k: int| 0 <= k < i ==> #[trigger] cnt@[k] == asset_count(mods@, wv[k]),
        decreases n - i,
    {
        let p = names_contain(&pins.top, &w[i]) || names_contain(&pins.bottom, &w[i]);
        pin.push(p);
        free.push(!p);
        assert(in_use(mods@, wv[i as int]));
        let k = mod_index_for(mods, &w[i]);
        midx.push(k);
        cnt.push(mods[k].assets.len());
        i = i + 1;
    }
    (pin, free, midx, cnt)
}

/// The names of `w` pinned to the top, in order.
fn top_block(w: &Vec<String>, pins: &Pins, Ghost(inp): Ghost<SortInput>) -> (r: Vec<String>)
    requires
        inp.top == texts(pins.top@),
    ensures
        texts(r@) == keep_if(texts(w@), top_pred(inp)),
{
    let ghost wv = texts(w@);
    let mut out: Vec<String> = Vec::new();
    let mut i: usize = 0;
    assert(wv.take(0) =~= Seq::<Seq<char>>::empty());
    while i < w.len()
        invariant
            wv == texts(w@),
            inp.top == texts(pins.top@),
            i <= w@.len(),
            texts(out@) == keep_if(wv.take(i as int), top_pred(inp)),
        decreases w@.len() - i,
    {
        proof {
            assert(wv.take(i + 1).drop_last() =~= wv.take(i as int));
            assert(wv.take(i + 1).last() == wv[i as int]);
        }
        if names_contain(&pins.top, &w[i]) {
            let ghost before = out@;
            out.push(w[i].clone());
            assert(texts(out@) =~= texts(before).push(wv[i as int]));
        }
        i = i + 1;
    }
    assert(wv.take(i as int) =~= wv);
    out
}

/// The names of `w` pinned to the bottom and not to the top, in order.
fn bottom_block(w: &Vec<String>, pins: &Pins, Ghost(inp): Ghost<SortInput>) -> (r: Vec<String>)
    requires
        inp.top == texts(pins.top@),
        inp.bottom == texts(pins.bottom@),
    ensures
        texts(r@) == keep_if(texts(w@), bottom_pred(inp)),
{
    let ghost wv = texts(w@);
    let mut out: Vec<String> = Vec::new();
    let mut i: usize = 0;
    assert(wv.take(0) =~= Seq::<Seq<char>>::empty());
    while i < w.len()
        invariant
            wv == texts(w@),
            inp.top == texts(pins.top@),
            inp.bottom == texts(pins.bottom@),
            i <= w@.len(),
            texts(out@) == keep_if(wv.take(i as int), bottom_pred(inp)),
        decreases w@.len() - i,
    {
        proof {
            assert(wv.take(i + 1).drop_last() =~= wv.take(i as int));
            assert(wv.take(i + 1).last() == wv[i as int]);
        }
        if names_contain(&pins.bottom, &w[i]) && !names_contain(&pins.top, &w[i]) {
            let ghost before = out@;
            out.push(w[i].clone());
            assert(texts(out@) =~= texts(before).push(wv[i as int]));
        }
        i = i + 1;
    }
    assert(wv.take(i as int) =~= wv);
    out
}

/// The explanation for moving the mod at starting position `s`.
fn reason_text(w: &Vec<String>, adj: &Vec<Vec<bool>>, cnt: &Vec<usize>, s: usize, Ghost(inp): Ghost<SortInput>) -> (r: String)
    requires
        texts(w@) == working_of(inp),
        s < w@.len(),
        adj@.len() == w@.len(),
        cnt@.len() == w@.len(),
        forall|f: int| 0 <= f < w@.len() ==> (#[trigger] adj@[f])@.len() == w@.len(),
        forall|f: int, t: int| 0 <= f < w@.len() && 0 <= t < w@.len() ==> (#[trigger] adj@[f]@[t] == must_precede(inp, texts(w@)[f], texts(w@)[t])),
        forall|k: int| 0 <= k < w@.len() ==> #[trigger] cnt@[k] == asset_count(inp.mods, texts(w@)[k]),
    ensures
        r@ == reason_for(inp, texts(w@), s as int),
{
    let ghost wv = texts(w@);
    let b = blame_exec(adj, cnt, s);
    match b {
        Some(f) => {
            proof {
                assert(is_blame(inp, wv, s as int, f as int)) by {
                    assert forall|g: int| 0 <= g < wv.len() && must_precede(inp, #[trigger] wv[g], wv[s as int]) implies
                        asset_count(inp.mods, wv[g]) < asset_count(inp.mods, wv[f as int])
                        || (asset_count(inp.mods, wv[g]) == asset_count(inp.mods, wv[f as int]) && f <= g) by {
                        assert(adj@[g]@[s as int] == must_precede(inp, wv[g], wv[s as int]));
                        assert(cnt@[g] == asset_count(inp.mods, wv[g]));
                    }
                    assert(adj@[f as int]@[s as int] == must_precede(inp, wv[f as int], wv[s as int]));
                }
                lemma_blame(inp, wv, s as int, f as int);
            }
            let mut chars: Vec<char> = Vec::new();
            push_str(&mut chars, "moved after ");
            push_str(&mut chars, w[f].as_str());
            push_str(&mut chars, ": its ");
            push_decimal(&mut chars, cnt[s] as u64);
            push_str(&mut chars, " assets overlap ");
            push_str(&mut chars, w[f].as_str());
            push_str(&mut chars, "'s ");
            push_decimal(&mut chars, cnt[f] as u64);
            push_str(&mut chars, " and the more specific mod wins");
            assert(chars@ =~= moved_reason(wv[f as int], asset_count(inp.mods, wv[s as int]), asset_count(inp.mods, wv[f as int])));
            string_from_chars(chars.as_slice())
        },
        None => {
            proof {
                assert forall|g: int| !is_blame(inp, wv, s as int, g) by {
                    if 0 <= g < wv.len() {
                        assert(adj@[g]@[s as int] == must_precede(inp, wv[g], wv[s as int]));
                    }
                }
            }
            repositioned_text()
        },
    }
}

fn repositioned_text() -> (r: String)
    ensures
        r@ == "repositioned to preserve relative order after conflict-driven moves"@,
{
    let text = "repositioned to preserve relative order after conflict-driven moves";
    let mut chars: Vec<char> = Vec::new();
    push_str(&mut chars, text);
    assert(chars@ =~= text@);
    string_from_chars(chars.as_slice())
}

/// The moves that take the starting order `w` to `proposed`.
fn move_list(proposed: &Vec<String>, w: &Vec<String>, adj: &Vec<Vec<bool>>, cnt: &Vec<usize>, Ghost(inp): Ghost<SortInput>) -> (r: Vec<Move>)
    requires
        texts(w@) == working_of(inp),
        adj@.len() == w@.len(),
        cnt@.len() == w@.len(),
        forall|f: int| 0 <= f < w@.len() ==> (#[trigger] adj@[f])@.len() == w@.len(),
        forall|f: int, t: int| 0 <= f < w@.len() && 0 <= t < w@.len() ==> (#[trigger] adj@[f]@[t] == must_precede(inp, texts(w@)[f], texts(w@)[t])),
        forall|k: int| 0 <= k < w@.len() ==> #[trigger] cnt@[k] == asset_count(inp.mods, texts(w@)[k]),
    ensures
        r@.map_values(|m: Move| move_view(m)) == moves_upto(inp, texts(w@), texts(proposed@), proposed@.len() as int),
{
    let ghost wv = texts(w@);
    let ghost prop = texts(proposed@);
    let mut moves: Vec<Move> = Vec::new();
    let mut q: usize = 0;
    while q < proposed.len()
        invariant
            wv == texts(w@),
            wv == working_of(inp),
            prop == texts(proposed@),
            adj@.len() == w@.len(),
            cnt@.len() == w@.len(),
            forall|f: int| 0 <= f < w@.len() ==> (#[trigger] adj@[f])@.len() == w@.len(),
            forall|f: int, t: int| 0 <= f < w@.len() && 0 <= t < w@.len() ==> (#[trigger] adj@[f]@[t] == must_precede(inp, texts(w@)[f], texts(w@)[t])),
            forall|k: int| 0 <= k < w@.len() ==> #[trigger] cnt@[k] == asset_count(inp.mods, texts(w@)[k]),
            q <= proposed@.len(),
            moves@.map_values(|m: Move| move_view(m)) == moves_upto(inp, wv, prop, q as int),
        decreases proposed@.len() - q,
    {
        let name = &proposed[q];
        let ghost before = moves@;
        let idx = first_index(w, name);
        match idx {
            Some(s) => {
                if s != q {
                    let reason = reason_text(w, adj, cnt, s, Ghost(inp));
                    moves.push(Move { name: name.clone(), reason });
                }
            },
            None => {
                let reason = repositioned_text();
                moves.push(Move { name: name.clone(), reason });
            },
        }
        proof {
            assert(moves@.map_values(|m: Move| move_view(m)) =~= moves_upto(inp, wv, prop, q + 1));
        }
        q = q + 1;
    }
    moves
}

/// Proposes a load order for the enabled, listable mods.
///
/// The mods start in their current order (names the current order does not
/// hold follow by name). Among unpinned mods that share an asset, the one
/// with more assets loads first, so the more specific mod wins; everything
/// else keeps its starting order as far as that allows. Pinned mods form a
/// block at the top or the bottom, in their starting order. Each mod whose
/// position changed is reported with the reason.
pub fn propose(mods: &[ModFile], current: &[String], pins: &Pins) -> (r: SortResult)
    ensures
        texts(r.proposed@) == proposed_order(sort_input(mods@, current@, *pins)),
        r.moves@.map_values(|m: Move| move_view(m)) == moves_of(sort_input(mods@, current@, *pins)),
{
    let ghost inp = sort_input(mods@, current@, *pins);
    let w = working_names(mods, current);
    let ghost wv = texts(w@);
    assert(wv == working_of(inp));
    let n = w.len();
    let (pin, free, midx, cnt) = position_facts(mods, &w, pins, Ghost(inp));
    let adj = precedence(mods, &w, &pin, &midx, &cnt, Ghost(inp));
    let order = greedy_exec(&adj, &free);
    proof {
        assert forall|a: int, b: int| 0 <= a < n && 0 <= b < n implies #[trigger] matrix_rel(adj@)(a, b) == precede_rel(inp)(a, b) by {
            assert(adj@[a]@[b] == must_precede(inp, wv[a], wv[b]));
        }
        assert forall|k: int| 0 <= k < n implies #[trigger] flag_set(free@)(k) == unpinned_at(inp)(k) by {
            assert(free@[k] == !pinned(inp, wv[k]));
        }
        lemma_greedy_congruent(matrix_rel(adj@), flag_set(free@), precede_rel(inp), unpinned_at(inp), n as int, n as nat);
    }
    let ghost gv = order@.map_values(|k: usize| k as int);
    let mut proposed = top_block(&w, pins, Ghost(inp));
    let ghost top_view = texts(proposed@);
    let mut k: usize = 0;
    assert(gv.take(0).map_values(name_at(wv)) =~= Seq::<Seq<char>>::empty());
    while k < order.len()
        invariant
            n == w@.len(),
            wv == texts(w@),
            gv == order@.map_values(|k: usize| k as int),
            forall|q: int| 0 <= q < order@.len() ==> #[trigger] order@[q] < n,
            k <= order@.len(),
            texts(proposed@) == top_view + gv.take(k as int).map_values(name_at(wv)),
        decreases order@.len() - k,
    {
        let ghost before = proposed@;
        let x = order[k];
        proposed.push(w[x].clone());
        proof {
            assert(gv.take(k + 1).map_values(name_at(wv)) =~= gv.take(k as int).map_values(name_at(wv)).push(wv[x as int]));
            assert(texts(proposed@) =~= texts(before).push(wv[x as int]));
        }
        k = k + 1;
    }
    assert(gv.take(k as int) =~= gv);
    let bottom = bottom_block(&w, pins, Ghost(inp));
    let mut j: usize = 0;
    let ghost upper = texts(proposed@);
    while j < bottom.len()
        invariant
            j <= bottom@.len(),
            texts(proposed@) == upper + texts(bottom@).take(j as int),
        decreases bottom@.len() - j,
    {
        let ghost before = proposed@;
        let c = bottom[j].clone();
        proposed.push(c);
        assert(texts(proposed@) =~= texts(before).push(c@));
        assert(texts(proposed@) =~= upper + texts(bottom@).take(j + 1));
        j = j + 1;
    }
    assert(texts(bottom@).take(j as int) =~= texts(bottom@));
    assert(texts(proposed@) == proposed_order(inp));
    let moves = move_list(&proposed, &w, &adj, &cnt, Ghost(inp));
    SortResult { proposed, moves }
}

} // verus!
