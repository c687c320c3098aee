//! What every proposed load order satisfies: each mod in use appears
//! once, pins hold their blocks, and broad packs load before the more
//! specific mods they overlap.

use vstd::prelude::*;
use vstd::set_lib::{lemma_len_subset, set_int_range, lemma_int_range};
use crate::model::{ModFile, sorted_position_ok, lemma_sorted_insert, text_set};
use crate::sort::{SortInput, in_use, kept_current, extra_names, sorted_listing, working_order, lemma_kept_subset, lemma_kept_unique,
    greedy, ready_in, first_ready_in, lemma_first_ready_exists, keep_if, proposed_order, middle_order, working_of,
    precede_rel, unpinned_at, name_at, top_pred, bottom_pred, pinned, must_precede, asset_count, mod_for};
use crate::text::{text_lt, strictly_sorted, lemma_text_lt_transitive, lemma_text_lt_irreflexive};

verus! {

/// No text occurs twice.
pub open spec fn distinct(s: Seq<Seq<char>>) -> bool {
    forall|i: int, j: int| 0 <= i < j < s.len() ==> s[i] != s[j]
}

proof fn lemma_position_exists(s: Seq<Seq<char>>, x: Seq<char>) -> (pos: int)
    requires
        strictly_sorted(s),
    ensures
        sorted_position_ok(s, x, pos),
    decreases s.len(),
{
    if s.len() == 0 {
        0
    } else {
        let d = s.drop_last();
        assert(strictly_sorted(d)) by {
            assert forall|i: int, j: int| 0 <= i < j < d.len() implies text_lt(#[trigger] d[i], #[trigger] d[j]) by {
                assert(d[i] == s[i] && d[j] == s[j]);
            }
        }
        let p = lemma_position_exists(d, x);
        if text_lt(s.last(), x) {
            assert forall|k: int| 0 <= k < s.len() implies text_lt(#[trigger] s[k], x) by {
                if k < s.len() - 1 {
                    lemma_text_lt_transitive(s[k], s[s.len() - 1], x);
                }
            }
            s.len() as int
        } else {
            assert forall|k: int| 0 <= k < p implies text_lt(#[trigger] s[k], x) by {
                assert(d[k] == s[k]);
            }
            assert forall|k: int| p <= k < s.len() implies !text_lt(#[trigger] s[k], x) by {
                if k < s.len() - 1 {
                    assert(d[k] == s[k]);
                }
            }
            p
        }
    }
}

proof fn lemma_sorted_witness(s: Set<Seq<char>>) -> (e: Seq<Seq<char>>)
    requires
        s.finite(),
    ensures
        strictly_sorted(e),
        e.to_set() == s,
    decreases s.len(),
{
    if !(exists|a: Seq<char>| s.contains(a)) {
        assert(s =~= Set::<Seq<char>>::empty());
        let e = Seq::<Seq<char>>::empty();
        assert(e.to_set() =~= s);
        e
    } else {
        let x = s.choose();
        let t = s.remove(x);
        let e0 = lemma_sorted_witness(t);
        let pos = lemma_position_exists(e0, x);
        assert(!(pos < e0.len() && e0[pos] == x)) by {
            if pos < e0.len() && e0[pos] == x {
                assert(e0.to_set().contains(x));
            }
        }
        lemma_sorted_insert(e0, x, pos);
        let e = e0.insert(pos, x);
        assert(e.to_set() =~= s) by {
            assert(text_set(e) == text_set(e0).insert(x));
        }
        e
    }
}

/// A finite set of texts has its sorted listing.
pub proof fn lemma_sorted_listing(s: Set<Seq<char>>)
    requires
        s.finite(),
    ensures
        strictly_sorted(sorted_listing(s)),
        sorted_listing(s).to_set() == s,
{
    let e = lemma_sorted_witness(s);
    assert(strictly_sorted(e) && e.to_set() == s);
}

proof fn lemma_strictly_sorted_distinct(s: Seq<Seq<char>>)
    requires
        strictly_sorted(s),
    ensures
        distinct(s),
{
    assert forall|i: int, j: int| 0 <= i < j < s.len() implies s[i] != s[j] by {
        assert(text_lt(s[i], s[j]));
        if s[i] == s[j] {
            lemma_text_lt_irreflexive(s[i]);
        }
    }
}

/// The starting order lists every mod in use once.
pub proof fn lemma_working(mods: Seq<ModFile>, cur: Seq<Seq<char>>)
    ensures
        distinct(working_order(mods, cur)),
        forall|n: Seq<char>| #[trigger] working_order(mods, cur).contains(n) <==> in_use(mods, n),
{
    let k = kept_current(mods, cur);
    let e = extra_names(mods, cur);
    let all = mods.map_values(|m: ModFile| m.name@).to_set();
    assert(e.subset_of(all)) by {
        assert forall|n: Seq<char>| e.contains(n) implies all.contains(n) by {
            let q = choose|q: int| 0 <= q < mods.len() && crate::conflicts::usable(mods[q]) && #[trigger] mods[q].name@ == n;
            assert(mods.map_values(|m: ModFile| m.name@)[q] == n);
        }
    }
    lemma_len_subset(e, all);
    lemma_sorted_listing(e);
    let x = sorted_listing(e);
    lemma_strictly_sorted_distinct(x);
    lemma_kept_subset(mods, cur);
    lemma_kept_unique(mods, cur);
    let w = working_order(mods, cur);
    assert(w == k + x);
    assert forall|n: Seq<char>| w.contains(n) <==> in_use(mods, n) by {
        if w.contains(n) {
            let q = choose|q: int| 0 <= q < w.len() && w[q] == n;
            if q < k.len() {
                assert(k[q] == n);
                assert(k.contains(n));
            } else {
                assert(x[q - k.len()] == n);
                assert(x.to_set().contains(n));
            }
        }
        if in_use(mods, n) {
            if cur.contains(n) {
                assert(k.contains(n));
                let q = choose|q: int| 0 <= q < k.len() && k[q] == n;
                assert(w[q] == n);
            } else {
                assert(e.contains(n));
                assert(x.to_set().contains(n));
                let q = choose|q: int| 0 <= q < x.len() && x[q] == n;
                assert(w[q + k.len()] == n);
            }
        }
    }
    assert forall|i: int, j: int| 0 <= i < j < w.len() implies w[i] != w[j] by {
        if j < k.len() {
            assert(w[i] == k[i] && w[j] == k[j]);
        } else if i >= k.len() {
            assert(w[i] == x[i - k.len()] && w[j] == x[j - k.len()]);
        } else {
            assert(w[i] == k[i]);
            assert(k.contains(k[i]));
            assert(w[j] == x[j - k.len()]);
            assert(x.to_set().contains(x[j - k.len()]));
        }
    }
}

/// What `greedy` places: different nodes, in range, that take part; at
/// most one a round, each round extending the last.
pub proof fn lemma_greedy_basic(prec: spec_fn(int, int) -> bool, free: spec_fn(int) -> bool, n: int, k: nat)
    ensures
        greedy(prec, free, n, k).len() <= k,
        forall|a: int| 0 <= a < greedy(prec, free, n, k).len() ==> 0 <= #[trigger] greedy(prec, free, n, k)[a] < n && free(greedy(prec, free, n, k)[a]),
        greedy(prec, free, n, k).no_duplicates(),
        forall|j: nat| j <= k ==> #[trigger] greedy(prec, free, n, j).len() <= greedy(prec, free, n, k).len()
            && greedy(prec, free, n, k).take(greedy(prec, free, n, j).len() as int) == greedy(prec, free, n, j),
    decreases k,
{
    let g = greedy(prec, free, n, k);
    if k == 0 {
        assert forall|j: nat| j <= k implies #[trigger] greedy(prec, free, n, j).len() <= g.len() && g.take(greedy(prec, free, n, j).len() as int) == greedy(prec, free, n, j) by {
            assert(g.take(0) =~= g);
        }
    } else {
        lemma_greedy_basic(prec, free, n, (k - 1) as nat);
        let p = greedy(prec, free, n, (k - 1) as nat);
        if exists|i: int| ready_in(prec, free, n, p, i) {
            let w = choose|i: int| ready_in(prec, free, n, p, i);
            lemma_first_ready_exists(prec, free, n, p, w);
            let c = first_ready_in(prec, free, n, p);
            assert(g == p.push(c));
            assert forall|a: int| 0 <= a < g.len() implies 0 <= #[trigger] g[a] < n && free(g[a]) by {
                if a < p.len() {
                    assert(g[a] == p[a]);
                }
            }
            assert forall|a: int, b: int| 0 <= a < b < g.len() implies g[a] != g[b] by {
                if b == p.len() {
                    assert(g[a] == p[a]);
                    assert(p.contains(p[a]));
                } else {
                    assert(g[a] == p[a] && g[b] == p[b]);
                }
            }
            assert forall|j: nat| j <= k implies #[trigger] greedy(prec, free, n, j).len() <= g.len() && g.take(greedy(prec, free, n, j).len() as int) == greedy(prec, free, n, j) by {
                if j < k {
                    assert(p.take(greedy(prec, free, n, j).len() as int) == greedy(prec, free, n, j));
                    assert(g.take(greedy(prec, free, n, j).len() as int) =~= p.take(greedy(prec, free, n, j).len() as int));
                } else {
                    assert(g.take(g.len() as int) =~= g);
                }
            }
        } else {
            assert(g == p);
            assert forall|j: nat| j <= k implies #[trigger] greedy(prec, free, n, j).len() <= g.len() && g.take(greedy(prec, free, n, j).len() as int) == greedy(prec, free, n, j) by {
                if j == k {
                    assert(g.take(g.len() as int) =~= g);
                }
            }
        }
    }
}

/// A node placed by `greedy` comes after every node that must precede it.
pub proof fn lemma_greedy_topo(prec: spec_fn(int, int) -> bool, free: spec_fn(int) -> bool, n: int, k: nat, a: int, b: int)
    requires
        0 <= a < n,
        prec(a, b),
        greedy(prec, free, n, k).contains(b),
    ensures
        exists|ia: int, ib: int| 0 <= ia < ib < greedy(prec, free, n, k).len()
            && greedy(prec, free, n, k)[ia] == a && greedy(prec, free, n, k)[ib] == b,
    decreases k,
{
    let g = greedy(prec, free, n, k);
    if k > 0 {
        let p = greedy(prec, free, n, (k - 1) as nat);
        if exists|i: int| ready_in(prec, free, n, p, i) {
            let w = choose|i: int| ready_in(prec, free, n, p, i);
            lemma_first_ready_exists(prec, free, n, p, w);
            let c = first_ready_in(prec, free, n, p);
            assert(g == p.push(c));
            if p.contains(b) {
                lemma_greedy_topo(prec, free, n, (k - 1) as nat, a, b);
                let (ia, ib) = choose|ia: int, ib: int| 0 <= ia < ib < p.len() && p[ia] == a && p[ib] == b;
                assert(g[ia] == a && g[ib] == b);
            } else {
                let q = choose|q: int| 0 <= q < g.len() && g[q] == b;
                assert(q == p.len());
                assert(b == c);
                assert(p.contains(a));
                let ia = choose|ia: int| 0 <= ia < p.len() && p[ia] == a;
                assert(g[ia] == a);
                assert(g[p.len() as int] == b);
            }
        } else {
            assert(g == p);
            lemma_greedy_topo(prec, free, n, (k - 1) as nat, a, b);
        }
    }
}

proof fn lemma_max_rank(p: spec_fn(int) -> bool, rank: spec_fn(int) -> int, n: int, i: int) -> (m: int)
    requires
        0 <= i < n,
        p(i),
    ensures
        0 <= m < n,
        p(m),
        forall|j: int| 0 <= j < n && #[trigger] p(j) ==> rank(j) <= rank(m),
    decreases n,
{
    if exists|j: int| 0 <= j < n - 1 && #[trigger] p(j) {
        let j0 = choose|j: int| 0 <= j < n - 1 && #[trigger] p(j);
        let m0 = lemma_max_rank(p, rank, n - 1, j0);
        if p(n - 1) && rank(n - 1) > rank(m0) {
            n - 1
        } else {
            m0
        }
    } else {
        assert(i == n - 1);
        n - 1
    }
}

/// When every node that must precede another takes part and ranks above
/// it, `n` rounds of `greedy` place every node that takes part.
pub proof fn lemma_greedy_complete(prec: spec_fn(int, int) -> bool, free: spec_fn(int) -> bool, rank: spec_fn(int) -> int, n: int, i: int)
    requires
        0 <= i < n,
        free(i),
        forall|f: int, t: int| 0 <= f < n && 0 <= t < n && #[trigger] prec(f, t) ==> free(f) && rank(f) > rank(t),
    ensures
        greedy(prec, free, n, n as nat).contains(i),
{
    let g = greedy(prec, free, n, n as nat);
    lemma_greedy_basic(prec, free, n, n as nat);
    if !g.contains(i) {
        assert forall|k: nat| k <= n implies #[trigger] greedy(prec, free, n, k).len() == k by {
            lemma_greedy_grows(prec, free, rank, n, i, k);
        }
        assert(g.len() == n);
        let r = set_int_range(0, n).remove(i);
        lemma_int_range(0, n);
        assert(g.to_set().subset_of(r)) by {
            assert forall|x: int| g.to_set().contains(x) implies r.contains(x) by {
                let q = choose|q: int| 0 <= q < g.len() && g[q] == x;
                assert(0 <= g[q] < n);
            }
        }
        lemma_len_subset(g.to_set(), r);
        g.unique_seq_to_set();
    }
}

proof fn lemma_greedy_grows(prec: spec_fn(int, int) -> bool, free: spec_fn(int) -> bool, rank: spec_fn(int) -> int, n: int, i: int, k: nat)
    requires
        0 <= i < n,
        free(i),
        forall|f: int, t: int| 0 <= f < n && 0 <= t < n && #[trigger] prec(f, t) ==> free(f) && rank(f) > rank(t),
        !greedy(prec, free, n, n as nat).contains(i),
        k <= n,
    ensures
        greedy(prec, free, n, k).len() == k,
    decreases k,
{
    if k > 0 {
        lemma_greedy_grows(prec, free, rank, n, i, (k - 1) as nat);
        let p = greedy(prec, free, n, (k - 1) as nat);
        lemma_greedy_basic(prec, free, n, n as nat);
        let g = greedy(prec, free, n, n as nat);
        assert(g.take(p.len() as int) == p);
        assert(!p.contains(i)) by {
            if p.contains(i) {
                let q = choose|q: int| 0 <= q < p.len() && p[q] == i;
                assert(g.take(p.len() as int)[q] == i);
                assert(g[q] == i);
            }
        }
        let pr = |j: int| 0 <= j < n && free(j) && !p.contains(j);
        let m = lemma_max_rank(pr, rank, n, i);
        assert(ready_in(prec, free, n, p, m)) by {
            assert forall|f: int| 0 <= f < n && !p.contains(f) implies !(#[trigger] prec(f, m)) by {
                if prec(f, m) {
                    assert(pr(f));
                }
            }
        }
    }
}

proof fn lemma_keep_if(s: Seq<Seq<char>>, pred: spec_fn(Seq<char>) -> bool)
    ensures
        forall|x: Seq<char>| keep_if(s, pred).contains(x) <==> (s.contains(x) && pred(x)),
        forall|a: int| 0 <= a < keep_if(s, pred).len() ==> pred(#[trigger] keep_if(s, pred)[a]),
        distinct(s) ==> distinct(keep_if(s, pred)),
    decreases s.len(),
{
    if s.len() > 0 {
        let d = s.drop_last();
        lemma_keep_if(d, pred);
        let p = keep_if(d, pred);
        let x = s.last();
        assert forall|y: Seq<char>| keep_if(s, pred).contains(y) <==> (s.contains(y) && pred(y)) by {
            if s.contains(y) {
                let q = choose|q: int| 0 <= q < s.len() && s[q] == y;
                if q < d.len() {
                    assert(d[q] == y);
                }
            }
            if d.contains(y) {
                let q = choose|q: int| 0 <= q < d.len() && d[q] == y;
                assert(s[q] == y);
            }
            assert(s[s.len() - 1] == x);
            if pred(x) {
                if p.push(x).contains(y) {
                    let q = choose|q: int| 0 <= q < p.push(x).len() && p.push(x)[q] == y;
                    if q < p.len() {
                        assert(p[q] == y);
                    }
                }
                if p.contains(y) {
                    let q = choose|q: int| 0 <= q < p.len() && p[q] == y;
                    assert(p.push(x)[q] == y);
                }
                if y == x {
                    assert(p.push(x)[p.len() as int] == y);
                }
            }
        }
        if pred(x) {
            assert forall|a: int| 0 <= a < p.push(x).len() implies pred(#[trigger] p.push(x)[a]) by {
                if a < p.len() {
                    assert(p.push(x)[a] == p[a]);
                }
            }
            if distinct(s) {
                assert(distinct(d)) by {
                    assert forall|i: int, j: int| 0 <= i < j < d.len() implies d[i] != d[j] by {
                        assert(d[i] == s[i] && d[j] == s[j]);
                    }
                }
                assert(!p.contains(x)) by {
                    if p.contains(x) {
                        assert(d.contains(x));
                        let q = choose|q: int| 0 <= q < d.len() && d[q] == x;
                        assert(s[q] == x && s[s.len() - 1] == x);
                    }
                }
                assert forall|i: int, j: int| 0 <= i < j < p.push(x).len() implies p.push(x)[i] != p.push(x)[j] by {
                    if j == p.len() {
                        assert(p.push(x)[i] == p[i]);
                        assert(p.contains(p[i]));
                    } else {
                        assert(p.push(x)[i] == p[i] && p.push(x)[j] == p[j]);
                    }
                }
            }
        } else {
            if distinct(s) {
                assert forall|i: int, j: int| 0 <= i < j < d.len() implies d[i] != d[j] by {
                    assert(d[i] == s[i] && d[j] == s[j]);
                }
            }
        }
    }
}

/// Between the pinned ends, the proposal holds every unpinned mod in use,
/// each once and nothing else, in an order where a mod that must precede
/// another (it overlaps the other and has more assets) does.
pub proof fn law_middle_is_unpinned_mods(inp: SortInput)
    ensures
        distinct(middle_order(inp)),
        forall|x: Seq<char>| #[trigger] middle_order(inp).contains(x) <==> (in_use(inp.mods, x) && !pinned(inp, x)),
        forall|a: Seq<char>, b: Seq<char>| in_use(inp.mods, a) && in_use(inp.mods, b) && #[trigger] must_precede(inp, a, b)
            ==> exists|x: int, y: int| 0 <= x < y < middle_order(inp).len() && middle_order(inp)[x] == a && middle_order(inp)[y] == b,
{
    let w = working_of(inp);
    let n = w.len() as int;
    let prec = precede_rel(inp);
    let free = unpinned_at(inp);
    let rank = |i: int| asset_count(inp.mods, w[i]) as int;
    let g = greedy(prec, free, n, n as nat);
    let m = middle_order(inp);
    lemma_working(inp.mods, inp.current);
    lemma_greedy_basic(prec, free, n, n as nat);
    assert(m == g.map_values(name_at(w)));
    assert forall|f: int, t: int| 0 <= f < n && 0 <= t < n && #[trigger] prec(f, t) implies free(f) && rank(f) > rank(t) by {}
    assert forall|i: int, j: int| 0 <= i < j < m.len() implies m[i] != m[j] by {
        assert(m[i] == w[g[i]] && m[j] == w[g[j]]);
        assert(g[i] != g[j]);
    }
    assert forall|x: Seq<char>| m.contains(x) <==> (in_use(inp.mods, x) && !pinned(inp, x)) by {
        if m.contains(x) {
            let q = choose|q: int| 0 <= q < m.len() && m[q] == x;
            assert(m[q] == w[g[q]]);
            assert(free(g[q]));
            assert(w.contains(w[g[q]]));
        }
        if in_use(inp.mods, x) && !pinned(inp, x) {
            assert(w.contains(x));
            let i = choose|i: int| 0 <= i < w.len() && w[i] == x;
            lemma_greedy_complete(prec, free, rank, n, i);
            let q = choose|q: int| 0 <= q < g.len() && g[q] == i;
            assert(m[q] == x);
        }
    }
    assert forall|a: Seq<char>, b: Seq<char>| in_use(inp.mods, a) && in_use(inp.mods, b) && #[trigger] must_precede(inp, a, b)
        implies exists|x: int, y: int| 0 <= x < y < m.len() && m[x] == a && m[y] == b by {
        assert(w.contains(a) && w.contains(b));
        let ia = choose|i: int| 0 <= i < w.len() && w[i] == a;
        let ib = choose|i: int| 0 <= i < w.len() && w[i] == b;
        assert(prec(ia, ib));
        lemma_greedy_complete(prec, free, rank, n, ib);
        lemma_greedy_topo(prec, free, n, n as nat, ia, ib);
        let (x, y) = choose|x: int, y: int| 0 <= x < y < g.len() && g[x] == ia && g[y] == ib;
        assert(m[x] == a && m[y] == b);
    }
}

/// Every mod in use appears in the proposed order exactly once, and
/// nothing else does: a pin naming no mod in use is ignored.
pub proof fn law_each_mod_once(inp: SortInput)
    ensures
        distinct(proposed_order(inp)),
        forall|x: Seq<char>| proposed_order(inp).contains(x) <==> in_use(inp.mods, x),
{
    let w = working_of(inp);
    let t = keep_if(w, top_pred(inp));
    let m = middle_order(inp);
    let b = keep_if(w, bottom_pred(inp));
    let p = proposed_order(inp);
    lemma_working(inp.mods, inp.current);
    lemma_keep_if(w, top_pred(inp));
    lemma_keep_if(w, bottom_pred(inp));
    law_middle_is_unpinned_mods(inp);
    assert(p == t + m + b);
    assert forall|x: Seq<char>| p.contains(x) <==> in_use(inp.mods, x) by {
        if p.contains(x) {
            let q = choose|q: int| 0 <= q < p.len() && p[q] == x;
            if q < t.len() {
                assert(t[q] == x);
                assert(t.contains(x));
                assert(w.contains(x));
                assert(in_use(inp.mods, x));
            } else if q < t.len() + m.len() {
                assert(m[q - t.len()] == x);
                assert(m.contains(x));
                assert(in_use(inp.mods, x));
            } else {
                assert(b[q - t.len() - m.len()] == x);
                assert(b.contains(x));
                assert(w.contains(x));
                assert(in_use(inp.mods, x));
            }
        }
        if in_use(inp.mods, x) {
            assert(w.contains(x));
            if top_pred(inp)(x) {
                let q = choose|q: int| 0 <= q < t.len() && t[q] == x;
                assert(p[q] == x);
            } else if bottom_pred(inp)(x) {
                let q = choose|q: int| 0 <= q < b.len() && b[q] == x;
                assert(p[q + t.len() + m.len()] == x);
            } else {
                assert(!pinned(inp, x));
                assert(m.contains(x));
                let q = choose|q: int| 0 <= q < m.len() && m[q] == x;
                assert(p[q + t.len()] == x);
            }
        }
    }
    assert forall|i: int, j: int| 0 <= i < j < p.len() implies p[i] != p[j] by {
        if j < t.len() {
            assert(p[i] == t[i] && p[j] == t[j]);
        } else if i >= t.len() + m.len() {
            assert(p[i] == b[i - t.len() - m.len()] && p[j] == b[j - t.len() - m.len()]);
        } else if i >= t.len() && j < t.len() + m.len() {
            assert(p[i] == m[i - t.len()] && p[j] == m[j - t.len()]);
        } else {
            if i < t.len() {
                assert(p[i] == t[i]);
                assert(top_pred(inp)(t[i]));
                assert(inp.top.contains(p[i]));
            } else {
                assert(p[i] == m[i - t.len()]);
                assert(m.contains(m[i - t.len()]));
                assert(!pinned(inp, p[i]));
            }
            if j < t.len() + m.len() {
                assert(p[j] == m[j - t.len()]);
                assert(m.contains(m[j - t.len()]));
                assert(!pinned(inp, p[j]));
            } else {
                assert(p[j] == b[j - t.len() - m.len()]);
                assert(bottom_pred(inp)(b[j - t.len() - m.len()]));
                assert(inp.bottom.contains(p[j]) && !inp.top.contains(p[j]));
            }
        }
    }
}

/// Pins hold their blocks: no mod comes before a top-pinned mod unless it
/// is top-pinned too, and no mod comes after a bottom-pinned one unless it
/// is bottom-pinned too (a mod pinned both ways counts as top-pinned).
pub proof fn law_pins_hold(inp: SortInput)
    ensures
        forall|i: int, j: int| 0 <= i < j < proposed_order(inp).len() && inp.top.contains(#[trigger] proposed_order(inp)[j])
            ==> inp.top.contains(#[trigger] proposed_order(inp)[i]),
        forall|i: int, j: int| 0 <= i < j < proposed_order(inp).len()
            && inp.bottom.contains(#[trigger] proposed_order(inp)[i]) && !inp.top.contains(proposed_order(inp)[i])
            ==> inp.bottom.contains(#[trigger] proposed_order(inp)[j]) && !inp.top.contains(proposed_order(inp)[j]),
{
    let w = working_of(inp);
    let t = keep_if(w, top_pred(inp));
    let m = middle_order(inp);
    let b = keep_if(w, bottom_pred(inp));
    let p = proposed_order(inp);
    lemma_keep_if(w, top_pred(inp));
    lemma_keep_if(w, bottom_pred(inp));
    law_middle_is_unpinned_mods(inp);
    assert(p == t + m + b);
    assert forall|k: int| 0 <= k < p.len() implies
        (k < t.len() ==> inp.top.contains(#[trigger] p[k]))
        && (t.len() <= k < t.len() + m.len() ==> !pinned(inp, p[k]))
        && (t.len() + m.len() <= k ==> inp.bottom.contains(p[k]) && !inp.top.contains(p[k])) by {
        if k < t.len() {
            assert(p[k] == t[k]);
            assert(top_pred(inp)(t[k]));
        } else if k < t.len() + m.len() {
            assert(p[k] == m[k - t.len()]);
            assert(m.contains(m[k - t.len()]));
        } else {
            assert(p[k] == b[k - t.len() - m.len()]);
            assert(bottom_pred(inp)(b[k - t.len() - m.len()]));
        }
    }
}

/// Broad packs load first: when two unpinned mods in use share an asset,
/// the one with more assets comes before the more specific one, so the
/// more specific mod wins.
pub proof fn law_broad_before_specific(inp: SortInput, a: Seq<char>, b: Seq<char>)
    requires
        in_use(inp.mods, a),
        in_use(inp.mods, b),
        must_precede(inp, a, b),
    ensures
        exists|i: int, j: int| 0 <= i < j < proposed_order(inp).len() && proposed_order(inp)[i] == a && proposed_order(inp)[j] == b,
{
    let w = working_of(inp);
    let t = keep_if(w, top_pred(inp));
    let m = middle_order(inp);
    let bb = keep_if(w, bottom_pred(inp));
    let p = proposed_order(inp);
    law_middle_is_unpinned_mods(inp);
    assert(p == t + m + bb);
    let (x, y) = choose|x: int, y: int| 0 <= x < y < m.len() && m[x] == a && m[y] == b;
    assert(p[x + t.len()] == a && p[y + t.len()] == b);
}

/// Two unpinned mods in use that provide a common asset, the first with
/// more assets than the second: the broader one is proposed before the more
/// specific one, whichever asset they share and wherever it sorts, so the
/// more specific mod wins that asset.
pub proof fn law_shared_asset_broad_first(inp: SortInput, a: Seq<char>, b: Seq<char>, x: Seq<char>)
    requires
        in_use(inp.mods, a),
        in_use(inp.mods, b),
        !inp.top.contains(a) && !inp.bottom.contains(a),
        !inp.top.contains(b) && !inp.bottom.contains(b),
        inp.mods[mod_for(inp.mods, a)].assets@.contains(x),
        inp.mods[mod_for(inp.mods, b)].assets@.contains(x),
        inp.mods[mod_for(inp.mods, a)].assets@.len() > inp.mods[mod_for(inp.mods, b)].assets@.len(),
    ensures
        exists|i: int, j: int| 0 <= i < j < proposed_order(inp).len() && proposed_order(inp)[i] == a && proposed_order(inp)[j] == b,
{
    assert(must_precede(inp, a, b));
    law_broad_before_specific(inp, a, b);
}

proof fn lemma_keep_if_order(s: Seq<Seq<char>>, pred: spec_fn(Seq<char>) -> bool, x: int, y: int)
    requires
        distinct(s),
        0 <= x < y < keep_if(s, pred).len(),
    ensures
        exists|ix: int, iy: int| 0 <= ix < iy < s.len() && s[ix] == keep_if(s, pred)[x] && s[iy] == keep_if(s, pred)[y],
    decreases s.len(),
{
    let d = s.drop_last();
    let k = keep_if(s, pred);
    let p = keep_if(d, pred);
    assert(distinct(d)) by {
        assert forall|i: int, j: int| 0 <= i < j < d.len() implies d[i] != d[j] by {
            assert(d[i] == s[i] && d[j] == s[j]);
        }
    }
    lemma_keep_if(d, pred);
    if pred(s.last()) && y == p.len() {
        assert(k == p.push(s.last()));
        assert(k[x] == p[x]);
        assert(d.contains(p[x]));
        let ix = choose|ix: int| 0 <= ix < d.len() && d[ix] == p[x];
        assert(s[ix] == k[x]);
        assert(s[s.len() - 1] == k[y]);
    } else {
        if pred(s.last()) {
            assert(k == p.push(s.last()));
            assert(k[x] == p[x] && k[y] == p[y]);
        } else {
            assert(k == p);
        }
        lemma_keep_if_order(d, pred, x, y);
        let (ix, iy) = choose|ix: int, iy: int| 0 <= ix < iy < d.len() && d[ix] == p[x] && d[iy] == p[y];
        assert(s[ix] == d[ix] && s[iy] == d[iy]);
    }
}

/// Pinned mods keep their current relative order: two mods of the same
/// pin block (both pinned to the top, or both only to the bottom) come in
/// the order in which the starting order lists them.
pub proof fn law_pins_keep_current_order(inp: SortInput, i: int, j: int)
    requires
        0 <= i < j < proposed_order(inp).len(),
        (inp.top.contains(proposed_order(inp)[i]) && inp.top.contains(proposed_order(inp)[j]))
            || (inp.bottom.contains(proposed_order(inp)[i]) && !inp.top.contains(proposed_order(inp)[i])
                && inp.bottom.contains(proposed_order(inp)[j]) && !inp.top.contains(proposed_order(inp)[j])),
    ensures
        exists|wi: int, wj: int| 0 <= wi < wj < working_of(inp).len()
            && working_of(inp)[wi] == proposed_order(inp)[i] && working_of(inp)[wj] == proposed_order(inp)[j],
{
    let w = working_of(inp);
    let t = keep_if(w, top_pred(inp));
    let m = middle_order(inp);
    let b = keep_if(w, bottom_pred(inp));
    let p = proposed_order(inp);
    lemma_working(inp.mods, inp.current);
    lemma_keep_if(w, top_pred(inp));
    lemma_keep_if(w, bottom_pred(inp));
    law_middle_is_unpinned_mods(inp);
    law_pins_hold(inp);
    assert(p == t + m + b);
    if inp.top.contains(p[j]) {
        assert(j < t.len()) by {
            if j >= t.len() + m.len() {
                assert(p[j] == b[j - t.len() - m.len()]);
                assert(bottom_pred(inp)(b[j - t.len() - m.len()]));
            } else if j >= t.len() {
                assert(p[j] == m[j - t.len()]);
                assert(m.contains(m[j - t.len()]));
            }
        }
        assert(p[i] == t[i] && p[j] == t[j]);
        lemma_keep_if_order(w, top_pred(inp), i, j);
    } else {
        assert(!inp.top.contains(p[i]));
        assert(i >= t.len() + m.len()) by {
            if i < t.len() {
                assert(p[i] == t[i]);
                assert(top_pred(inp)(t[i]));
            } else if i < t.len() + m.len() {
                assert(p[i] == m[i - t.len()]);
                assert(m.contains(m[i - t.len()]));
            }
        }
        let bi = i - t.len() - m.len();
        let bj = j - t.len() - m.len();
        assert(p[i] == b[bi] && p[j] == b[bj]);
        lemma_keep_if_order(w, bottom_pred(inp), bi, bj);
    }
}

/// The indices below `m` that take part, in increasing order.
pub open spec fn free_upto(free: spec_fn(int) -> bool, m: int) -> Seq<int>
    decreases m,
{
    if m <= 0 {
        Seq::empty()
    } else if free(m - 1) {
        free_upto(free, m - 1).push(m - 1)
    } else {
        free_upto(free, m - 1)
    }
}

proof fn lemma_free_upto(free: spec_fn(int) -> bool, m: int)
    requires
        m >= 0,
    ensures
        forall|a: int| 0 <= a < free_upto(free, m).len() ==> 0 <= #[trigger] free_upto(free, m)[a] < m && free(free_upto(free, m)[a]),
        forall|a: int, b: int| 0 <= a < b < free_upto(free, m).len() ==> free_upto(free, m)[a] < free_upto(free, m)[b],
        forall|i: int| 0 <= i < m && free(i) ==> #[trigger] free_upto(free, m).contains(i),
        free_upto(free, m).len() <= m,
    decreases m,
{
    if m > 0 {
        lemma_free_upto(free, m - 1);
        let p = free_upto(free, m - 1);
        if free(m - 1) {
            let f = p.push(m - 1);
            assert forall|a: int| 0 <= a < f.len() implies 0 <= #[trigger] f[a] < m && free(f[a]) by {
                if a < p.len() {
                    assert(f[a] == p[a]);
                }
            }
            assert forall|a: int, b: int| 0 <= a < b < f.len() implies f[a] < f[b] by {
                assert(f[a] == p[a]);
            }
            assert forall|i: int| 0 <= i < m && free(i) implies f.contains(i) by {
                if i < m - 1 {
                    assert(p.contains(i));
                    let q = choose|q: int| 0 <= q < p.len() && p[q] == i;
                    assert(f[q] == i);
                } else {
                    assert(f[p.len() as int] == i);
                }
            }
        }
    }
}

proof fn lemma_greedy_unconstrained(prec: spec_fn(int, int) -> bool, free: spec_fn(int) -> bool, n: int, k: nat)
    requires
        n >= 0,
        forall|f: int, t: int| 0 <= f < n && 0 <= t < n ==> !#[trigger] prec(f, t),
    ensures
        greedy(prec, free, n, k) == free_upto(free, n).take(
            if k < free_upto(free, n).len() { k as int } else { free_upto(free, n).len() as int }),
    decreases k,
{
    let fs = free_upto(free, n);
    lemma_free_upto(free, n);
    if k == 0 {
        assert(fs.take(0) =~= Seq::<int>::empty());
    } else {
        lemma_greedy_unconstrained(prec, free, n, (k - 1) as nat);
        let p = greedy(prec, free, n, (k - 1) as nat);
        let j = if k - 1 < fs.len() { k - 1 } else { fs.len() as int };
        assert(p == fs.take(j));
        if j < fs.len() {
            let c = fs[j];
            assert(ready_in(prec, free, n, p, c)) by {
                if p.contains(c) {
                    let q = choose|q: int| 0 <= q < p.len() && p[q] == c;
                    assert(fs[q] == c);
                }
            }
            assert forall|i: int| 0 <= i < c implies !ready_in(prec, free, n, p, i) by {
                if ready_in(prec, free, n, p, i) {
                    assert(fs.contains(i));
                    let q = choose|q: int| 0 <= q < fs.len() && fs[q] == i;
                    if q >= j {
                        if q > j {
                            assert(fs[j] < fs[q]);
                        }
                    } else {
                        assert(p[q] == i);
                    }
                }
            }
            lemma_first_ready_exists(prec, free, n, p, c);
            let r = first_ready_in(prec, free, n, p);
            if r != c {
                if r < c {
                    assert(!ready_in(prec, free, n, p, r));
                } else {
                    assert(!ready_in(prec, free, n, p, c));
                }
            }
            assert(greedy(prec, free, n, k) == p.push(c));
            assert(fs.take(j + 1) =~= p.push(c));
        } else {
            assert forall|i: int| !ready_in(prec, free, n, p, i) by {
                if ready_in(prec, free, n, p, i) {
                    assert(fs.contains(i));
                    let q = choose|q: int| 0 <= q < fs.len() && fs[q] == i;
                    assert(p[q] == i);
                }
            }
        }
    }
}

proof fn lemma_keep_if_indices(w: Seq<Seq<char>>, pred: spec_fn(Seq<char>) -> bool, m: int)
    requires
        0 <= m <= w.len(),
    ensures
        keep_if(w.take(m), pred) == free_upto(|i: int| pred(w[i]), m).map_values(name_at(w)),
    decreases m,
{
    let free = |i: int| pred(w[i]);
    if m == 0 {
        assert(keep_if(w.take(0), pred) =~= Seq::<Seq<char>>::empty());
        assert(free_upto(free, 0).map_values(name_at(w)) =~= Seq::<Seq<char>>::empty());
    } else {
        lemma_keep_if_indices(w, pred, m - 1);
        assert(w.take(m).drop_last() =~= w.take(m - 1));
        assert(w.take(m).last() == w[m - 1]);
        if pred(w[m - 1]) {
            assert(free_upto(free, m).map_values(name_at(w)) =~= free_upto(free, m - 1).map_values(name_at(w)).push(w[m - 1]));
        }
    }
}

/// With no overlapping unpinned mods of different sizes, nothing moves
/// but the pins: the unpinned mods keep the starting order.
pub proof fn law_unconstrained_keeps_order(inp: SortInput)
    requires
        forall|a: Seq<char>, b: Seq<char>| in_use(inp.mods, a) && in_use(inp.mods, b) ==> !#[trigger] must_precede(inp, a, b),
    ensures
        middle_order(inp) == keep_if(working_of(inp), |x: Seq<char>| !pinned(inp, x)),
{
    let w = working_of(inp);
    let n = w.len() as int;
    let prec = precede_rel(inp);
    let free = unpinned_at(inp);
    lemma_working(inp.mods, inp.current);
    assert forall|f: int, t: int| 0 <= f < n && 0 <= t < n implies !#[trigger] prec(f, t) by {
        assert(w.contains(w[f]) && w.contains(w[t]));
    }
    lemma_greedy_unconstrained(prec, free, n, n as nat);
    lemma_free_upto(free, n);
    let fs = free_upto(free, n);
    assert(fs.take(fs.len() as int) =~= fs);
    let pred = |x: Seq<char>| !pinned(inp, x);
    lemma_keep_if_indices(w, pred, n);
    assert(w.take(n) =~= w);
    assert(free_upto(|i: int| pred(w[i]), n) == fs) by {
        lemma_free_upto_same(|i: int| pred(w[i]), free, n);
    }
}

/// Mods that share no asset with a mod of another size are never
/// reordered: when every two mods in use that provide a common asset have
/// as many assets as each other, the unpinned mods keep the starting order.
pub proof fn law_disjoint_mods_keep_order(inp: SortInput)
    requires
        forall|a: Seq<char>, b: Seq<char>, x: Seq<char>|
            in_use(inp.mods, a) && in_use(inp.mods, b)
            && #[trigger] inp.mods[mod_for(inp.mods, a)].assets@.contains(x)
            && #[trigger] inp.mods[mod_for(inp.mods, b)].assets@.contains(x)
            ==> inp.mods[mod_for(inp.mods, a)].assets@.len() == inp.mods[mod_for(inp.mods, b)].assets@.len(),
    ensures
        middle_order(inp) == keep_if(working_of(inp), |x: Seq<char>| !pinned(inp, x)),
{
    assert forall|a: Seq<char>, b: Seq<char>| in_use(inp.mods, a) && in_use(inp.mods, b) implies !#[trigger] must_precede(inp, a, b) by {
        if must_precede(inp, a, b) {
            let x = choose|x: Seq<char>| inp.mods[mod_for(inp.mods, a)].assets@.contains(x) && inp.mods[mod_for(inp.mods, b)].assets@.contains(x);
            assert(inp.mods[mod_for(inp.mods, a)].assets@.contains(x));
        }
    }
    law_unconstrained_keeps_order(inp);
}

proof fn lemma_free_upto_same(f1: spec_fn(int) -> bool, f2: spec_fn(int) -> bool, m: int)
    requires
        forall|i: int| 0 <= i < m ==> #[trigger] f1(i) == f2(i),
    ensures
        free_upto(f1, m) == free_upto(f2, m),
    decreases m,
{
    if m > 0 {
        lemma_free_upto_same(f1, f2, m - 1);
        assert(f1(m - 1) == f2(m - 1));
    }
}

/// Up to round `k`, `greedy` follows `h` (an order of the nodes in which
/// each comes after every node that must precede it) or has already
/// placed a smaller node than `h` at the first place where they differ.
proof fn lemma_greedy_least(prec: spec_fn(int, int) -> bool, free: spec_fn(int) -> bool, n: int, h: Seq<int>, k: nat)
    requires
        h.no_duplicates(),
        forall|j: int| 0 <= j < h.len() ==> 0 <= #[trigger] h[j] < n && free(h[j]),
        forall|j: int, f: int| 0 <= j < h.len() && 0 <= f < n && #[trigger] prec(f, h[j]) ==> h.take(j).contains(f),
        k <= h.len(),
    ensures
        greedy(prec, free, n, k) == h.take(k as int)
            || exists|q: int| 0 <= q < greedy(prec, free, n, k).len() && q < h.len()
                && greedy(prec, free, n, k).take(q) == h.take(q) && greedy(prec, free, n, k)[q] < h[q],
    decreases k,
{
    if k == 0 {
        assert(greedy(prec, free, n, 0) =~= h.take(0));
    } else {
        let km = (k - 1) as nat;
        lemma_greedy_least(prec, free, n, h, km);
        let p = greedy(prec, free, n, km);
        let g = greedy(prec, free, n, k);
        if p == h.take(km as int) {
            let x = h[km as int];
            assert(ready_in(prec, free, n, p, x)) by {
                assert(!p.contains(x)) by {
                    if p.contains(x) {
                        let q = choose|q: int| 0 <= q < p.len() && p[q] == x;
                        assert(h[q] == x);
                    }
                }
                assert forall|f: int| 0 <= f < n && !p.contains(f) implies !(#[trigger] prec(f, x)) by {}
            }
            lemma_first_ready_exists(prec, free, n, p, x);
            let c = first_ready_in(prec, free, n, p);
            assert(g == p.push(c));
            assert(c <= x);
            if c == x {
                assert(g =~= h.take(k as int));
            } else {
                assert(g.take(km as int) =~= p);
                assert(g[km as int] == c);
            }
        } else {
            let q = choose|q: int| 0 <= q < p.len() && q < h.len() && p.take(q) == h.take(q) && p[q] < h[q];
            if exists|i: int| ready_in(prec, free, n, p, i) {
                let w = choose|i: int| ready_in(prec, free, n, p, i);
                lemma_first_ready_exists(prec, free, n, p, w);
                assert(g == p.push(first_ready_in(prec, free, n, p)));
            } else {
                assert(g == p);
            }
            assert(g.take(q) =~= p.take(q));
            assert(g[q] == p[q]);
        }
    }
}

/// The positions in the starting order of the mods between the pinned
/// ends of the proposal, in the order they are proposed.
pub open spec fn middle_positions(inp: SortInput) -> Seq<int> {
    greedy(precede_rel(inp), unpinned_at(inp), working_of(inp).len() as int, working_of(inp).len())
}

/// `h` lists positions in the starting order: each unpinned mod in use
/// once and nothing else, each after every mod that must precede it.
pub open spec fn admissible_middle(inp: SortInput, h: Seq<int>) -> bool {
    let w = working_of(inp);
    &&& h.no_duplicates()
    &&& forall|j: int| 0 <= j < h.len() ==> 0 <= #[trigger] h[j] < w.len() && !pinned(inp, w[h[j]])
    &&& forall|i: int| 0 <= i < w.len() && !pinned(inp, w[i]) ==> #[trigger] h.contains(i)
    &&& forall|j: int, f: int| 0 <= j < h.len() && 0 <= f < w.len() && #[trigger] must_precede(inp, w[f], w[h[j]])
        ==> h.take(j).contains(f)
}

/// At the first place where `a` and `b` differ, `a` holds the smaller
/// position.
pub open spec fn lex_before(a: Seq<int>, b: Seq<int>) -> bool {
    exists|k: int| 0 <= k < a.len() && k < b.len() && a.take(k) == b.take(k) && a[k] < b[k]
}

/// Of all orders of the unpinned mods in which each mod comes after every
/// mod that must precede it, the middle of the proposal is the one that
/// keeps the starting order as long as it can: it is such an order, and
/// it comes first when the orders are compared position by position.
pub proof fn law_middle_is_least(inp: SortInput, h: Seq<int>)
    requires
        admissible_middle(inp, h),
    ensures
        middle_order(inp) == middle_positions(inp).map_values(name_at(working_of(inp))),
        admissible_middle(inp, middle_positions(inp)),
        middle_positions(inp) == h || lex_before(middle_positions(inp), h),
{
    let w = working_of(inp);
    let n = w.len() as int;
    let prec = precede_rel(inp);
    let free = unpinned_at(inp);
    let rank = |i: int| asset_count(inp.mods, w[i]) as int;
    let g = middle_positions(inp);
    lemma_greedy_basic(prec, free, n, n as nat);
    assert forall|f: int, t: int| 0 <= f < n && 0 <= t < n && #[trigger] prec(f, t) implies free(f) && rank(f) > rank(t) by {}
    // The proposal's middle is itself such an order.
    assert forall|i: int| 0 <= i < n && !pinned(inp, w[i]) implies #[trigger] g.contains(i) by {
        lemma_greedy_complete(prec, free, rank, n, i);
    }
    assert forall|j: int, f: int| 0 <= j < g.len() && 0 <= f < n && #[trigger] must_precede(inp, w[f], w[g[j]])
        implies g.take(j).contains(f) by {
        assert(prec(f, g[j]));
        assert(g.contains(g[j]));
        lemma_greedy_topo(prec, free, n, n as nat, f, g[j]);
        let (ia, ib) = choose|ia: int, ib: int| 0 <= ia < ib < g.len() && g[ia] == f && g[ib] == g[j];
        assert(ib == j);
        assert(g.take(j)[ia] == f);
    }
    // `h` is no longer than the number of positions.
    let r = set_int_range(0, n);
    lemma_int_range(0, n);
    assert(h.to_set().subset_of(r)) by {
        assert forall|x: int| h.to_set().contains(x) implies r.contains(x) by {
            let q = choose|q: int| 0 <= q < h.len() && h[q] == x;
        }
    }
    lemma_len_subset(h.to_set(), r);
    h.unique_seq_to_set();
    assert forall|j: int, f: int| 0 <= j < h.len() && 0 <= f < n && #[trigger] prec(f, h[j]) implies h.take(j).contains(f) by {
        assert(must_precede(inp, w[f], w[h[j]]));
    }
    lemma_greedy_least(prec, free, n, h, h.len());
    let gh = greedy(prec, free, n, h.len());
    assert(g.take(gh.len() as int) == gh);
    if gh == h.take(h.len() as int) {
        assert(h.take(h.len() as int) =~= h);
        if g.len() > h.len() {
            let x = g[h.len() as int];
            assert(free(x));
            assert(h.contains(x));
            let q = choose|q: int| 0 <= q < h.len() && h[q] == x;
            assert(g[q] == h[q]);
        }
        assert(g =~= h);
    } else {
        let q = choose|q: int| 0 <= q < gh.len() && q < h.len() && gh.take(q) == h.take(q) && gh[q] < h[q];
        assert(g.take(q) =~= gh.take(q));
        assert(g[q] == gh[q]);
    }
}

} // verus!
