//! Stable sorting by a text key, as `sort_by_key` does.

use vstd::prelude::*;
use crate::text::{text_lt, text_less, texts};

verus! {

/// Places `x` after every element whose key is not greater than its key.
pub open spec fn insert_keyed<A>(x: (Seq<char>, A), s: Seq<(Seq<char>, A)>) -> Seq<(Seq<char>, A)>
    decreases s.len(),
{
    if s.len() == 0 {
        seq![x]
    } else if text_lt(x.0, s[0].0) {
        seq![x] + s
    } else {
        seq![s[0]] + insert_keyed(x, s.drop_first())
    }
}

/// The elements of `s` stably sorted by their keys.
pub open spec fn sort_keyed<A>(s: Seq<(Seq<char>, A)>) -> Seq<(Seq<char>, A)>
    decreases s.len(),
{
    if s.len() == 0 {
        Seq::empty()
    } else {
        insert_keyed(s.last(), sort_keyed(s.drop_last()))
    }
}

/// The keys of a keyed sequence as texts.
pub open spec fn keyed_view<A>(v: Seq<(String, A)>) -> Seq<(Seq<char>, A)> {
    v.map_values(|e: (String, A)| (e.0@, e.1))
}

/// The texts of `s` sorted, equal texts kept.
pub open spec fn sort_texts(s: Seq<Seq<char>>) -> Seq<Seq<char>> {
    sort_keyed(s.map_values(|t: Seq<char>| (t, ()))).map_values(|e: (Seq<char>, ())| e.0)
}

proof fn lemma_insert_keyed<A>(x: (Seq<char>, A), s: Seq<(Seq<char>, A)>, p: int)
    requires
        0 <= p <= s.len(),
        forall|q: int| 0 <= q < p ==> !text_lt(x.0, #[trigger] s[q].0),
        p == s.len() || text_lt(x.0, s[p].0),
    ensures
        insert_keyed(x, s) == s.take(p).push(x) + s.skip(p),
    decreases p,
{
    if p == 0 {
        if s.len() == 0 {
            assert(s.take(0).push(x) + s.skip(0) =~= seq![x]);
        } else {
            assert(s.take(0).push(x) + s.skip(0) =~= seq![x] + s);
        }
    } else {
        let t = s.drop_first();
        assert forall|q: int| 0 <= q < p - 1 implies !text_lt(x.0, #[trigger] t[q].0) by {
            assert(t[q] == s[q + 1]);
        }
        if p - 1 < t.len() {
            assert(t[p - 1] == s[p]);
        }
        lemma_insert_keyed(x, t, p - 1);
        assert(seq![s[0]] + (t.take(p - 1).push(x) + t.skip(p - 1)) =~= s.take(p).push(x) + s.skip(p));
    }
}

/// Sorts by key, keeping the order of equal keys.
pub fn sort_by_text_key<A>(v: Vec<(String, A)>) -> (r: Vec<(String, A)>)
    ensures
        keyed_view(r@) == sort_keyed(keyed_view(v@)),
{
    let ghost orig = keyed_view(v@);
    let mut rest = v;
    let mut out: Vec<(String, A)> = Vec::new();
    let ghost mut taken: int = 0;
    assert(orig.take(0) =~= Seq::<(Seq<char>, A)>::empty());
    while rest.len() > 0
        invariant
            0 <= taken <= orig.len(),
            keyed_view(rest@) == orig.skip(taken),
            keyed_view(out@) == sort_keyed(orig.take(taken)),
        decreases rest@.len(),
    {
        let ghost rv = keyed_view(rest@);
        assert(rv.len() == rest@.len());
        assert(orig.skip(taken).len() == orig.len() - taken);
        let ghost rest_before = rest@;
        let x = rest.remove(0);
        let ghost xv = (x.0@, x.1);
        assert(rest@ =~= rest_before.drop_first());
        assert(keyed_view(rest@) =~= rv.drop_first());
        assert(rv[0] == xv);
        let mut p: usize = 0;
        while p < out.len() && !text_less(x.0.as_str(), out[p].0.as_str())
            invariant
                p <= out@.len(),
                xv.0 == x.0@,
                forall|q: int| 0 <= q < p ==> !text_lt(xv.0, #[trigger] keyed_view(out@)[q].0),
            decreases out@.len() - p,
        {
            assert(keyed_view(out@)[p as int].0 == out@[p as int].0@);
            p = p + 1;
        }
        let ghost ov = keyed_view(out@);
        proof {
            lemma_insert_keyed(xv, ov, p as int);
            assert(orig.take(taken + 1).drop_last() =~= orig.take(taken));
            assert(orig.take(taken + 1).last() == xv) by {
                assert(orig.skip(taken)[0] == orig[taken]);
            }
        }
        out.insert(p, x);
        proof {
            assert(keyed_view(out@) =~= ov.take(p as int).push(xv) + ov.skip(p as int));
            assert(rv.drop_first() =~= orig.skip(taken + 1));
            taken = taken + 1;
        }
    }
    assert(orig.take(taken) =~= orig);
    out
}

/// Sorts names, keeping repeated names.
pub fn sort_names(v: Vec<String>) -> (r: Vec<String>)
    ensures
        texts(r@) == sort_texts(texts(v@)),
{
    let mut keyed: Vec<(String, ())> = Vec::new();
    let mut i: usize = 0;
    while i < v.len()
        invariant
            i <= v@.len(),
            keyed@.len() == i,
            keyed_view(keyed@) == texts(v@).take(i as int).map_values(|t: Seq<char>| (t, ())),
        decreases v@.len() - i,
    {
        let a = v[i].clone();
        let ghost before = keyed@;
        keyed.push((a, ()));
        proof {
            assert(a@ == v@[i as int]@);
            let lhs = keyed_view(keyed@);
            let rhs = texts(v@).take(i + 1).map_values(|t: Seq<char>| (t, ()));
            assert forall|k: int| 0 <= k < i + 1 implies #[trigger] lhs[k] == rhs[k] by {
                if k < i {
                    assert(keyed@[k] == before[k]);
                    assert(keyed_view(before)[k] == texts(v@).take(i as int).map_values(|t: Seq<char>| (t, ()))[k]);
                }
            }
            assert(lhs =~= rhs);
        }
        i = i + 1;
    }
    assert(texts(v@).take(i as int) =~= texts(v@));
    let sorted = sort_by_text_key(keyed);
    let mut out: Vec<String> = Vec::new();
    let mut j: usize = 0;
    proof {
        lemma_sort_keyed_len(keyed_view(keyed@));
    }
    while j < sorted.len()
        invariant
            j <= sorted@.len(),
            out@.len() == j,
            texts(out@) == keyed_view(sorted@).take(j as int).map_values(|e: (Seq<char>, ())| e.0),
        decreases sorted@.len() - j,
    {
        let c = sorted[j].0.clone();
        let ghost before = out@;
        out.push(c);
        proof {
            let lhs = texts(out@);
            let rhs = keyed_view(sorted@).take(j + 1).map_values(|e: (Seq<char>, ())| e.0);
            assert forall|k: int| 0 <= k < j + 1 implies #[trigger] lhs[k] == rhs[k] by {
                if k < j {
                    assert(out@[k] == before[k]);
                    assert(texts(before)[k] == keyed_view(sorted@).take(j as int).map_values(|e: (Seq<char>, ())| e.0)[k]);
                }
            }
            assert(lhs =~= rhs);
        }
        j = j + 1;
    }
    assert(keyed_view(sorted@).take(j as int) =~= keyed_view(sorted@));
    out
}

/// Sorting keeps the number of elements.
pub proof fn lemma_sort_keyed_len<A>(s: Seq<(Seq<char>, A)>)
    ensures
        sort_keyed(s).len() == s.len(),
    decreases s.len(),
{
    if s.len() > 0 {
        lemma_sort_keyed_len(s.drop_last());
        lemma_insert_keyed_len(s.last(), sort_keyed(s.drop_last()));
    }
}

/// Inserting adds one element.
pub proof fn lemma_insert_keyed_len<A>(x: (Seq<char>, A), s: Seq<(Seq<char>, A)>)
    ensures
        insert_keyed(x, s).len() == s.len() + 1,
    decreases s.len(),
{
    if s.len() > 0 && !text_lt(x.0, s[0].0) {
        lemma_insert_keyed_len(x, s.drop_first());
    }
}

/// Inserting keeps what was there and adds the new element.
pub proof fn lemma_insert_keyed_contains<A>(x: (Seq<char>, A), s: Seq<(Seq<char>, A)>, y: (Seq<char>, A))
    ensures
        insert_keyed(x, s).contains(y) <==> (y == x || s.contains(y)),
    decreases s.len(),
{
    let r = insert_keyed(x, s);
    if s.len() == 0 {
        if r.contains(y) {
            assert(r[0] == x);
        }
        if y == x {
            assert(r[0] == x);
        }
    } else if text_lt(x.0, s[0].0) {
        assert(r == seq![x] + s);
        if r.contains(y) {
            let q = choose|q: int| 0 <= q < r.len() && r[q] == y;
            if q > 0 {
                assert(s[q - 1] == y);
            }
        }
        if s.contains(y) {
            let q = choose|q: int| 0 <= q < s.len() && s[q] == y;
            assert(r[q + 1] == y);
        }
        if y == x {
            assert(r[0] == x);
        }
    } else {
        let t = s.drop_first();
        lemma_insert_keyed_contains(x, t, y);
        let rt = insert_keyed(x, t);
        assert(r == seq![s[0]] + rt);
        if r.contains(y) {
            let q = choose|q: int| 0 <= q < r.len() && r[q] == y;
            if q == 0 {
                assert(s[0] == y);
            } else {
                assert(rt[q - 1] == y);
                if t.contains(y) {
                    let z = choose|z: int| 0 <= z < t.len() && t[z] == y;
                    assert(s[z + 1] == y);
                }
            }
        }
        if s.contains(y) {
            let q = choose|q: int| 0 <= q < s.len() && s[q] == y;
            if q == 0 {
                assert(r[0] == y);
            } else {
                assert(t[q - 1] == y);
                assert(rt.contains(y));
                let z = choose|z: int| 0 <= z < rt.len() && rt[z] == y;
                assert(r[z + 1] == y);
            }
        }
        if y == x {
            assert(rt.contains(y));
            let z = choose|z: int| 0 <= z < rt.len() && rt[z] == y;
            assert(r[z + 1] == y);
        }
    }
}

/// Sorting keeps the elements.
pub proof fn lemma_sort_keyed_contains<A>(s: Seq<(Seq<char>, A)>, y: (Seq<char>, A))
    ensures
        sort_keyed(s).contains(y) <==> s.contains(y),
    decreases s.len(),
{
    if s.len() > 0 {
        let d = s.drop_last();
        lemma_sort_keyed_contains(d, y);
        lemma_insert_keyed_contains(s.last(), sort_keyed(d), y);
        if s.contains(y) {
            let q = choose|q: int| 0 <= q < s.len() && s[q] == y;
            if q < d.len() {
                assert(d[q] == y);
            }
        }
        if d.contains(y) {
            let q = choose|q: int| 0 <= q < d.len() && d[q] == y;
            assert(s[q] == y);
        }
        assert(s[s.len() - 1] == s.last());
    }
}

} // verus!
