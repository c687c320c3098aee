//! The mod files of a library and the sets of asset paths they provide.

use vstd::prelude::*;
use crate::text::{texts, text_lt, strictly_sorted, Order3, text_less, compare_text, lemma_text_lt_transitive, lemma_text_lt_asymmetric, lemma_text_lt_total};

verus! {

/// A set of asset paths, kept in the order of `str` with no repeats.
pub struct AssetSet {
    items: Vec<String>,
}

impl View for AssetSet {
    type V = Seq<Seq<char>>;

    /// The paths in increasing order.
    closed spec fn view(&self) -> Seq<Seq<char>> {
        texts(self.items@)
    }
}

/// The elements of a sequence of texts, as a set.
pub open spec fn text_set(s: Seq<Seq<char>>) -> Set<Seq<char>> {
    s.to_set()
}

/// Result of looking a text up in a strictly sorted sequence.
pub open spec fn sorted_position_ok(s: Seq<Seq<char>>, x: Seq<char>, pos: int) -> bool {
    &&& 0 <= pos <= s.len()
    &&& forall|k: int| 0 <= k < pos ==> text_lt(#[trigger] s[k], x)
    &&& forall|k: int| pos <= k < s.len() ==> !text_lt(#[trigger] s[k], x)
}

pub proof fn lemma_texts_index(v: Seq<String>, i: int)
    requires
        0 <= i < v.len(),
    ensures
        texts(v)[i] == v[i]@,
        texts(v).len() == v.len(),
{
}

/// Finds where `x` belongs in the strictly sorted `items`.
pub fn sorted_position(items: &Vec<String>, x: &str) -> (pos: usize)
    requires
        strictly_sorted(texts(items@)),
    ensures
        sorted_position_ok(texts(items@), x@, pos as int),
{
    let ghost s = texts(items@);
    let mut lo: usize = 0;
    let mut hi: usize = items.len();
    while lo < hi
        invariant
            s == texts(items@),
            strictly_sorted(s),
            0 <= lo <= hi <= items@.len(),
            s.len() == items@.len(),
            forall|k: int| 0 <= k < lo ==> text_lt(#[trigger] s[k], x@),
            forall|k: int| hi <= k < s.len() ==> !text_lt(#[trigger] s[k], x@),
        decreases hi - lo,
    {
        let mid: usize = lo + (hi - lo) / 2;
        let less = text_less(items[mid].as_str(), x);
        proof {
            lemma_texts_index(items@, mid as int);
        }
        if less {
            proof {
                assert forall|k: int| 0 <= k < mid + 1 implies text_lt(#[trigger] s[k], x@) by {
                    if k < mid {
                        if k >= lo {
                            lemma_text_lt_transitive(s[k], s[mid as int], x@);
                        }
                    }
                }
            }
            lo = mid + 1;
        } else {
            proof {
                assert forall|k: int| mid <= k < s.len() implies !text_lt(#[trigger] s[k], x@) by {
                    if k > mid && k < hi {
                        if text_lt(s[k], x@) {
                            lemma_text_lt_transitive(s[mid as int], s[k], x@);
                        }
                    }
                }
            }
            hi = mid;
        }
    }
    lo
}


/// Inserting a text where it belongs keeps a strictly sorted sequence so,
/// and adds just that text to its elements.
pub proof fn lemma_sorted_insert(s: Seq<Seq<char>>, x: Seq<char>, pos: int)
    requires
        strictly_sorted(s),
        sorted_position_ok(s, x, pos),
        !(pos < s.len() && s[pos] == x),
    ensures
        strictly_sorted(s.insert(pos, x)),
        text_set(s.insert(pos, x)) == text_set(s).insert(x),
        forall|k: int| 0 <= k < s.len() ==> s[k] != x,
{
    let ns = s.insert(pos, x);
    if pos < s.len() {
        lemma_text_lt_total(s[pos], x);
    }
    assert forall|k: int| pos <= k < s.len() implies text_lt(x, #[trigger] s[k]) by {
        if k > pos {
            lemma_text_lt_transitive(x, s[pos], s[k]);
        }
    }
    assert forall|k: int| 0 <= k < s.len() implies s[k] != x by {
        if k < pos {
            lemma_text_lt_asymmetric(s[k], x);
        } else {
            lemma_text_lt_asymmetric(x, s[k]);
        }
    }
    assert forall|i: int, j: int| 0 <= i < j < ns.len() implies text_lt(#[trigger] ns[i], #[trigger] ns[j]) by {
        if j < pos {
        } else if j == pos {
        } else if i < pos {
            assert(ns[j] == s[j - 1]);
            lemma_text_lt_transitive(ns[i], x, ns[j]);
        } else if i == pos {
            assert(ns[j] == s[j - 1]);
        } else {
            assert(ns[j] == s[j - 1]);
            assert(ns[i] == s[i - 1]);
        }
    }
    assert forall|y: Seq<char>| text_set(ns).contains(y) <==> text_set(s).insert(x).contains(y) by {
        if text_set(ns).contains(y) {
            let k = choose|k: int| 0 <= k < ns.len() && ns[k] == y;
            if k < pos {
                assert(s[k] == y);
            } else if k > pos {
                assert(s[k - 1] == y);
            }
        }
        if text_set(s).contains(y) {
            let k = choose|k: int| 0 <= k < s.len() && s[k] == y;
            if k < pos {
                assert(ns[k] == y);
            } else {
                assert(ns[k + 1] == y);
            }
        }
        if y == x {
            assert(ns[pos] == y);
        }
    }
    assert(text_set(ns) =~= text_set(s).insert(x));
}

/// A sorted position `pos` at which `s` holds `x` is the one place `x` occurs.
pub proof fn lemma_sorted_found(s: Seq<Seq<char>>, x: Seq<char>, pos: int)
    requires
        strictly_sorted(s),
        sorted_position_ok(s, x, pos),
    ensures
        (pos < s.len() && s[pos] == x) == s.contains(x),
{
    if s.contains(x) && !(pos < s.len() && s[pos] == x) {
        let k = choose|k: int| 0 <= k < s.len() && s[k] == x;
        if k < pos {
            lemma_text_lt_asymmetric(s[k], x);
        } else {
            lemma_text_lt_total(s[pos], x);
            if k > pos {
                lemma_text_lt_transitive(x, s[pos], s[k]);
            }
            lemma_text_lt_asymmetric(x, s[k]);
        }
    }
}

impl AssetSet {
    #[verifier::type_invariant]
    spec fn well_formed(self) -> bool {
        strictly_sorted(texts(self.items@))
    }

    /// The empty set.
    pub fn new() -> (r: AssetSet)
        ensures
            r@ == Seq::<Seq<char>>::empty(),
    {
        let r = AssetSet { items: Vec::new() };
        assert(texts(r.items@) =~= Seq::<Seq<char>>::empty());
        r
    }

    /// The paths are listed in strictly increasing order. This is the
    /// set's invariant made available to callers; it takes the set itself,
    /// since the invariant can be brought out only of a value that exists
    /// at run time, and it does nothing when run.
    pub fn prove_sorted(&self)
        ensures
            strictly_sorted(self@),
    {
        proof {
            use_type_invariant(self);
        }
    }

    /// Number of paths in the set.
    pub fn len(&self) -> (n: usize)
        ensures
            n == self@.len(),
    {
        self.items.len()
    }

    /// Whether the set holds no path.
    pub fn is_empty(&self) -> (b: bool)
        ensures
            b == (self@.len() == 0),
    {
        self.items.len() == 0
    }

    /// The `i`-th path in increasing order.
    pub fn get(&self, i: usize) -> (s: &String)
        requires
            i < self@.len(),
        ensures
            s@ == self@[i as int],
    {
        &self.items[i]
    }

    /// The paths in increasing order, as a vector.
    pub fn to_vec(&self) -> (v: Vec<String>)
        ensures
            texts(v@) == self@,
    {
        crate::text::clone_strings(&self.items)
    }

    /// Whether the set holds the path `x`.
    pub fn contains(&self, x: &str) -> (b: bool)
        ensures
            b == self@.contains(x@),
    {
        proof {
            use_type_invariant(self);
        }
        let pos = sorted_position(&self.items, x);
        proof {
            lemma_sorted_found(self@, x@, pos as int);
        }
        if pos < self.items.len() {
            proof {
                lemma_texts_index(self.items@, pos as int);
            }
            compare_text(self.items[pos].as_str(), x) == Order3::Same
        } else {
            false
        }
    }

    /// Adds the path `x`; the set is unchanged when it already holds it.
    pub fn insert(&mut self, x: String)
        ensures
            text_set(final(self)@) == text_set(old(self)@).insert(x@),
            strictly_sorted(final(self)@),
    {
        proof {
            use_type_invariant(&*self);
        }
        let pos = sorted_position(&self.items, x.as_str());
        let ghost s = self@;
        if pos < self.items.len() {
            proof {
                lemma_texts_index(self.items@, pos as int);
            }
            if compare_text(self.items[pos].as_str(), x.as_str()) == Order3::Same {
                assert(text_set(s).insert(x@) =~= text_set(s)) by {
                    assert(s.contains(s[pos as int]));
                }
                return;
            }
        }
        let ghost xv = x@;
        proof {
            lemma_sorted_insert(s, xv, pos as int);
        }
        let mut items: Vec<String> = Vec::new();
        std::mem::swap(&mut items, &mut self.items);
        assert(texts(items@) == s);
        items.insert(pos, x);
        assert(texts(items@) =~= s.insert(pos as int, xv));
        self.items = items;
    }

    /// Collects the paths of `v` into a set, as a `BTreeSet` would.
    pub fn from_vec(v: Vec<String>) -> (r: AssetSet)
        ensures
            text_set(r@) == text_set(texts(v@)),
            strictly_sorted(r@),
    {
        let mut r = AssetSet::new();
        let mut i: usize = 0;
        assert(text_set(r@) =~= text_set(texts(v@.take(0))));
        while i < v.len()
            invariant
                i <= v@.len(),
                text_set(r@) == text_set(texts(v@.take(i as int))),
                strictly_sorted(r@),
            decreases v@.len() - i,
        {
            r.insert(v[i].clone());
            proof {
                assert(texts(v@.take(i + 1)) =~= texts(v@.take(i as int)).push(v@[i as int]@));
                let t = texts(v@.take(i as int));
                let y = v@[i as int]@;
                assert forall|z: Seq<char>| #[trigger] text_set(t.push(y)).contains(z) <==> text_set(t).insert(y).contains(z) by {
                    if text_set(t.push(y)).contains(z) {
                        let k = choose|k: int| 0 <= k < t.push(y).len() && t.push(y)[k] == z;
                        if k < t.len() {
                            assert(t[k] == z);
                        }
                    }
                    if text_set(t).contains(z) {
                        let k = choose|k: int| 0 <= k < t.len() && t[k] == z;
                        assert(t.push(y)[k] == z);
                    }
                    if z == y {
                        assert(t.push(y)[t.len() as int] == z);
                    }
                }
                assert(text_set(t.push(y)) =~= text_set(t).insert(y));
            }
            i = i + 1;
        }
        assert(v@.take(i as int) =~= v@);
        r
    }

    /// The two sets share at least one path.
    pub fn intersects(&self, other: &AssetSet) -> (b: bool)
        ensures
            b == exists|x: Seq<char>| self@.contains(x) && other@.contains(x),
    {
        proof {
            use_type_invariant(self);
            use_type_invariant(other);
        }
        let ghost a = self@;
        let ghost c = other@;
        let mut i: usize = 0;
        let mut j: usize = 0;
        while i < self.items.len() && j < other.items.len()
            invariant
                a == self@,
                c == other@,
                strictly_sorted(a),
                strictly_sorted(c),
                a.len() == self.items@.len(),
                c.len() == other.items@.len(),
                i <= a.len(),
                j <= c.len(),
                forall|p: int, q: int| 0 <= p < a.len() && 0 <= q < c.len() && (p < i || q < j) ==> #[trigger] a[p] != #[trigger] c[q],
            decreases a.len() + c.len() - i - j,
        {
            proof {
                lemma_texts_index(self.items@, i as int);
                lemma_texts_index(other.items@, j as int);
            }
            let o = compare_text(self.items[i].as_str(), other.items[j].as_str());
            if o == Order3::Same {
                assert(a.contains(a[i as int]) && c.contains(a[i as int]));
                return true;
            } else if o == Order3::Before {
                proof {
                    assert forall|p: int, q: int| 0 <= p < a.len() && 0 <= q < c.len() && (p < i + 1 || q < j) implies #[trigger] a[p] != #[trigger] c[q] by {
                        if p == i && q >= j {
                            if q > j {
                                lemma_text_lt_transitive(a[p], c[j as int], c[q]);
                            }
                            lemma_text_lt_asymmetric(a[p], c[q]);
                        }
                    }
                }
                i = i + 1;
            } else {
                proof {
                    assert forall|p: int, q: int| 0 <= p < a.len() && 0 <= q < c.len() && (p < i || q < j + 1) implies #[trigger] a[p] != #[trigger] c[q] by {
                        if q == j && p >= i {
                            if p > i {
                                lemma_text_lt_transitive(c[q], a[i as int], a[p]);
                            }
                            lemma_text_lt_asymmetric(c[q], a[p]);
                        }
                    }
                }
                j = j + 1;
            }
        }
        proof {
            assert forall|x: Seq<char>| !(a.contains(x) && c.contains(x)) by {
                if a.contains(x) && c.contains(x) {
                    let p = choose|p: int| 0 <= p < a.len() && a[p] == x;
                    let q = choose|q: int| 0 <= q < c.len() && c[q] == x;
                }
            }
        }
        false
    }
}

impl Clone for AssetSet {
    fn clone(&self) -> (r: AssetSet)
        ensures
            r@ == self@,
    {
        proof {
            use_type_invariant(self);
        }
        let mut items: Vec<String> = Vec::new();
        let mut i: usize = 0;
        while i < self.items.len()
            invariant
                i <= self.items@.len(),
                items@.len() == i,
                texts(items@) == texts(self.items@).take(i as int),
            decreases self.items@.len() - i,
        {
            let c = self.items[i].clone();
            let ghost before = items@;
            items.push(c);
            proof {
                assert(items@ == before.push(c));
                assert(c@ == self.items@[i as int]@);
                assert forall|k: int| 0 <= k < i + 1 implies #[trigger] texts(items@)[k] == texts(self.items@).take(i + 1)[k] by {
                    if k < i {
                        assert(texts(before)[k] == texts(self.items@).take(i as int)[k]);
                    }
                }
                assert(texts(items@) =~= texts(self.items@).take(i + 1));
            }
            i = i + 1;
        }
        assert(texts(self.items@).take(i as int) =~= texts(self.items@));
        AssetSet { items }
    }
}

/// One mod archive found in the library.
#[derive(Clone)]
pub struct ModFile {
    /// Where the archive lives on disk.
    pub path: String,
    /// The archive's file stem, the name it goes by in the load order.
    pub name: String,
    /// Enabled archives end in `.otr`/`.o2r`, disabled ones in
    /// `.disabled`/`.di2abled`.
    pub enabled: bool,
    /// The asset paths the archive provides.
    pub assets: AssetSet,
    /// Why the archive could not be listed, if it could not.
    pub error: Option<String>,
    /// The GameBanana mod the archive's folder came from, if known.
    pub gamebanana_mod_id: Option<u64>,
}

impl ModFile {
    /// The name under which the mod appears in the load order.
    pub fn order_name(&self) -> (r: &str)
        ensures
            r@ == self.name@,
    {
        self.name.as_str()
    }
}

} // verus!
