//! Which enabled mods provide each asset, in load order.

use vstd::prelude::*;
use crate::model::{ModFile, sorted_position, lemma_sorted_insert, lemma_sorted_found, lemma_texts_index};
use crate::text::{texts, text_lt, strictly_sorted, Order3, compare_text, text_less};

verus! {

/// A mod takes part in loading: it is enabled and could be listed.
pub open spec fn usable(m: ModFile) -> bool {
    m.enabled && m.error is None
}

/// Where `name` first appears in the load order, if it does.
pub open spec fn load_position(order: Seq<Seq<char>>, name: Seq<char>) -> Option<int> {
    order.index_of_first(name)
}

/// Mod `i` sorts strictly before mod `j`: mods in the load order come
/// first, by position; the others follow by name.
pub open spec fn loads_before(mods: Seq<ModFile>, order: Seq<Seq<char>>, i: int, j: int) -> bool {
    match (load_position(order, mods[i].name@), load_position(order, mods[j].name@)) {
        (Some(x), Some(y)) => x < y,
        (Some(_), None) => true,
        (None, Some(_)) => false,
        (None, None) => text_lt(mods[i].name@, mods[j].name@),
    }
}

/// Places mod `x` into the sorted sequence `s`, after every mod that does
/// not load strictly after it (so equal keys keep their first order).
pub open spec fn insert_by_load(mods: Seq<ModFile>, order: Seq<Seq<char>>, x: int, s: Seq<int>) -> Seq<int>
    decreases s.len(),
{
    if s.len() == 0 {
        seq![x]
    } else if loads_before(mods, order, x, s[0]) {
        seq![x] + s
    } else {
        seq![s[0]] + insert_by_load(mods, order, x, s.drop_first())
    }
}

/// The mods indexed by `s`, stably sorted by `loads_before`.
pub open spec fn sort_by_load(mods: Seq<ModFile>, order: Seq<Seq<char>>, s: Seq<int>) -> Seq<int>
    decreases s.len(),
{
    if s.len() == 0 {
        Seq::empty()
    } else {
        insert_by_load(mods, order, s.last(), sort_by_load(mods, order, s.drop_last()))
    }
}

/// Indices of the usable mods among the first `n`, in order.
pub open spec fn usable_prefix(mods: Seq<ModFile>, n: int) -> Seq<int>
    decreases n,
{
    if n <= 0 {
        Seq::empty()
    } else {
        let p = usable_prefix(mods, n - 1);
        if usable(mods[n - 1]) {
            p.push(n - 1)
        } else {
            p
        }
    }
}

/// The usable mods in the order in which they load.
pub open spec fn load_sequence(mods: Seq<ModFile>, order: Seq<Seq<char>>) -> Seq<int> {
    sort_by_load(mods, order, usable_prefix(mods, mods.len() as int))
}

/// `name` joins a provider list unless it is already there.
pub open spec fn add_provider(prev: Seq<Seq<char>>, name: Seq<char>) -> Seq<Seq<char>> {
    if prev.contains(name) {
        prev
    } else {
        prev.push(name)
    }
}

/// The names of the mods in `seq` (in that order) that provide asset `a`,
/// each name once.
pub open spec fn providers_along(mods: Seq<ModFile>, seq: Seq<int>, a: Seq<char>) -> Seq<Seq<char>>
    decreases seq.len(),
{
    if seq.len() == 0 {
        Seq::empty()
    } else {
        let prev = providers_along(mods, seq.drop_last(), a);
        let m = mods[seq.last()];
        if m.assets@.contains(a) {
            add_provider(prev, m.name@)
        } else {
            prev
        }
    }
}

/// Some mod in `seq` provides asset `a`.
pub open spec fn provided_along(mods: Seq<ModFile>, seq: Seq<int>, a: Seq<char>) -> bool {
    exists|k: int| 0 <= k < seq.len() && #[trigger] mods[seq[k]].assets@.contains(a)
}

/// `g` lists, by increasing asset, every asset that a mod of `seq`
/// provides, each with its providers.
pub open spec fn graph_of(g: Seq<(Seq<char>, Seq<Seq<char>>)>, mods: Seq<ModFile>, seq: Seq<int>) -> bool {
    &&& strictly_sorted(g.map_values(|e: (Seq<char>, Seq<Seq<char>>)| e.0))
    &&& forall|k: int| 0 <= k < g.len() ==> provided_along(mods, seq, #[trigger] g[k].0) && g[k].1 == providers_along(mods, seq, g[k].0)
    &&& forall|a: Seq<char>| #[trigger] provided_along(mods, seq, a) ==> exists|k: int| 0 <= k < g.len() && #[trigger] g[k].0 == a
}

/// For every asset provided by an enabled, listable mod: the names of its
/// providers, in load order.
pub struct ConflictGraph {
    assets: Vec<String>,
    lists: Vec<Vec<String>>,
}

impl View for ConflictGraph {
    type V = Seq<(Seq<char>, Seq<Seq<char>>)>;

    /// `(asset, providers)` pairs by increasing asset.
    closed spec fn view(&self) -> Seq<(Seq<char>, Seq<Seq<char>>)> {
        Seq::new(self.assets@.len(), |k: int| (self.assets@[k]@, texts(self.lists@[k]@)))
    }
}

/// One contested or uncontested asset and its providers in load order.
pub struct ProviderEntry {
    pub asset: String,
    pub providers: Vec<String>,
}

/// An optional exec position agrees with an optional spec position.
pub open spec fn pos_matches(p: Option<usize>, q: Option<int>) -> bool {
    match p {
        Some(x) => q == Some(x as int),
        None => q is None,
    }
}

fn position_in(order: &[String], name: &String) -> (r: Option<usize>)
    ensures
        match r {
            Some(k) => load_position(texts(order@), name@) == Some(k as int),
            None => load_position(texts(order@), name@) is None,
        },
{
    let ghost t = texts(order@);
    proof {
        t.index_of_first_ensures(name@);
    }
    let mut i: usize = 0;
    while i < order.len()
        invariant
            t == texts(order@),
            i <= order@.len(),
            t.len() == order@.len(),
            forall|j: int| 0 <= j < i ==> t[j] != name@,
        decreases order@.len() - i,
    {
        if order[i] == *name {
            assert(t[i as int] == name@);
            proof {
                t.index_of_first_ensures(name@);
                assert(t.contains(name@));
            }
            return Some(i);
        }
        i = i + 1;
    }
    proof {
        if t.contains(name@) {
            let k = choose|k: int| 0 <= k < t.len() && t[k] == name@;
        }
    }
    None
}

fn loads_before_exec(mods: &[ModFile], order: &[String], pos: &Vec<Option<usize>>, i: usize, j: usize) -> (r: bool)
    requires
        i < mods@.len(),
        j < mods@.len(),
        pos@.len() == mods@.len(),
        forall|k: int| 0 <= k < mods@.len() ==> pos_matches(#[trigger] pos@[k], load_position(texts(order@), mods@[k].name@)),
        forall|k: int| 0 <= k < mods@.len() ==> match load_position(texts(order@), #[trigger] mods@[k].name@) {
            Some(p) => 0 <= p < order@.len(),
            None => true,
        },
    ensures
        r == loads_before(mods@, texts(order@), i as int, j as int),
{
    let ghost li = load_position(texts(order@), mods@[i as int].name@);
    let ghost lj = load_position(texts(order@), mods@[j as int].name@);
    assert(pos_matches(pos@[i as int], li));
    assert(pos_matches(pos@[j as int], lj));
    match (pos[i], pos[j]) {
        (Some(x), Some(y)) => x < y,
        (Some(_), None) => true,
        (None, Some(_)) => false,
        (None, None) => text_less(mods[i].name.as_str(), mods[j].name.as_str()),
    }
}

proof fn lemma_insert_by_load(mods: Seq<ModFile>, order: Seq<Seq<char>>, x: int, s: Seq<int>, p: int)
    requires
        0 <= p <= s.len(),
        forall|q: int| 0 <= q < p ==> !loads_before(mods, order, x, #[trigger] s[q]),
        p == s.len() || loads_before(mods, order, x, s[p]),
    ensures
        insert_by_load(mods, order, x, s) == s.take(p).push(x) + s.skip(p),
    decreases p,
{
    if p == 0 {
        if s.len() == 0 {
            assert(s.take(0).push(x) + s.skip(0) =~= seq![x]);
        } else {
            assert(s.take(0).push(x) + s.skip(0) =~= seq![x] + s);
        }
    } else {
        let t = s.drop_first();
        assert forall|q: int| 0 <= q < p - 1 implies !loads_before(mods, order, x, #[trigger] t[q]) by {
            assert(t[q] == s[q + 1]);
        }
        if p - 1 < t.len() {
            assert(t[p - 1] == s[p]);
        }
        lemma_insert_by_load(mods, order, x, t, p - 1);
        assert(seq![s[0]] + (t.take(p - 1).push(x) + t.skip(p - 1)) =~= s.take(p).push(x) + s.skip(p));
    }
}

proof fn lemma_usable_prefix_bounds(mods: Seq<ModFile>, n: int)
    ensures
        forall|k: int| 0 <= k < usable_prefix(mods, n).len() ==> 0 <= #[trigger] usable_prefix(mods, n)[k] < n,
    decreases n,
{
    if n > 0 {
        lemma_usable_prefix_bounds(mods, n - 1);
        let p = usable_prefix(mods, n - 1);
        assert forall|k: int| 0 <= k < usable_prefix(mods, n).len() implies 0 <= #[trigger] usable_prefix(mods, n)[k] < n by {
            if k < p.len() {
                assert(usable_prefix(mods, n)[k] == p[k]);
            }
        }
    }
}

proof fn lemma_insert_by_load_elements(mods: Seq<ModFile>, order: Seq<Seq<char>>, x: int, s: Seq<int>, bound: int)
    requires
        0 <= x < bound,
        forall|k: int| 0 <= k < s.len() ==> 0 <= #[trigger] s[k] < bound,
    ensures
        forall|k: int| 0 <= k < insert_by_load(mods, order, x, s).len() ==> 0 <= #[trigger] insert_by_load(mods, order, x, s)[k] < bound,
        insert_by_load(mods, order, x, s).len() == s.len() + 1,
    decreases s.len(),
{
    if s.len() > 0 && !loads_before(mods, order, x, s[0]) {
        lemma_insert_by_load_elements(mods, order, x, s.drop_first(), bound);
        let r = insert_by_load(mods, order, x, s);
        assert forall|k: int| 0 <= k < r.len() implies 0 <= #[trigger] r[k] < bound by {
            if k > 0 {
                assert(r[k] == insert_by_load(mods, order, x, s.drop_first())[k - 1]);
            }
        }
    }
}

/// Indices of the usable mods, stably sorted into load order.
fn load_sequence_exec(mods: &[ModFile], order: &[String]) -> (seq: Vec<usize>)
    ensures
        seq@.map_values(|k: usize| k as int) == load_sequence(mods@, texts(order@)),
        forall|k: int| 0 <= k < seq@.len() ==> #[trigger] seq@[k] < mods@.len(),
{
    let ghost ord = texts(order@);
    let mut pos: Vec<Option<usize>> = Vec::new();
    let mut i: usize = 0;
    while i < mods.len()
        invariant
            ord == texts(order@),
            i <= mods@.len(),
            pos@.len() == i,
            forall|k: int| 0 <= k < i ==> pos_matches(#[trigger] pos@[k], load_position(ord, mods@[k].name@)),
            forall|k: int| 0 <= k < i ==> match load_position(ord, #[trigger] mods@[k].name@) {
                Some(p) => 0 <= p < order@.len(),
                None => true,
            },
        decreases mods@.len() - i,
    {
        let p = position_in(order, &mods[i].name);
        proof {
            ord.index_of_first_ensures(mods@[i as int].name@);
        }
        pos.push(p);
        i = i + 1;
    }
    let mut sorted: Vec<usize> = Vec::new();
    let ghost mut seen: Seq<int> = Seq::empty();
    i = 0;
    while i < mods.len()
        invariant
            ord == texts(order@),
            i <= mods@.len(),
            pos@.len() == mods@.len(),
            forall|k: int| 0 <= k < mods@.len() ==> pos_matches(#[trigger] pos@[k], load_position(ord, mods@[k].name@)),
            forall|k: int| 0 <= k < mods@.len() ==> match load_position(ord, #[trigger] mods@[k].name@) {
                Some(p) => 0 <= p < order@.len(),
                None => true,
            },
            seen == usable_prefix(mods@, i as int),
            sorted@.map_values(|k: usize| k as int) == sort_by_load(mods@, ord, seen),
            forall|k: int| 0 <= k < sorted@.len() ==> #[trigger] sorted@[k] < i,
        decreases mods@.len() - i,
    {
        if mods[i].enabled && mods[i].error.is_none() {
            let mut p: usize = 0;
            while p < sorted.len() && !loads_before_exec(mods, order, &pos, i, sorted[p])
                invariant
                    ord == texts(order@),
                    i < mods@.len(),
                    pos@.len() == mods@.len(),
                    forall|k: int| 0 <= k < mods@.len() ==> pos_matches(#[trigger] pos@[k], load_position(ord, mods@[k].name@)),
                    forall|k: int| 0 <= k < mods@.len() ==> match load_position(ord, #[trigger] mods@[k].name@) {
                        Some(p) => 0 <= p < order@.len(),
                        None => true,
                    },
                    forall|k: int| 0 <= k < sorted@.len() ==> #[trigger] sorted@[k] < i,
                    p <= sorted@.len(),
                    forall|q: int| 0 <= q < p ==> !loads_before(mods@, ord, i as int, #[trigger] sorted@[q] as int),
                decreases sorted@.len() - p,
            {
                p = p + 1;
            }
            let ghost old_sorted = sorted@.map_values(|k: usize| k as int);
            proof {
                let s = old_sorted;
                assert forall|q: int| 0 <= q < p implies !loads_before(mods@, ord, i as int, #[trigger] s[q]) by {
                    assert(s[q] == sorted@[q] as int);
                }
                if p < s.len() {
                    assert(s[p as int] == sorted@[p as int] as int);
                }
                lemma_insert_by_load(mods@, ord, i as int, s, p as int);
            }
            sorted.insert(p, i);
            proof {
                seen = seen.push(i as int);
                assert(seen.drop_last() =~= usable_prefix(mods@, i as int));
                assert(sorted@.map_values(|k: usize| k as int) =~= old_sorted.take(p as int).push(i as int) + old_sorted.skip(p as int));
            }
        }
        proof {
            assert(seen == usable_prefix(mods@, i + 1));
        }
        i = i + 1;
    }
    proof {
        lemma_usable_prefix_bounds(mods@, mods@.len() as int);
    }
    sorted
}

/// The providers listed for asset `a` in `g`, if `g` lists it.
pub open spec fn providers_of(g: Seq<(Seq<char>, Seq<Seq<char>>)>, a: Seq<char>) -> Option<Seq<Seq<char>>> {
    if exists|k: int| 0 <= k < g.len() && #[trigger] g[k].0 == a {
        Some(g[choose|k: int| 0 <= k < g.len() && #[trigger] g[k].0 == a].1)
    } else {
        None
    }
}

/// The mod that wins asset `a`: its last provider in load order.
pub open spec fn winner_of(g: Seq<(Seq<char>, Seq<Seq<char>>)>, a: Seq<char>) -> Option<Seq<char>> {
    match providers_of(g, a) {
        Some(p) => if p.len() > 0 { Some(p.last()) } else { None },
        None => None,
    }
}

/// The entries of `g` with at least two providers, in order.
pub open spec fn contested(g: Seq<(Seq<char>, Seq<Seq<char>>)>) -> Seq<(Seq<char>, Seq<Seq<char>>)>
    decreases g.len(),
{
    if g.len() == 0 {
        Seq::empty()
    } else {
        let prev = contested(g.drop_last());
        if g.last().1.len() >= 2 {
            prev.push(g.last())
        } else {
            prev
        }
    }
}

/// The view of an entry.
pub open spec fn entry_view(e: ProviderEntry) -> (Seq<char>, Seq<Seq<char>>) {
    (e.asset@, texts(e.providers@))
}

/// The providers of asset `a` when mod `x` has only contributed its first
/// `i` assets after the mods of `prefix`.
pub open spec fn partial_providers(mods: Seq<ModFile>, prefix: Seq<int>, x: int, i: int, a: Seq<char>) -> Seq<Seq<char>> {
    if mods[x].assets@.take(i).contains(a) {
        add_provider(providers_along(mods, prefix, a), mods[x].name@)
    } else {
        providers_along(mods, prefix, a)
    }
}

pub open spec fn partial_provided(mods: Seq<ModFile>, prefix: Seq<int>, x: int, i: int, a: Seq<char>) -> bool {
    provided_along(mods, prefix, a) || mods[x].assets@.take(i).contains(a)
}

pub open spec fn partial_graph(g: Seq<(Seq<char>, Seq<Seq<char>>)>, mods: Seq<ModFile>, prefix: Seq<int>, x: int, i: int) -> bool {
    &&& strictly_sorted(g.map_values(|e: (Seq<char>, Seq<Seq<char>>)| e.0))
    &&& forall|k: int| 0 <= k < g.len() ==> partial_provided(mods, prefix, x, i, #[trigger] g[k].0) && g[k].1 == partial_providers(mods, prefix, x, i, g[k].0)
    &&& forall|a: Seq<char>| #[trigger] partial_provided(mods, prefix, x, i, a) ==> exists|k: int| 0 <= k < g.len() && #[trigger] g[k].0 == a
}

proof fn lemma_not_provided_empty(mods: Seq<ModFile>, seq: Seq<int>, a: Seq<char>)
    requires
        !provided_along(mods, seq, a),
    ensures
        providers_along(mods, seq, a) == Seq::<Seq<char>>::empty(),
    decreases seq.len(),
{
    if seq.len() > 0 {
        let p = seq.drop_last();
        assert(!provided_along(mods, p, a)) by {
            if provided_along(mods, p, a) {
                let k = choose|k: int| 0 <= k < p.len() && #[trigger] mods[p[k]].assets@.contains(a);
                assert(mods[seq[k]].assets@.contains(a));
            }
        }
        lemma_not_provided_empty(mods, p, a);
        assert(!mods[seq[seq.len() - 1]].assets@.contains(a));
    }
}

proof fn lemma_provided_push(mods: Seq<ModFile>, seq: Seq<int>, x: int, a: Seq<char>)
    ensures
        provided_along(mods, seq.push(x), a) == (provided_along(mods, seq, a) || mods[x].assets@.contains(a)),
        providers_along(mods, seq.push(x), a) == (if mods[x].assets@.contains(a) {
            add_provider(providers_along(mods, seq, a), mods[x].name@)
        } else {
            providers_along(mods, seq, a)
        }),
{
    let q = seq.push(x);
    assert(q.drop_last() =~= seq);
    if provided_along(mods, q, a) {
        let k = choose|k: int| 0 <= k < q.len() && #[trigger] mods[q[k]].assets@.contains(a);
        if k < seq.len() {
            assert(mods[seq[k]].assets@.contains(a));
        }
    }
    if provided_along(mods, seq, a) {
        let k = choose|k: int| 0 <= k < seq.len() && #[trigger] mods[seq[k]].assets@.contains(a);
        assert(mods[q[k]].assets@.contains(a));
    }
    if mods[x].assets@.contains(a) {
        assert(mods[q[seq.len() as int]].assets@.contains(a));
    }
}


proof fn lemma_contains_push(s: Seq<Seq<char>>, x: Seq<char>, y: Seq<char>)
    ensures
        s.push(x).contains(y) == (s.contains(y) || x == y),
{
    if s.push(x).contains(y) {
        let k = choose|k: int| 0 <= k < s.push(x).len() && s.push(x)[k] == y;
        if k < s.len() {
            assert(s[k] == y);
        }
    }
    if s.contains(y) {
        let k = choose|k: int| 0 <= k < s.len() && s[k] == y;
        assert(s.push(x)[k] == y);
    }
    if x == y {
        assert(s.push(x)[s.len() as int] == y);
    }
}

proof fn lemma_partial_step(mods: Seq<ModFile>, prefix: Seq<int>, x: int, i: int, av: Seq<char>, b: Seq<char>)
    requires
        0 <= i < mods[x].assets@.len(),
        mods[x].assets@[i] == av,
        !mods[x].assets@.take(i).contains(av),
    ensures
        b != av ==> partial_provided(mods, prefix, x, i + 1, b) == partial_provided(mods, prefix, x, i, b),
        b != av ==> partial_providers(mods, prefix, x, i + 1, b) == partial_providers(mods, prefix, x, i, b),
        partial_provided(mods, prefix, x, i + 1, av),
        partial_providers(mods, prefix, x, i + 1, av) == add_provider(providers_along(mods, prefix, av), mods[x].name@),
        partial_providers(mods, prefix, x, i, av) == providers_along(mods, prefix, av),
{
    let t = mods[x].assets@.take(i);
    assert(mods[x].assets@.take(i + 1) =~= t.push(av));
    lemma_contains_push(t, av, b);
    lemma_contains_push(t, av, av);
}

fn contains_name(list: &Vec<String>, name: &String) -> (r: bool)
    ensures
        r == texts(list@).contains(name@),
{
    let mut i: usize = 0;
    while i < list.len()
        invariant
            i <= list@.len(),
            forall|j: int| 0 <= j < i ==> texts(list@)[j] != name@,
        decreases list@.len() - i,
    {
        if list[i] == *name {
            assert(texts(list@)[i as int] == name@);
            return true;
        }
        i = i + 1;
    }
    false
}

impl ConflictGraph {
    #[verifier::type_invariant]
    spec fn well_formed(self) -> bool {
        &&& self.assets@.len() == self.lists@.len()
        &&& strictly_sorted(texts(self.assets@))
    }

    proof fn lemma_keys(self)
        requires
            self.assets@.len() == self.lists@.len(),
        ensures
            self@.map_values(|e: (Seq<char>, Seq<Seq<char>>)| e.0) == texts(self.assets@),
            self@.len() == self.assets@.len(),
    {
        assert(self@.map_values(|e: (Seq<char>, Seq<Seq<char>>)| e.0) =~= texts(self.assets@));
    }

    /// Maps every asset that an enabled, listable mod provides to the names
    /// of its providers in load order: mods that appear in `order` load by
    /// their first position there, the rest after them by name, mods with
    /// equal keys in the order of `mods`.
    pub fn build(mods: &[ModFile], order: &[String]) -> (g: ConflictGraph)
        ensures
            graph_of(g@, mods@, load_sequence(mods@, texts(order@))),
    {
        let seq = load_sequence_exec(mods, order);
        let ghost lseq = seq@.map_values(|k: usize| k as int);
        let mut assets: Vec<String> = Vec::new();
        let mut lists: Vec<Vec<String>> = Vec::new();
        let mut t: usize = 0;
        proof {
            let g0 = ConflictGraph { assets, lists };
            g0.lemma_keys();
            assert(lseq.take(0) =~= Seq::<int>::empty());
            assert forall|a: Seq<char>| !provided_along(mods@, lseq.take(0), a) by {}
        }
        while t < seq.len()
            invariant
                lseq == seq@.map_values(|k: usize| k as int),
                forall|k: int| 0 <= k < seq@.len() ==> #[trigger] seq@[k] < mods@.len(),
                t <= seq@.len(),
                assets@.len() == lists@.len(),
                strictly_sorted(texts(assets@)),
                graph_of((ConflictGraph { assets, lists })@, mods@, lseq.take(t as int)),
            decreases seq@.len() - t,
        {
            let x: usize = seq[t];
            let m = &mods[x];
            m.assets.prove_sorted();
            let ghost prefix = lseq.take(t as int);
            let mut i: usize = 0;
            proof {
                assert(m.assets@.take(0) =~= Seq::<Seq<char>>::empty());
                let g = (ConflictGraph { assets, lists })@;
                assert forall|k: int| 0 <= k < g.len() implies partial_provided(mods@, prefix, x as int, 0, #[trigger] g[k].0) && g[k].1 == partial_providers(mods@, prefix, x as int, 0, g[k].0) by {}
                assert forall|a: Seq<char>| #[trigger] partial_provided(mods@, prefix, x as int, 0, a) implies exists|k: int| 0 <= k < g.len() && #[trigger] g[k].0 == a by {}
            }
            while i < m.assets.len()
                invariant
                    lseq == seq@.map_values(|k: usize| k as int),
                    forall|k: int| 0 <= k < seq@.len() ==> #[trigger] seq@[k] < mods@.len(),
                    t < seq@.len(),
                    x == seq@[t as int],
                    *m == mods@[x as int],
                    prefix == lseq.take(t as int),
                    strictly_sorted(m.assets@),
                    i <= m.assets@.len(),
                    assets@.len() == lists@.len(),
                    strictly_sorted(texts(assets@)),
                    partial_graph((ConflictGraph { assets, lists })@, mods@, prefix, x as int, i as int),
                decreases m.assets@.len() - i,
            {
                let a = m.assets.get(i);
                let ghost av = a@;
                let ghost g = (ConflictGraph { assets, lists })@;
                proof {
                    (ConflictGraph { assets, lists }).lemma_keys();
                    assert(m.assets@.take(i + 1) =~= m.assets@.take(i as int).push(av));
                    assert(!m.assets@.take(i as int).contains(av)) by {
                        if m.assets@.take(i as int).contains(av) {
                            let j = choose|j: int| 0 <= j < i && m.assets@.take(i as int)[j] == av;
                            assert(m.assets@[j] == av);
                            crate::text::lemma_text_lt_irreflexive(av);
                        }
                    }
                }
                let pos = sorted_position(&assets, a.as_str());
                proof {
                    lemma_sorted_found(texts(assets@), av, pos as int);
                }
                let mut found = false;
                if pos < assets.len() {
                    proof {
                        lemma_texts_index(assets@, pos as int);
                    }
                    found = compare_text(assets[pos].as_str(), a.as_str()) == Order3::Same;
                }
                if found {
                    assert(g[pos as int].0 == av);
                    let ghost old_lists = lists@;
                    let already = contains_name(&lists[pos], &m.name);
                    if !already {
                        let nm = m.name.clone();
                        lists[pos].push(nm);
                    }
                    proof {
                        lemma_partial_step(mods@, prefix, x as int, i as int, av, av);
                        assert(g[pos as int].1 == providers_along(mods@, prefix, av));
                        assert(texts(lists@[pos as int]@) =~= add_provider(g[pos as int].1, m.name@));
                        let g2 = (ConflictGraph { assets, lists })@;
                        assert(g2.len() == g.len());
                        assert forall|k: int| 0 <= k < g2.len() implies partial_provided(mods@, prefix, x as int, i + 1, #[trigger] g2[k].0) && g2[k].1 == partial_providers(mods@, prefix, x as int, i + 1, g2[k].0) by {
                            if k != pos {
                                assert(lists@[k] == old_lists[k]);
                                assert(g2[k] == g[k]);
                                assert(g[k].0 != av) by {
                                    assert(texts(assets@)[k] == g[k].0);
                                    assert(texts(assets@)[pos as int] == av);
                                    if g[k].0 == av {
                                        if k < pos {
                                            assert(crate::text::text_lt(texts(assets@)[k], texts(assets@)[pos as int]));
                                        } else {
                                            assert(crate::text::text_lt(texts(assets@)[pos as int], texts(assets@)[k]));
                                        }
                                        crate::text::lemma_text_lt_irreflexive(av);
                                    }
                                }
                                lemma_partial_step(mods@, prefix, x as int, i as int, av, g[k].0);
                            }
                        }
                        assert forall|b: Seq<char>| #[trigger] partial_provided(mods@, prefix, x as int, i + 1, b) implies exists|k: int| 0 <= k < g2.len() && #[trigger] g2[k].0 == b by {
                            if b == av {
                                assert(g2[pos as int].0 == b);
                            } else {
                                lemma_partial_step(mods@, prefix, x as int, i as int, av, b);
                                assert(partial_provided(mods@, prefix, x as int, i as int, b));
                                let k = choose|k: int| 0 <= k < g.len() && #[trigger] g[k].0 == b;
                                assert(g2[k].0 == b);
                            }
                        }
                        (ConflictGraph { assets, lists }).lemma_keys();
                    }
                } else {
                    proof {
                        assert(!partial_provided(mods@, prefix, x as int, i as int, av)) by {
                            if partial_provided(mods@, prefix, x as int, i as int, av) {
                                let k = choose|k: int| 0 <= k < g.len() && #[trigger] g[k].0 == av;
                                assert(texts(assets@)[k] == av);
                            }
                        }
                        lemma_not_provided_empty(mods@, prefix, av);
                        lemma_sorted_insert(texts(assets@), av, pos as int);
                    }
                    let ghost old_assets = assets@;
                    let ghost old_lists = lists@;
                    assets.insert(pos, a.clone());
                    let mut fresh: Vec<String> = Vec::new();
                    fresh.push(m.name.clone());
                    lists.insert(pos, fresh);
                    proof {
                        assert(texts(assets@) =~= texts(old_assets).insert(pos as int, av));
                        let g2 = (ConflictGraph { assets, lists })@;
                        assert forall|k: int| 0 <= k < g2.len() implies partial_provided(mods@, prefix, x as int, i + 1, #[trigger] g2[k].0) && g2[k].1 == partial_providers(mods@, prefix, x as int, i + 1, g2[k].0) by {
                            if k == pos {
                                lemma_partial_step(mods@, prefix, x as int, i as int, av, av);
                                assert(texts(lists@[k]@) =~= seq![m.name@]);
                                assert(Seq::<Seq<char>>::empty().push(m.name@) =~= seq![m.name@]);
                            } else if k < pos {
                                assert(lists@[k] == old_lists[k]);
                                assert(g2[k] == g[k]);
                                assert(texts(old_assets)[k] == g[k].0);
                                lemma_partial_step(mods@, prefix, x as int, i as int, av, g[k].0);
                            } else {
                                assert(lists@[k] == old_lists[k - 1]);
                                assert(g2[k] == g[k - 1]);
                                assert(texts(old_assets)[k - 1] == g[k - 1].0);
                                lemma_partial_step(mods@, prefix, x as int, i as int, av, g[k - 1].0);
                            }
                        }
                        assert forall|b: Seq<char>| #[trigger] partial_provided(mods@, prefix, x as int, i + 1, b) implies exists|k: int| 0 <= k < g2.len() && #[trigger] g2[k].0 == b by {
                            if b == av {
                                assert(g2[pos as int].0 == b);
                            } else {
                                lemma_partial_step(mods@, prefix, x as int, i as int, av, b);
                                assert(partial_provided(mods@, prefix, x as int, i as int, b));
                                let k = choose|k: int| 0 <= k < g.len() && #[trigger] g[k].0 == b;
                                if k < pos {
                                    assert(g2[k].0 == b);
                                } else {
                                    assert(g2[k + 1].0 == b);
                                }
                            }
                        }
                        (ConflictGraph { assets, lists }).lemma_keys();
                    }
                }
                i = i + 1;
            }
            proof {
                assert(m.assets@.take(i as int) =~= m.assets@);
                assert(lseq.take(t + 1) =~= prefix.push(x as int));
                let g = (ConflictGraph { assets, lists })@;
                let q = lseq.take(t + 1);
                assert forall|k: int| 0 <= k < g.len() implies provided_along(mods@, q, #[trigger] g[k].0) && g[k].1 == providers_along(mods@, q, g[k].0) by {
                    lemma_provided_push(mods@, prefix, x as int, g[k].0);
                }
                assert forall|a: Seq<char>| #[trigger] provided_along(mods@, q, a) implies exists|k: int| 0 <= k < g.len() && #[trigger] g[k].0 == a by {
                    lemma_provided_push(mods@, prefix, x as int, a);
                    assert(partial_provided(mods@, prefix, x as int, i as int, a));
                }
            }
            t = t + 1;
        }
        proof {
            assert(lseq.take(t as int) =~= lseq);
        }
        ConflictGraph { assets, lists }
    }

    fn entry_at(&self, k: usize) -> (e: ProviderEntry)
        requires
            k < self@.len(),
            self.assets@.len() == self.lists@.len(),
        ensures
            entry_view(e) == self@[k as int],
    {
        let asset = self.assets[k].clone();
        let mut providers: Vec<String> = Vec::new();
        let mut i: usize = 0;
        while i < self.lists[k].len()
            invariant
                k < self.lists@.len(),
                i <= self.lists@[k as int]@.len(),
                providers@.len() == i,
                forall|j: int| 0 <= j < i ==> #[trigger] providers@[j]@ == self.lists@[k as int]@[j]@,
            decreases self.lists@[k as int]@.len() - i,
        {
            providers.push(self.lists[k][i].clone());
            i = i + 1;
        }
        let e = ProviderEntry { asset, providers };
        assert(texts(e.providers@) =~= texts(self.lists@[k as int]@));
        e
    }

    /// Every asset with its providers, by increasing asset.
    pub fn providers(&self) -> (r: Vec<ProviderEntry>)
        ensures
            r@.map_values(|e: ProviderEntry| entry_view(e)) == self@,
    {
        proof {
            use_type_invariant(self);
        }
        let mut r: Vec<ProviderEntry> = Vec::new();
        let mut k: usize = 0;
        while k < self.assets.len()
            invariant
                self.assets@.len() == self.lists@.len(),
                k <= self.assets@.len(),
                r@.map_values(|e: ProviderEntry| entry_view(e)) == self@.take(k as int),
            decreases self.assets@.len() - k,
        {
            let e = self.entry_at(k);
            let ghost ev = entry_view(e);
            let ghost prev = r@;
            r.push(e);
            assert(r@ == prev.push(e));
            assert(r@.map_values(|e: ProviderEntry| entry_view(e)) =~= prev.map_values(|e: ProviderEntry| entry_view(e)).push(ev));
            assert(self@.take(k + 1) =~= self@.take(k as int).push(self@[k as int]));
            k = k + 1;
        }
        assert(self@.take(k as int) =~= self@);
        r
    }

    /// The assets that two or more mods provide, by increasing asset.
    pub fn conflicting(&self) -> (r: Vec<ProviderEntry>)
        ensures
            r@.map_values(|e: ProviderEntry| entry_view(e)) == contested(self@),
    {
        proof {
            use_type_invariant(self);
        }
        let mut r: Vec<ProviderEntry> = Vec::new();
        let mut k: usize = 0;
        assert(self@.take(0) =~= Seq::<(Seq<char>, Seq<Seq<char>>)>::empty());
        while k < self.assets.len()
            invariant
                self.assets@.len() == self.lists@.len(),
                k <= self.assets@.len(),
                r@.map_values(|e: ProviderEntry| entry_view(e)) == contested(self@.take(k as int)),
            decreases self.assets@.len() - k,
        {
            assert(self@.take(k + 1).drop_last() =~= self@.take(k as int));
            if self.lists[k].len() >= 2 {
                let e = self.entry_at(k);
                r.push(e);
                assert(r@.map_values(|e: ProviderEntry| entry_view(e)) =~= contested(self@.take(k as int)).push(self@[k as int]));
            }
            k = k + 1;
        }
        assert(self@.take(k as int) =~= self@);
        r
    }

    /// The mod that wins `asset`: the last of its providers in load order.
    pub fn winner(&self, asset: &str) -> (r: Option<&String>)
        ensures
            match r {
                Some(w) => winner_of(self@, asset@) == Some(w@),
                None => winner_of(self@, asset@) is None,
            },
    {
        proof {
            use_type_invariant(self);
            self.lemma_keys();
        }
        let ghost g = self@;
        let pos = sorted_position(&self.assets, asset);
        proof {
            lemma_sorted_found(texts(self.assets@), asset@, pos as int);
        }
        let mut found = false;
        if pos < self.assets.len() {
            proof {
                lemma_texts_index(self.assets@, pos as int);
            }
            found = compare_text(self.assets[pos].as_str(), asset) == Order3::Same;
        }
        if found {
            proof {
                assert(g[pos as int].0 == asset@);
                let c = choose|k: int| 0 <= k < g.len() && #[trigger] g[k].0 == asset@;
                if c != pos {
                    assert(texts(self.assets@)[c] == asset@);
                    if c < pos {
                        assert(text_lt(texts(self.assets@)[c], texts(self.assets@)[pos as int]));
                    } else {
                        assert(text_lt(texts(self.assets@)[pos as int], texts(self.assets@)[c]));
                    }
                    crate::text::lemma_text_lt_irreflexive(asset@);
                }
            }
            let n = self.lists[pos].len();
            if n > 0 {
                Some(&self.lists[pos][n - 1])
            } else {
                None
            }
        } else {
            proof {
                if exists|k: int| 0 <= k < g.len() && #[trigger] g[k].0 == asset@ {
                    let c = choose|k: int| 0 <= k < g.len() && #[trigger] g[k].0 == asset@;
                    assert(texts(self.assets@)[c] == asset@);
                    assert(texts(self.assets@).contains(asset@));
                }
            }
            None
        }
    }
}

/// The conflict graph is determined by the mods and their load sequence:
/// two graphs of the same mods and sequence are equal.
pub proof fn law_graph_unique(g1: Seq<(Seq<char>, Seq<Seq<char>>)>, g2: Seq<(Seq<char>, Seq<Seq<char>>)>, mods: Seq<ModFile>, seq: Seq<int>)
    requires
        graph_of(g1, mods, seq),
        graph_of(g2, mods, seq),
    ensures
        g1 == g2,
{
    let k1 = g1.map_values(|e: (Seq<char>, Seq<Seq<char>>)| e.0);
    let k2 = g2.map_values(|e: (Seq<char>, Seq<Seq<char>>)| e.0);
    assert forall|x: Seq<char>| k1.to_set().contains(x) <==> k2.to_set().contains(x) by {
        if k1.to_set().contains(x) {
            let i = choose|i: int| 0 <= i < k1.len() && k1[i] == x;
            assert(provided_along(mods, seq, g1[i].0));
            let j = choose|j: int| 0 <= j < g2.len() && #[trigger] g2[j].0 == x;
            assert(k2[j] == x);
        }
        if k2.to_set().contains(x) {
            let i = choose|i: int| 0 <= i < k2.len() && k2[i] == x;
            assert(provided_along(mods, seq, g2[i].0));
            let j = choose|j: int| 0 <= j < g1.len() && #[trigger] g1[j].0 == x;
            assert(k1[j] == x);
        }
    }
    assert(k1.to_set() =~= k2.to_set());
    crate::text::lemma_strictly_sorted_unique(k1, k2);
    assert forall|i: int| 0 <= i < g1.len() implies #[trigger] g1[i] == g2[i] by {
        assert(k1[i] == k2[i]);
    }
    assert(g1 =~= g2);
}

} // verus!
