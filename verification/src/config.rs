//! The load order in the game's config, `shipofharkinian.json`: the
//! string `CVars.gSettings.EnabledMods`, mod names joined by `|`.

use vstd::prelude::*;
use crate::json::{Json, member, member_index, get, get_member, find_member, lemma_member_index, lemma_member_index_same_keys, lemma_member_push};
use crate::text::{texts, string_from_chars};

verus! {

/// The text `|` cuts into pieces, as `str::split('|')` cuts it.
pub open spec fn split_pipes(t: Seq<char>) -> Seq<Seq<char>>
    decreases t.len(),
{
    if t.len() == 0 {
        seq![Seq::empty()]
    } else {
        let p = split_pipes(t.drop_last());
        if t.last() == '|' {
            p.push(Seq::empty())
        } else {
            p.update(p.len() - 1, p.last().push(t.last()))
        }
    }
}

/// The pieces that are not empty, in order.
pub open spec fn non_empty(s: Seq<Seq<char>>) -> Seq<Seq<char>>
    decreases s.len(),
{
    if s.len() == 0 {
        Seq::empty()
    } else if s.last().len() == 0 {
        non_empty(s.drop_last())
    } else {
        non_empty(s.drop_last()).push(s.last())
    }
}

/// The mod names of an `EnabledMods` text.
pub open spec fn order_names(t: Seq<char>) -> Seq<Seq<char>> {
    non_empty(split_pipes(t))
}

/// The `EnabledMods` text of a config, where it is a string.
pub open spec fn enabled_mods(root: Json) -> Option<Seq<char>> {
    match get(root, "CVars"@) {
        Some(c) => match get(c, "gSettings"@) {
            Some(g) => match get(g, "EnabledMods"@) {
                Some(Json::String(s)) => Some(s@),
                _ => None,
            },
            None => None,
        },
        None => None,
    }
}

/// The load order a config holds: none where it has no `EnabledMods`
/// string.
pub open spec fn config_order(root: Json) -> Seq<Seq<char>> {
    match enabled_mods(root) {
        Some(t) => order_names(t),
        None => Seq::empty(),
    }
}

proof fn lemma_split_nonempty(t: Seq<char>)
    ensures
        split_pipes(t).len() >= 1,
    decreases t.len(),
{
    if t.len() > 0 {
        lemma_split_nonempty(t.drop_last());
    }
}

/// Reads the load order out of a config: the names of
/// `CVars.gSettings.EnabledMods` between `|`, empty ones dropped.
pub fn order_from_json(root: &Json) -> (r: Vec<String>)
    ensures
        texts(r@) == config_order(*root),
{
    let mut names: Vec<String> = Vec::new();
    let text = match get_member(root, "CVars") {
        Some(c) => match get_member(c, "gSettings") {
            Some(g) => match get_member(g, "EnabledMods") {
                Some(Json::String(s)) => s,
                _ => return names,
            },
            None => return names,
        },
        None => return names,
    };
    let mut cur: Vec<char> = Vec::new();
    proof {
        assert(text@.take(0) =~= Seq::<char>::empty());
        assert(split_pipes(Seq::<char>::empty()).drop_last() =~= Seq::<Seq<char>>::empty());
    }
    for ch in it: text.chars()
        invariant
            it.seq() == text@,
            cur@ == split_pipes(text@.take(it.index())).last(),
            texts(names@) == non_empty(split_pipes(text@.take(it.index())).drop_last()),
    {
        let ghost pre = text@.take(it.index());
        let ghost post = text@.take(it.index() + 1);
        proof {
            assert(post.drop_last() =~= pre);
            assert(post.last() == ch);
            lemma_split_nonempty(pre);
        }
        if ch == '|' {
            let ghost p = split_pipes(pre);
            let ghost before = names@;
            if cur.len() > 0 {
                names.push(string_from_chars(cur.as_slice()));
            }
            cur = Vec::new();
            proof {
                assert(split_pipes(post) == p.push(Seq::empty()));
                assert(split_pipes(post).drop_last() =~= p);
                assert(p.drop_last().push(p.last()) =~= p);
                assert(texts(names@) =~= non_empty(p)) by {
                    assert(p.last() == p.drop_last().push(p.last()).last());
                    assert(p.drop_last().push(p.last()).drop_last() =~= p.drop_last());
                }
            }
        } else {
            cur.push(ch);
            proof {
                let p = split_pipes(pre);
                assert(split_pipes(post) == p.update(p.len() - 1, p.last().push(ch)));
                assert(split_pipes(post).drop_last() =~= p.drop_last());
            }
        }
    }
    proof {
        assert(text@.take(text@.len() as int) =~= text@);
        lemma_split_nonempty(text@);
    }
    let ghost p = split_pipes(text@);
    let ghost before = names@;
    if cur.len() > 0 {
        names.push(string_from_chars(cur.as_slice()));
    }
    proof {
        assert(p.drop_last().push(p.last()) =~= p);
        assert(p.last() == p.drop_last().push(p.last()).last());
        assert(p.drop_last().push(p.last()).drop_last() =~= p.drop_last());
        assert(texts(names@) =~= non_empty(p));
    }
    names
}

/// A name as written into `EnabledMods`: its `|` turned into `-`.
pub open spec fn dashed(s: Seq<char>) -> Seq<char> {
    s.map_values(|c: char| if c == '|' { '-' } else { c })
}

/// The `EnabledMods` text of a load order.
pub open spec fn joined(order: Seq<Seq<char>>) -> Seq<char>
    decreases order.len(),
{
    if order.len() == 0 {
        Seq::empty()
    } else if order.len() == 1 {
        dashed(order[0])
    } else {
        joined(order.drop_last()) + seq!['|'] + dashed(order.last())
    }
}

/// The `EnabledMods` text of a load order: the names, each with `|`
/// turned into `-`, joined by `|`.
pub fn join_order(order: &[String]) -> (r: String)
    ensures
        r@ == joined(texts(order@)),
{
    let mut out: Vec<char> = Vec::new();
    let mut i: usize = 0;
    while i < order.len()
        invariant
            i <= order@.len(),
            out@ == joined(texts(order@).take(i as int)),
        decreases order@.len() - i,
    {
        let ghost before = out@;
        if i > 0 {
            out.push('|');
        }
        let ghost mid = out@;
        let name = order[i].as_str();
        for c in it: name.chars()
            invariant
                it.seq() == name@,
                out@ == mid + dashed(name@.take(it.index())),
        {
            let d: char = if c == '|' { '-' } else { c };
            proof {
                assert(dashed(name@.take(it.index() + 1)) =~= dashed(name@.take(it.index())).push(d));
            }
            out.push(d);
        }
        proof {
            assert(name@.take(name@.len() as int) =~= name@);
            let t = texts(order@).take(i + 1);
            assert(t.drop_last() =~= texts(order@).take(i as int));
            assert(t.last() == name@);
            if i == 0 {
                assert(out@ =~= dashed(name@));
            } else {
                assert(out@ =~= before + seq!['|'] + dashed(name@));
            }
        }
        i = i + 1;
    }
    assert(texts(order@).take(i as int) =~= texts(order@));
    string_from_chars(out.as_slice())
}

/// The value is the string `t`.
pub open spec fn is_text(v: Json, t: Seq<char>) -> bool {
    v matches Json::String(s) && s@ == t
}

/// `new` is `old` with the member `key` set to the string `t`: in place
/// where `old` has it, appended where not.
pub open spec fn text_member_set(old: Seq<(String, Json)>, new: Seq<(String, Json)>, key: Seq<char>, t: Seq<char>) -> bool {
    match member_index(old, key) {
        Some(i) => {
            &&& new.len() == old.len()
            &&& new[i].0 == old[i].0
            &&& is_text(new[i].1, t)
            &&& forall|j: int| 0 <= j < old.len() && j != i ==> #[trigger] new[j] == old[j]
        },
        None => {
            &&& new.len() == old.len() + 1
            &&& new.take(old.len() as int) == old
            &&& new.last().0@ == key
            &&& is_text(new.last().1, t)
        },
    }
}

/// `new` differs from `old` only in the value at `i`.
pub open spec fn changed_at(old: Seq<(String, Json)>, new: Seq<(String, Json)>, i: int) -> bool {
    &&& 0 <= i < old.len()
    &&& new.len() == old.len()
    &&& new[i].0 == old[i].0
    &&& forall|j: int| 0 <= j < old.len() && j != i ==> #[trigger] new[j] == old[j]
}

/// The config has a `CVars.gSettings` member to write into.
pub open spec fn has_gsettings(root: Json) -> bool {
    get(root, "CVars"@) matches Some(c) && get(c, "gSettings"@) is Some
}

/// Writing into `CVars.gSettings` works: where it exists it is an object
/// or `null`. (Other values make the write panic.)
pub open spec fn settable(root: Json) -> bool {
    has_gsettings(root) ==> {
        let g = get(get(root, "CVars"@)->0, "gSettings"@)->0;
        g is Object || g is Null
    }
}

/// `new` is the config `old` with `CVars.gSettings.EnabledMods` set to
/// `t`, and nothing else changed; a `null` `gSettings` becomes an object
/// that holds only `EnabledMods`.
pub open spec fn order_written(old: Json, new: Json, t: Seq<char>) -> bool {
    &&& old matches Json::Object(f)
    &&& new matches Json::Object(f2)
    &&& member_index(f@, "CVars"@) matches Some(ci)
    &&& changed_at(f@, f2@, ci)
    &&& f@[ci].1 matches Json::Object(g)
    &&& f2@[ci].1 matches Json::Object(g2)
    &&& member_index(g@, "gSettings"@) matches Some(gi)
    &&& changed_at(g@, g2@, gi)
    &&& g2@[gi].1 matches Json::Object(h2)
    &&& match g@[gi].1 {
        Json::Object(h) => text_member_set(h@, h2@, "EnabledMods"@, t),
        Json::Null => h2@.len() == 1 && h2@[0].0@ == "EnabledMods"@ && is_text(h2@[0].1, t),
        _ => false,
    }
}

fn set_text_member(fields: &mut Vec<(String, Json)>, key: &str, t: String)
    ensures
        text_member_set(old(fields)@, final(fields)@, key@, t@),
{
    let ghost f0 = fields@;
    match find_member(fields, key) {
        Some(i) => {
            let (k, _) = fields.remove(i);
            fields.insert(i, (k, Json::String(t)));
            assert forall|j: int| 0 <= j < f0.len() && j != i implies #[trigger] fields@[j] == f0[j] by {
                if j < i {
                    assert(fields@[j] == f0[j]);
                } else {
                    assert(fields@[j] == f0[j]);
                }
            }
        },
        None => {
            let k = key.to_owned();
            fields.push((k, Json::String(t)));
            assert(fields@.take(f0.len() as int) =~= f0);
        },
    }
}

/// Writes a load order into a config: `CVars.gSettings.EnabledMods`
/// becomes the names joined by `|` (each name's `|` turned into `-`);
/// every other member stays as it was. A config without
/// `CVars.gSettings` is refused.
pub fn set_enabled_mods(root: Json, order: &[String]) -> (r: Result<Json, String>)
    requires
        settable(root),
    ensures
        match r {
            Ok(j) => order_written(root, j, joined(texts(order@))),
            Err(e) => !has_gsettings(root) && e@ == "config has no CVars.gSettings object"@,
        },
        has_gsettings(root) ==> r is Ok,
{
    let text = join_order(order);
    let ghost old_root = root;
    match root {
        Json::Object(mut f) => match find_member(&f, "CVars") {
            Some(ci) => {
                let ghost f0 = f@;
                let (ck, cv) = f.remove(ci);
                match cv {
                    Json::Object(mut g) => match find_member(&g, "gSettings") {
                        Some(gi) => {
                            let ghost g0 = g@;
                            let (gk, gv) = g.remove(gi);
                            let new_g = match gv {
                                Json::Object(mut h) => {
                                    set_text_member(&mut h, "EnabledMods", text);
                                    Json::Object(h)
                                },
                                Json::Null => {
                                    let mut h: Vec<(String, Json)> = Vec::new();
                                    h.push(("EnabledMods".to_owned(), Json::String(text)));
                                    Json::Object(h)
                                },
                                _ => {
                                    return Err("config has no CVars.gSettings object".to_owned());
                                },
                            };
                            g.insert(gi, (gk, new_g));
                            f.insert(ci, (ck, Json::Object(g)));
                            proof {
                                assert forall|j: int| 0 <= j < g0.len() && j != gi implies #[trigger] g@[j] == g0[j] by {
                                    if j < gi {
                                        assert(g@[j] == g0[j]);
                                    } else {
                                        assert(g@[j] == g0[j]);
                                    }
                                }
                                assert forall|j: int| 0 <= j < f0.len() && j != ci implies #[trigger] f@[j] == f0[j] by {
                                    if j < ci {
                                        assert(f@[j] == f0[j]);
                                    } else {
                                        assert(f@[j] == f0[j]);
                                    }
                                }
                            }
                            Ok(Json::Object(f))
                        },
                        None => Err("config has no CVars.gSettings object".to_owned()),
                    },
                    _ => Err("config has no CVars.gSettings object".to_owned()),
                }
            },
            None => Err("config has no CVars.gSettings object".to_owned()),
        },
        _ => Err("config has no CVars.gSettings object".to_owned()),
    }
}

proof fn lemma_member_changed(old: Seq<(String, Json)>, new: Seq<(String, Json)>, i: int, key: Seq<char>)
    requires
        changed_at(old, new, i),
    ensures
        member_index(new, key) == member_index(old, key),
        member(new, key) == if member_index(old, key) == Some(i) { Some(new[i].1) } else { member(old, key) },
{
    assert forall|j: int| 0 <= j < old.len() implies (#[trigger] old[j]).0@ == new[j].0@ by {
        if j != i {
            assert(new[j] == old[j]);
        }
    }
    lemma_member_index_same_keys(old, new, key);
    lemma_member_index(old, key);
    lemma_member_index(new, key);
    if let Some(m) = member_index(old, key) {
        if m != i {
            assert(new[m] == old[m]);
        }
    }
}

proof fn lemma_text_member_set(old: Seq<(String, Json)>, new: Seq<(String, Json)>, key: Seq<char>, t: Seq<char>, k: Seq<char>)
    requires
        text_member_set(old, new, key, t),
    ensures
        k == key ==> (member(new, k) matches Some(v) && is_text(v, t)),
        k != key ==> member(new, k) == member(old, k),
{
    match member_index(old, key) {
        Some(i) => {
            lemma_member_index(old, key);
            assert(changed_at(old, new, i));
            lemma_member_changed(old, new, i, k);
            lemma_member_index(old, k);
            if k != key {
                if member_index(old, k) == Some(i) {
                    lemma_member_index(old, key);
                }
            }
        },
        None => {
            lemma_member_index(old, key);
            assert(new =~= old.push(new.last())) by {
                assert(new.take(old.len() as int) == old);
            }
            lemma_member_push(old, new.last(), k);
        },
    }
}

/// Writing the order changes nothing but `CVars.gSettings.EnabledMods`:
/// every other member of the root, of `CVars` and of `gSettings` keeps
/// its value, and `EnabledMods` holds the text written.
pub proof fn law_write_keeps_other_settings(old: Json, new: Json, t: Seq<char>)
    requires
        order_written(old, new, t),
    ensures
        enabled_mods(new) == Some(t),
        forall|k: Seq<char>| k != "CVars"@ ==> get(new, k) == get(old, k),
        forall|k: Seq<char>| k != "gSettings"@ ==> get(get(new, "CVars"@)->0, k) == get(get(old, "CVars"@)->0, k),
        get(get(old, "CVars"@)->0, "gSettings"@)->0 is Object ==> forall|k: Seq<char>| k != "EnabledMods"@
            ==> get(get(get(new, "CVars"@)->0, "gSettings"@)->0, k) == get(get(get(old, "CVars"@)->0, "gSettings"@)->0, k),
{
    let f = old->Object_0@;
    let f2 = new->Object_0@;
    let ci = member_index(f, "CVars"@)->0;
    let g = f[ci].1->Object_0@;
    let g2 = f2[ci].1->Object_0@;
    let gi = member_index(g, "gSettings"@)->0;
    let h2 = g2[gi].1->Object_0@;
    lemma_member_changed(f, f2, ci, "CVars"@);
    lemma_member_index(f, "CVars"@);
    lemma_member_changed(g, g2, gi, "gSettings"@);
    lemma_member_index(g, "gSettings"@);
    assert(get(new, "CVars"@) == Some(f2[ci].1));
    assert(get(old, "CVars"@) == Some(f[ci].1));
    assert(get(f2[ci].1, "gSettings"@) == Some(g2[gi].1));
    assert(get(f[ci].1, "gSettings"@) == Some(g[gi].1));
    match g[gi].1 {
        Json::Object(h) => {
            lemma_text_member_set(h@, h2, "EnabledMods"@, t, "EnabledMods"@);
            assert forall|k: Seq<char>| k != "EnabledMods"@ implies get(g2[gi].1, k) == get(g[gi].1, k) by {
                lemma_text_member_set(h@, h2, "EnabledMods"@, t, k);
            }
        },
        _ => {
            assert(h2.drop_first().len() == 0);
        },
    }
    assert forall|k: Seq<char>| k != "CVars"@ implies get(new, k) == get(old, k) by {
        lemma_member_changed(f, f2, ci, k);
        lemma_member_index(f, k);
    }
    assert forall|k: Seq<char>| k != "gSettings"@ implies get(f2[ci].1, k) == get(f[ci].1, k) by {
        lemma_member_changed(g, g2, gi, k);
        lemma_member_index(g, k);
    }
}

proof fn lemma_split_join(a: Seq<char>, b: Seq<char>)
    ensures
        split_pipes(a + seq!['|'] + b) == split_pipes(a) + split_pipes(b),
    decreases b.len(),
{
    let s = a + seq!['|'] + b;
    if b.len() == 0 {
        assert(s =~= a.push('|'));
        assert(s.drop_last() =~= a);
        assert(split_pipes(s) =~= split_pipes(a) + split_pipes(b));
    } else {
        assert(s.drop_last() =~= a + seq!['|'] + b.drop_last());
        lemma_split_join(a, b.drop_last());
        lemma_split_nonempty(b.drop_last());
        lemma_split_nonempty(a);
        let pa = split_pipes(a);
        let pb = split_pipes(b.drop_last());
        if b.last() == '|' {
            assert(split_pipes(s) =~= pa + pb.push(Seq::empty()));
        } else {
            assert((pa + pb).update((pa + pb).len() - 1, (pa + pb).last().push(b.last()))
                =~= pa + pb.update(pb.len() - 1, pb.last().push(b.last())));
        }
    }
}

proof fn lemma_split_plain(s: Seq<char>)
    requires
        !s.contains('|'),
    ensures
        split_pipes(s) == seq![s],
    decreases s.len(),
{
    if s.len() > 0 {
        assert(!s.drop_last().contains('|')) by {
            if s.drop_last().contains('|') {
                let k = choose|k: int| 0 <= k < s.drop_last().len() && s.drop_last()[k] == '|';
                assert(s[k] == '|');
            }
        }
        lemma_split_plain(s.drop_last());
        assert(s[s.len() - 1] != '|') by {
            if s[s.len() - 1] == '|' {
                assert(s.contains('|'));
            }
        }
        assert(s.drop_last().push(s.last()) =~= s);
        assert(seq![s.drop_last()].update(0, s.drop_last().push(s.last())) =~= seq![s]);
    } else {
        assert(s =~= Seq::<char>::empty());
    }
}

/// A name that can be written into `EnabledMods` and read back as itself.
pub open spec fn plain_name(n: Seq<char>) -> bool {
    n.len() > 0 && !n.contains('|')
}

proof fn lemma_split_joined(order: Seq<Seq<char>>)
    requires
        order.len() > 0,
        forall|k: int| 0 <= k < order.len() ==> plain_name(#[trigger] order[k]),
    ensures
        split_pipes(joined(order)) == order,
    decreases order.len(),
{
    assert(dashed(order.last()) =~= order.last()) by {
        assert forall|k: int| 0 <= k < order.last().len() implies order.last()[k] != '|' by {
            if order.last()[k] == '|' {
                assert(order[order.len() - 1].contains('|'));
            }
        }
    }
    lemma_split_plain(order.last());
    if order.len() == 1 {
        assert(seq![order[0]] =~= order);
    } else {
        let d = order.drop_last();
        assert forall|k: int| 0 <= k < d.len() implies plain_name(#[trigger] d[k]) by {
            assert(d[k] == order[k]);
        }
        lemma_split_joined(d);
        lemma_split_join(joined(d), order.last());
        assert(d + seq![order.last()] =~= order);
    }
}

proof fn lemma_non_empty_plain(s: Seq<Seq<char>>)
    requires
        forall|k: int| 0 <= k < s.len() ==> (#[trigger] s[k]).len() > 0,
    ensures
        non_empty(s) == s,
    decreases s.len(),
{
    if s.len() > 0 {
        let d = s.drop_last();
        assert forall|k: int| 0 <= k < d.len() implies (#[trigger] d[k]).len() > 0 by {
            assert(d[k] == s[k]);
        }
        lemma_non_empty_plain(d);
        assert(s.last() == s[s.len() - 1]);
        assert(d.push(s.last()) =~= s);
    }
}

/// What is written is read back: after writing a load order of names
/// that are not empty and hold no `|`, the config holds that order.
pub proof fn law_read_after_write(old: Json, new: Json, order: Seq<Seq<char>>)
    requires
        order_written(old, new, joined(order)),
        forall|k: int| 0 <= k < order.len() ==> plain_name(#[trigger] order[k]),
    ensures
        config_order(new) == order,
{
    law_write_keeps_other_settings(old, new, joined(order));
    if order.len() == 0 {
        assert(split_pipes(Seq::<char>::empty()) =~= seq![Seq::<char>::empty()]);
        let s = seq![Seq::<char>::empty()];
        assert(s.last().len() == 0);
        assert(s.drop_last() =~= Seq::<Seq<char>>::empty());
        assert(non_empty(s.drop_last()) =~= Seq::<Seq<char>>::empty());
        assert(non_empty(s) =~= Seq::<Seq<char>>::empty());
    } else {
        lemma_split_joined(order);
        assert forall|k: int| 0 <= k < order.len() implies (#[trigger] order[k]).len() > 0 by {
            assert(plain_name(order[k]));
        }
        lemma_non_empty_plain(order);
    }
}

} // verus!
