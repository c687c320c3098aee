//! The text of an MPQ `(listfile)`: one asset path per line or per `;`.

use vstd::prelude::*;
use crate::model::AssetSet;
use crate::sort::sorted_listing;
use crate::text::{texts, strictly_sorted, string_from_chars, equals_chars, lemma_strictly_sorted_unique};
use crate::sort_laws::lemma_sorted_listing;
use vstd::set_lib::lemma_len_subset;

verus! {

/// The characters that `char::is_whitespace` accepts: those with the
/// Unicode `White_Space` property.
pub open spec fn is_white(c: char) -> bool {
    let v = c as u32;
    ||| 9 <= v <= 13
    ||| v == 32
    ||| v == 0x85
    ||| v == 0xA0
    ||| v == 0x1680
    ||| 0x2000 <= v <= 0x200A
    ||| v == 0x2028
    ||| v == 0x2029
    ||| v == 0x202F
    ||| v == 0x205F
    ||| v == 0x3000
}

fn white(c: char) -> (r: bool)
    ensures
        r == is_white(c),
{
    let v = c as u32;
    (9 <= v && v <= 13) || v == 32 || v == 0x85 || v == 0xA0 || v == 0x1680 || (0x2000 <= v && v <= 0x200A)
        || v == 0x2028 || v == 0x2029 || v == 0x202F || v == 0x205F || v == 0x3000
}

/// The characters that end a listfile entry.
pub open spec fn is_separator(c: char) -> bool {
    c == '\r' || c == '\n' || c == ';'
}

/// The text cut at every separator, as `str::split` cuts it: `n`
/// separators give `n + 1` fields, some of them empty.
pub open spec fn split_fields(t: Seq<char>) -> Seq<Seq<char>>
    decreases t.len(),
{
    if t.len() == 0 {
        seq![Seq::empty()]
    } else {
        let p = split_fields(t.drop_last());
        let c = t.last();
        if is_separator(c) {
            p.push(Seq::empty())
        } else {
            p.update(p.len() - 1, p.last().push(c))
        }
    }
}

/// `s` without its leading white space.
pub open spec fn trim_start(s: Seq<char>) -> Seq<char>
    decreases s.len(),
{
    if s.len() > 0 && is_white(s[0]) {
        trim_start(s.drop_first())
    } else {
        s
    }
}

/// `s` without its trailing white space.
pub open spec fn trim_end(s: Seq<char>) -> Seq<char>
    decreases s.len(),
{
    if s.len() > 0 && is_white(s.last()) {
        trim_end(s.drop_last())
    } else {
        s
    }
}

/// `s` without white space at either end, as `str::trim` gives it.
pub open spec fn trim(s: Seq<char>) -> Seq<char> {
    trim_end(trim_start(s))
}

/// The names of the archive's own bookkeeping files.
pub open spec fn reserved(s: Seq<char>) -> bool {
    s == "(listfile)"@ || s == "(attributes)"@ || s == "(signature)"@
}

/// A field names an asset: it is not blank and not a bookkeeping file.
pub open spec fn kept(f: Seq<char>) -> bool {
    trim(f).len() > 0 && !reserved(trim(f))
}

/// The asset path a field names: trimmed, with `\` turned into `/`.
pub open spec fn clean(f: Seq<char>) -> Seq<char> {
    trim(f).map_values(|c: char| if c == '\\' { '/' } else { c })
}

/// The asset paths that the fields name.
pub open spec fn field_names(fields: Seq<Seq<char>>) -> Set<Seq<char>> {
    Set::new(|n: Seq<char>| exists|k: int| 0 <= k < fields.len() && kept(#[trigger] fields[k]) && clean(fields[k]) == n)
}

/// The asset paths that a listfile text names.
pub open spec fn listed_names(t: Seq<char>) -> Set<Seq<char>> {
    field_names(split_fields(t))
}

proof fn lemma_split_nonempty(t: Seq<char>)
    ensures
        split_fields(t).len() >= 1,
    decreases t.len(),
{
    if t.len() > 0 {
        lemma_split_nonempty(t.drop_last());
    }
}

proof fn lemma_field_names_push(fs: Seq<Seq<char>>, f: Seq<char>)
    ensures
        field_names(fs.push(f)) == if kept(f) { field_names(fs).insert(clean(f)) } else { field_names(fs) },
{
    let l = field_names(fs.push(f));
    let r = if kept(f) { field_names(fs).insert(clean(f)) } else { field_names(fs) };
    assert forall|n: Seq<char>| l.contains(n) <==> r.contains(n) by {
        if l.contains(n) {
            let k = choose|k: int| 0 <= k < fs.push(f).len() && kept(#[trigger] fs.push(f)[k]) && clean(fs.push(f)[k]) == n;
            if k < fs.len() {
                assert(fs[k] == fs.push(f)[k]);
                assert(field_names(fs).contains(n));
            }
        }
        if field_names(fs).contains(n) {
            let k = choose|k: int| 0 <= k < fs.len() && kept(#[trigger] fs[k]) && clean(fs[k]) == n;
            assert(fs.push(f)[k] == fs[k]);
        }
        if kept(f) && n == clean(f) {
            assert(fs.push(f)[fs.len() as int] == f);
        }
    }
    assert(l =~= r);
}

proof fn lemma_trim_start(s: Seq<char>, a: int)
    requires
        0 <= a <= s.len(),
        forall|k: int| 0 <= k < a ==> is_white(#[trigger] s[k]),
        a == s.len() || !is_white(s[a]),
    ensures
        trim_start(s) == s.skip(a),
    decreases a,
{
    if a == 0 {
        assert(s.skip(0) =~= s);
    } else {
        let t = s.drop_first();
        assert forall|k: int| 0 <= k < a - 1 implies is_white(#[trigger] t[k]) by {
            assert(t[k] == s[k + 1]);
        }
        if a - 1 < t.len() {
            assert(t[a - 1] == s[a]);
        }
        assert(is_white(s[0]));
        lemma_trim_start(t, a - 1);
        assert(t.skip(a - 1) =~= s.skip(a));
    }
}

proof fn lemma_trim_end(s: Seq<char>, b: int)
    requires
        0 <= b <= s.len(),
        forall|k: int| b <= k < s.len() ==> is_white(#[trigger] s[k]),
        b == 0 || !is_white(s[b - 1]),
    ensures
        trim_end(s) == s.take(b),
    decreases s.len() - b,
{
    if b == s.len() {
        assert(s.take(b) =~= s);
    } else {
        let t = s.drop_last();
        assert forall|k: int| b <= k < t.len() implies is_white(#[trigger] t[k]) by {
            assert(t[k] == s[k]);
        }
        if b > 0 {
            assert(t[b - 1] == s[b - 1]);
        }
        assert(is_white(s[s.len() - 1]));
        lemma_trim_end(t, b);
        assert(t.take(b) =~= s.take(b));
    }
}

/// The characters of `f` without white space at either end.
fn trimmed(f: &Vec<char>) -> (r: Vec<char>)
    ensures
        r@ == trim(f@),
{
    let n = f.len();
    let mut a: usize = 0;
    while a < n && white(f[a])
        invariant
            n == f@.len(),
            a <= n,
            forall|k: int| 0 <= k < a ==> is_white(#[trigger] f@[k]),
        decreases n - a,
    {
        a = a + 1;
    }
    proof {
        lemma_trim_start(f@, a as int);
    }
    let mut b: usize = n;
    while b > a && white(f[b - 1])
        invariant
            n == f@.len(),
            a <= b <= n,
            forall|k: int| b <= k < n ==> is_white(#[trigger] f@[k]),
        decreases b,
    {
        b = b - 1;
    }
    let ghost s = f@.skip(a as int);
    proof {
        assert forall|k: int| b - a <= k < s.len() implies is_white(#[trigger] s[k]) by {
            assert(s[k] == f@[a + k]);
        }
        if b > a {
            assert(s[b - a - 1] == f@[b - 1]);
        }
        lemma_trim_end(s, b - a);
    }
    let mut r: Vec<char> = Vec::new();
    let mut i: usize = a;
    while i < b
        invariant
            n == f@.len(),
            a <= i <= b <= n,
            r@ == f@.subrange(a as int, i as int),
        decreases b - i,
    {
        r.push(f[i]);
        assert(r@ =~= f@.subrange(a as int, i + 1));
        i = i + 1;
    }
    assert(r@ =~= s.take(b - a));
    r
}

/// Adds the asset path that `field` names, if it names one.
fn keep_field(names: &mut Vec<String>, field: &Vec<char>)
    ensures
        texts(final(names)@).to_set() == if kept(field@) {
            texts(old(names)@).to_set().insert(clean(field@))
        } else {
            texts(old(names)@).to_set()
        },
{
    let t = trimmed(field);
    if t.len() == 0 || equals_chars("(listfile)", t.as_slice()) || equals_chars("(attributes)", t.as_slice())
        || equals_chars("(signature)", t.as_slice()) {
        return;
    }
    let mut c: Vec<char> = Vec::new();
    let mut i: usize = 0;
    while i < t.len()
        invariant
            i <= t@.len(),
            c@ == t@.take(i as int).map_values(|x: char| if x == '\\' { '/' } else { x }),
        decreases t@.len() - i,
    {
        let x = t[i];
        let y = if x == '\\' { '/' } else { x };
        c.push(y);
        assert(c@ =~= t@.take(i + 1).map_values(|x: char| if x == '\\' { '/' } else { x }));
        i = i + 1;
    }
    assert(t@.take(i as int) =~= t@);
    let s = string_from_chars(c.as_slice());
    let ghost before = names@;
    names.push(s);
    proof {
        assert(texts(names@) =~= texts(before).push(clean(field@)));
        assert(texts(names@).to_set() =~= texts(before).to_set().insert(clean(field@))) by {
            let l = texts(names@);
            assert forall|x: Seq<char>| l.to_set().contains(x) <==> texts(before).to_set().insert(clean(field@)).contains(x) by {
                if l.to_set().contains(x) {
                    let k = choose|k: int| 0 <= k < l.len() && l[k] == x;
                    if k < before.len() {
                        assert(texts(before)[k] == x);
                    }
                }
                if texts(before).to_set().contains(x) {
                    let k = choose|k: int| 0 <= k < texts(before).len() && texts(before)[k] == x;
                    assert(l[k] == x);
                }
                if x == clean(field@) {
                    assert(l[before.len() as int] == x);
                }
            }
        }
    }
}

/// The asset paths that a listfile text names, sorted, each once: the
/// text is cut at `\r`, `\n` and `;`, each piece trimmed, blank pieces and
/// the archive's own bookkeeping files dropped, and `\` turned into `/`.
pub fn listfile_assets(text: &str) -> (r: Vec<String>)
    ensures
        texts(r@) == sorted_listing(listed_names(text@)),
{
    let mut names: Vec<String> = Vec::new();
    let mut cur: Vec<char> = Vec::new();
    proof {
        assert(text@.take(0) =~= Seq::<char>::empty());
        assert(split_fields(Seq::<char>::empty()).drop_last() =~= Seq::<Seq<char>>::empty());
        assert(texts(names@).to_set() =~= field_names(Seq::<Seq<char>>::empty()));
    }
    for ch in it: text.chars()
        invariant
            it.seq() == text@,
            cur@ == split_fields(text@.take(it.index())).last(),
            texts(names@).to_set() == field_names(split_fields(text@.take(it.index())).drop_last()),
    {
        let ghost pre = text@.take(it.index());
        let ghost post = text@.take(it.index() + 1);
        proof {
            assert(post.drop_last() =~= pre);
            assert(post.last() == ch);
            lemma_split_nonempty(pre);
        }
        if ch == '\r' || ch == '\n' || ch == ';' {
            keep_field(&mut names, &cur);
            cur = Vec::new();
            proof {
                let p = split_fields(pre);
                assert(split_fields(post) == p.push(Seq::empty()));
                assert(split_fields(post).drop_last() =~= p);
                assert(p =~= p.drop_last().push(p.last()));
                lemma_field_names_push(p.drop_last(), p.last());
            }
        } else {
            cur.push(ch);
            proof {
                let p = split_fields(pre);
                assert(split_fields(post) == p.update(p.len() - 1, p.last().push(ch)));
                assert(split_fields(post).drop_last() =~= p.drop_last());
            }
        }
    }
    proof {
        assert(text@.take(text@.len() as int) =~= text@);
        lemma_split_nonempty(text@);
    }
    keep_field(&mut names, &cur);
    proof {
        let p = split_fields(text@);
        assert(p =~= p.drop_last().push(p.last()));
        lemma_field_names_push(p.drop_last(), p.last());
    }
    let set = AssetSet::from_vec(names);
    let r = set.to_vec();
    proof {
        let want = listed_names(text@);
        let chosen = sorted_listing(want);
        assert(strictly_sorted(set@) && set@.to_set() == want);
        assert(strictly_sorted(chosen) && chosen.to_set() == want);
        lemma_strictly_sorted_unique(set@, chosen);
    }
    r
}

/// A listfile names finitely many assets, and lists them sorted, each
/// once.
pub proof fn law_listing_sorted_once(t: Seq<char>)
    ensures
        listed_names(t).finite(),
        strictly_sorted(sorted_listing(listed_names(t))),
        sorted_listing(listed_names(t)).to_set() == listed_names(t),
{
    let fs = split_fields(t);
    let all = fs.map_values(|f: Seq<char>| clean(f)).to_set();
    assert(listed_names(t).subset_of(all)) by {
        assert forall|n: Seq<char>| listed_names(t).contains(n) implies all.contains(n) by {
            let k = choose|k: int| 0 <= k < fs.len() && kept(#[trigger] fs[k]) && clean(fs[k]) == n;
            assert(fs.map_values(|f: Seq<char>| clean(f))[k] == n);
        }
    }
    lemma_len_subset(listed_names(t), all);
    lemma_sorted_listing(listed_names(t));
}

} // verus!
