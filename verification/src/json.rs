//! JSON documents as plain values: what the pins and settings logic reads
//! and writes. Numbers keep their text, so that writing a document back
//! loses nothing.

use vstd::prelude::*;
use crate::text::{same_text, texts};

verus! {

/// A JSON number: its text, and its value where it is a `u64`.
#[derive(Debug)]
pub struct JsonNumber {
    pub text: String,
    pub as_u64: Option<u64>,
}

/// A JSON value. An object lists its members in order, each key once.
#[derive(Debug)]
pub enum Json {
    Null,
    Bool(bool),
    Number(JsonNumber),
    String(String),
    Array(Vec<Json>),
    Object(Vec<(String, Json)>),
}

/// The first member of `fields` named `key`.
pub open spec fn member(fields: Seq<(String, Json)>, key: Seq<char>) -> Option<Json>
    decreases fields.len(),
{
    if fields.len() == 0 {
        None
    } else if fields[0].0@ == key {
        Some(fields[0].1)
    } else {
        member(fields.drop_first(), key)
    }
}

/// The position of the first member named `key`.
pub open spec fn member_index(fields: Seq<(String, Json)>, key: Seq<char>) -> Option<int>
    decreases fields.len(),
{
    if fields.len() == 0 {
        None
    } else if fields[0].0@ == key {
        Some(0)
    } else {
        match member_index(fields.drop_first(), key) {
            Some(i) => Some(i + 1),
            None => None,
        }
    }
}

/// The member `key` of an object; nothing for other values.
pub open spec fn get(v: Json, key: Seq<char>) -> Option<Json> {
    match v {
        Json::Object(fields) => member(fields@, key),
        _ => None,
    }
}

/// The value is a number that fits a `u64`.
pub open spec fn is_u64(v: Json) -> bool {
    v matches Json::Number(n) && n.as_u64 is Some
}

/// The texts of the items when every item is a string.
pub open spec fn all_strings(items: Seq<Json>) -> Option<Seq<Seq<char>>>
    decreases items.len(),
{
    if items.len() == 0 {
        Some(Seq::empty())
    } else {
        match (items[0], all_strings(items.drop_first())) {
            (Json::String(s), Some(rest)) => Some(seq![s@] + rest),
            _ => None,
        }
    }
}

/// Where the first member named `key` stands, and what it holds.
pub proof fn lemma_member_index(fields: Seq<(String, Json)>, key: Seq<char>)
    ensures
        match member_index(fields, key) {
            Some(i) => 0 <= i < fields.len() && fields[i].0@ == key && member(fields, key) == Some(fields[i].1)
                && forall|j: int| 0 <= j < i ==> (#[trigger] fields[j]).0@ != key,
            None => member(fields, key) is None && forall|j: int| 0 <= j < fields.len() ==> (#[trigger] fields[j]).0@ != key,
        },
    decreases fields.len(),
{
    if fields.len() > 0 && fields[0].0@ != key {
        let t = fields.drop_first();
        lemma_member_index(t, key);
        assert forall|j: int| 1 <= j < fields.len() implies #[trigger] fields[j] == t[j - 1] by {}
        match member_index(t, key) {
            Some(i) => {
                assert forall|j: int| 0 <= j < i + 1 implies (#[trigger] fields[j]).0@ != key by {
                    if j > 0 {
                        assert(fields[j] == t[j - 1]);
                    }
                }
            },
            None => {
                assert forall|j: int| 0 <= j < fields.len() implies (#[trigger] fields[j]).0@ != key by {
                    if j > 0 {
                        assert(fields[j] == t[j - 1]);
                    }
                }
            },
        }
    }
}

/// Where the member named `key` stands, if `fields` has one.
pub fn find_member(fields: &Vec<(String, Json)>, key: &str) -> (r: Option<usize>)
    ensures
        match r {
            Some(i) => member_index(fields@, key@) == Some(i as int),
            None => member_index(fields@, key@) is None,
        },
        match r {
            Some(i) => i < fields@.len() && member(fields@, key@) == Some(fields@[i as int].1),
            None => member(fields@, key@) is None,
        },
{
    proof {
        lemma_member_index(fields@, key@);
    }
    let mut i: usize = 0;
    while i < fields.len()
        invariant
            i <= fields@.len(),
            forall|j: int| 0 <= j < i ==> (#[trigger] fields@[j]).0@ != key@,
            match member_index(fields@, key@) {
                Some(m) => 0 <= m < fields@.len() && fields@[m].0@ == key@ && member(fields@, key@) == Some(fields@[m].1)
                    && forall|j: int| 0 <= j < m ==> (#[trigger] fields@[j]).0@ != key@,
                None => member(fields@, key@) is None && forall|j: int| 0 <= j < fields@.len() ==> (#[trigger] fields@[j]).0@ != key@,
            },
        decreases fields@.len() - i,
    {
        if same_text(fields[i].0.as_str(), key) {
            return Some(i);
        }
        i = i + 1;
    }
    None
}

/// The member `key` of an object, if the value is an object that has it.
pub fn get_member<'a>(v: &'a Json, key: &str) -> (r: Option<&'a Json>)
    ensures
        match r {
            Some(x) => get(*v, key@) == Some(*x),
            None => get(*v, key@) is None,
        },
{
    match v {
        Json::Object(fields) => match find_member(fields, key) {
            Some(i) => Some(&fields[i].1),
            None => None,
        },
        _ => None,
    }
}

proof fn lemma_all_strings_each(items: Seq<Json>, k: int)
    requires
        all_strings(items) is Some,
        0 <= k < items.len(),
    ensures
        items[k] is String,
    decreases items.len(),
{
    if k > 0 {
        assert(items.drop_first()[k - 1] == items[k]);
        lemma_all_strings_each(items.drop_first(), k - 1);
    }
}

/// The texts of the items, if every item is a string.
pub fn strings_in(items: &Vec<Json>) -> (r: Option<Vec<String>>)
    ensures
        match r {
            Some(v) => all_strings(items@) == Some(texts(v@)),
            None => all_strings(items@) is None,
        },
{
    let mut out: Vec<String> = Vec::new();
    let mut i: usize = items.len();
    while i > 0
        invariant
            i <= items@.len(),
            all_strings(items@.skip(i as int)) == Some(texts(out@)),
        decreases i,
    {
        let ghost tail = items@.skip(i as int);
        let ghost before = out@;
        assert(items@.skip(i - 1).drop_first() =~= tail);
        assert(items@.skip(i - 1)[0] == items@[i - 1]);
        match &items[i - 1] {
            Json::String(s) => {
                out.insert(0, s.clone());
                assert(texts(out@) =~= seq![s@] + texts(before));
            },
            _ => {
                proof {
                    if all_strings(items@) is Some {
                        lemma_all_strings_each(items@, i - 1);
                    }
                }
                return None;
            },
        }
        i = i - 1;
    }
    assert(items@.skip(0) =~= items@);
    Some(out)
}

/// String values for each of the texts.
pub fn string_values(v: &Vec<String>) -> (r: Vec<Json>)
    ensures
        all_strings(r@) == Some(texts(v@)),
{
    let mut out: Vec<Json> = Vec::new();
    let mut i: usize = v.len();
    assert(texts(v@).skip(i as int) =~= Seq::<Seq<char>>::empty());
    while i > 0
        invariant
            i <= v@.len(),
            all_strings(out@) == Some(texts(v@).skip(i as int)),
        decreases i,
    {
        let ghost before = out@;
        out.insert(0, Json::String(v[i - 1].clone()));
        assert(out@.drop_first() =~= before);
        assert(texts(v@).skip(i - 1) =~= seq![v@[i - 1]@] + texts(v@).skip(i as int));
        i = i - 1;
    }
    assert(texts(v@).skip(0) =~= texts(v@));
    out
}

/// Two member lists with the same keys, position by position, find each
/// key at the same place.
pub proof fn lemma_member_index_same_keys(a: Seq<(String, Json)>, b: Seq<(String, Json)>, key: Seq<char>)
    requires
        a.len() == b.len(),
        forall|j: int| 0 <= j < a.len() ==> (#[trigger] a[j]).0@ == b[j].0@,
    ensures
        member_index(a, key) == member_index(b, key),
    decreases a.len(),
{
    if a.len() > 0 {
        assert forall|j: int| 0 <= j < a.len() - 1 implies (#[trigger] a.drop_first()[j]).0@ == b.drop_first()[j].0@ by {
            assert(a.drop_first()[j] == a[j + 1]);
            assert(b.drop_first()[j] == b[j + 1]);
        }
        lemma_member_index_same_keys(a.drop_first(), b.drop_first(), key);
    }
}

/// Appending a member finds it only where no earlier member has its key.
pub proof fn lemma_member_push(a: Seq<(String, Json)>, e: (String, Json), key: Seq<char>)
    ensures
        member(a.push(e), key) == if member(a, key) is Some { member(a, key) } else if e.0@ == key { Some(e.1) } else { None },
    decreases a.len(),
{
    if a.len() > 0 {
        assert(a.push(e).drop_first() =~= a.drop_first().push(e));
        assert(a.push(e)[0] == a[0]);
        lemma_member_push(a.drop_first(), e, key);
        assert(member(a.push(e), key) == if a[0].0@ == key { Some(a[0].1) } else { member(a.drop_first().push(e), key) });
    } else {
        assert(a.push(e)[0] == e);
        assert(a.push(e).drop_first() =~= Seq::<(String, Json)>::empty());
        assert(member(a.push(e).drop_first(), key) is None);
    }
}

} // verus!
