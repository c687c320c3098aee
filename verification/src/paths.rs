//! Paths as text: the plain shape `folder/name` whose folder and file
//! name every platform reads alike.

use vstd::prelude::*;

verus! {

/// A separator on some platform: `/` everywhere, `\` on Windows.
pub open spec fn is_sep(c: char) -> bool {
    c == '/' || c == '\\'
}

/// `s` is `.` or `..`.
pub open spec fn is_dots(s: Seq<char>) -> bool {
    s =~= seq!['.'] || s =~= seq!['.', '.']
}

/// The part of `p` from `i` to `j` has a separator, or an end of `p`,
/// on each side.
pub open spec fn whole_piece(p: Seq<char>, i: int, j: int) -> bool {
    &&& i == 0 || is_sep(p[i - 1])
    &&& j == p.len() || is_sep(p[j])
}

/// A file name that no platform reads otherwise: not empty, not `.` or
/// `..`, and without a separator or a drive colon.
pub open spec fn plain_name(f: Seq<char>) -> bool {
    &&& f.len() > 0
    &&& !is_dots(f)
    &&& forall|i: int| 0 <= i < f.len() ==> !is_sep(#[trigger] f[i]) && f[i] != ':'
}

/// A folder that no platform reads otherwise: not empty, not ending in a
/// separator, not starting with two (a network or device prefix), without
/// a drive colon, and without a piece that is `.` or `..`.
pub open spec fn plain_dir(d: Seq<char>) -> bool {
    &&& d.len() > 0
    &&& !is_sep(d.last())
    &&& !(d.len() >= 2 && is_sep(d[0]) && is_sep(d[1]))
    &&& forall|i: int| 0 <= i < d.len() ==> #[trigger] d[i] != ':'
    &&& forall|i: int, j: int|
        0 <= i < j <= d.len() && #[trigger] whole_piece(d, i, j) ==> !is_dots(d.subrange(i, j))
}

/// `p` is the folder `d`, a `/` and the file name `f`.
pub open spec fn splits_plain(p: Seq<char>, d: Seq<char>, f: Seq<char>) -> bool {
    &&& p =~= d + seq!['/'] + f
    &&& plain_dir(d)
    &&& plain_name(f)
}

/// `p` is a folder, a `/` and a file name, all plain.
pub open spec fn has_plain_split(p: Seq<char>) -> bool {
    exists|d: Seq<char>, f: Seq<char>| splits_plain(p, d, f)
}

/// The folder of a plain path.
pub open spec fn plain_folder(p: Seq<char>) -> Seq<char> {
    (choose|d: Seq<char>, f: Seq<char>| splits_plain(p, d, f)).0
}

/// A plain path splits one way only: its folder ends at its last `/`.
pub proof fn law_plain_split_unique(p: Seq<char>, d1: Seq<char>, f1: Seq<char>, d2: Seq<char>, f2: Seq<char>)
    requires
        splits_plain(p, d1, f1),
        splits_plain(p, d2, f2),
    ensures
        d1 == d2,
        f1 == f2,
{
    if d1.len() < d2.len() {
        let k = d2.len() - d1.len() - 1;
        assert(p[d2.len() as int] == '/');
        assert(f1[k] == p[d2.len() as int]);
        assert(!is_sep(f1[k]));
    } else if d2.len() < d1.len() {
        let k = d1.len() - d2.len() - 1;
        assert(p[d1.len() as int] == '/');
        assert(f2[k] == p[d1.len() as int]);
        assert(!is_sep(f2[k]));
    }
    assert(d1 =~= p.take(d1.len() as int));
    assert(d2 =~= p.take(d2.len() as int));
    assert(f1 =~= p.skip(d1.len() + 1int));
    assert(f2 =~= p.skip(d2.len() + 1int));
}

/// The folder that `plain_folder` names is the one of every plain split.
pub proof fn lemma_plain_folder(p: Seq<char>, d: Seq<char>, f: Seq<char>)
    requires
        splits_plain(p, d, f),
    ensures
        plain_folder(p) == d,
{
    let (c, g) = choose|c: Seq<char>, g: Seq<char>| splits_plain(p, c, g);
    law_plain_split_unique(p, c, g, d, f);
}

} // verus!
