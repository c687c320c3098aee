//! Reading the asset lists out of mod archives.

pub mod listfile;
pub mod mpq;
pub mod mpq_crypt;

pub mod storm_vectors;

use vstd::prelude::*;
use std::io::Cursor;
use zip::ZipArchive;
use crate::model::AssetSet;
use crate::sort::sorted_listing;
use crate::text::{push_str, string_from_chars, texts, strictly_sorted, lemma_strictly_sorted_unique};
use crate::sort_laws::lemma_sorted_listing;
use vstd::set_lib::lemma_len_subset;

verus! {

/// Why an archive's asset list could not be read.
#[derive(Debug, Clone, PartialEq)]
pub enum FormatError {
    /// The archive could not be read from disk.
    Io(String),
    /// The bytes are not an archive of the expected kind.
    NotAnArchive(String),
    /// The archive is well formed but its list cannot be read.
    Unlistable(String),
    /// The archive is damaged.
    Corrupt(String),
}

/// A format error as plain values.
pub enum Fault {
    Io(Seq<char>),
    NotAnArchive(Seq<char>),
    Unlistable(Seq<char>),
    Corrupt(Seq<char>),
}

/// The plain value of a format error.
pub open spec fn fault(e: FormatError) -> Fault {
    match e {
        FormatError::Io(s) => Fault::Io(s@),
        FormatError::NotAnArchive(s) => Fault::NotAnArchive(s@),
        FormatError::Unlistable(s) => Fault::Unlistable(s@),
        FormatError::Corrupt(s) => Fault::Corrupt(s@),
    }
}

/// The plain value of an outcome that carries bytes.
pub open spec fn bytes_outcome(r: Result<Vec<u8>, FormatError>) -> Result<Seq<u8>, Fault> {
    match r {
        Ok(v) => Ok(v@),
        Err(e) => Err(fault(e)),
    }
}

/// How a format error reads: its kind, a colon, and its detail.
pub open spec fn fault_text(f: Fault) -> Seq<char> {
    match f {
        Fault::Io(s) => "io error: "@ + s,
        Fault::NotAnArchive(s) => "not an archive: "@ + s,
        Fault::Unlistable(s) => "unlistable: "@ + s,
        Fault::Corrupt(s) => "corrupt: "@ + s,
    }
}

impl FormatError {
    /// The error as a message, such as `corrupt: truncated header`.
    pub fn message(&self) -> (r: String)
        ensures
            r@ == fault_text(fault(*self)),
    {
        let mut out: Vec<char> = Vec::new();
        match self {
            FormatError::Io(s) => {
                push_str(&mut out, "io error: ");
                push_str(&mut out, s.as_str());
            },
            FormatError::NotAnArchive(s) => {
                push_str(&mut out, "not an archive: ");
                push_str(&mut out, s.as_str());
            },
            FormatError::Unlistable(s) => {
                push_str(&mut out, "unlistable: ");
                push_str(&mut out, s.as_str());
            },
            FormatError::Corrupt(s) => {
                push_str(&mut out, "corrupt: ");
                push_str(&mut out, s.as_str());
            },
        }
        string_from_chars(out.as_slice())
    }
}

/// A byte buffer read through `std::io::Cursor`.
#[verifier::external_type_specification]
#[verifier::external_body]
#[verifier::reject_recursive_types(T)]
pub struct ExCursor<T>(Cursor<T>);

/// An open ZIP archive (`zip::ZipArchive`).
#[verifier::external_type_specification]
#[verifier::external_body]
#[verifier::reject_recursive_types(R)]
pub struct ExZipArchive<R>(ZipArchive<R>);

/// What reading each entry of an open archive gives, by index: the
/// entry's name, or the text of the error that opening it raised.
pub uninterp spec fn zip_entries(a: ZipArchive<Cursor<Vec<u8>>>) -> Seq<Result<Seq<char>, Seq<char>>>;

/// What opening `data` as a ZIP archive gives: what reading each entry
/// gives, or the text of the error that opening raised.
pub uninterp spec fn zip_open(data: Seq<u8>) -> Result<Seq<Result<Seq<char>, Seq<char>>>, Seq<char>>;

/// `zip::ZipArchive::new` over the bytes, with its error as text. Nothing
/// is stated of the parsing: its outcome is named by `zip_open`, as a
/// function of `data` alone, and the entries of the archive by
/// `zip_entries`.
#[verifier::external_body]
fn open_zip(data: Vec<u8>) -> (r: Result<ZipArchive<Cursor<Vec<u8>>>, String>)
    ensures
        match r {
            Ok(a) => zip_open(data@) == Ok::<Seq<Result<Seq<char>, Seq<char>>>, Seq<char>>(zip_entries(a)),
            Err(e) => zip_open(data@) == Err::<Seq<Result<Seq<char>, Seq<char>>>, Seq<char>>(e@),
        },
{
    match ZipArchive::new(Cursor::new(data)) {
        Ok(a) => Ok(a),
        Err(e) => Err(e.to_string()),
    }
}

/// `zip::ZipArchive::len`: the number of entries.
#[verifier::external_body]
fn zip_len(a: &ZipArchive<Cursor<Vec<u8>>>) -> (n: usize)
    ensures
        n == zip_entries(*a).len(),
{
    a.len()
}

/// The name of entry `i`, by `zip::ZipArchive::by_index` and
/// `ZipFile::name`, or the text of the error that opening the entry
/// raised. Stated: reading an entry leaves what every entry gives as it
/// was.
#[verifier::external_body]
fn zip_entry_name(a: &mut ZipArchive<Cursor<Vec<u8>>>, i: usize) -> (r: Result<String, String>)
    requires
        i < zip_entries(*old(a)).len(),
    ensures
        zip_entries(*final(a)) == zip_entries(*old(a)),
        match r {
            Ok(n) => zip_entries(*old(a))[i as int] == Ok::<Seq<char>, Seq<char>>(n@),
            Err(e) => zip_entries(*old(a))[i as int] == Err::<Seq<char>, Seq<char>>(e@),
        },
{
    match a.by_index(i) {
        Ok(f) => Ok(f.name().to_owned()),
        Err(e) => Err(e.to_string()),
    }
}

/// A directory entry's name ends in `/` or `\`, as `ZipFile::is_dir` has it.
pub open spec fn names_dir(n: Seq<char>) -> bool {
    n.len() > 0 && (n.last() == '/' || n.last() == '\\')
}

fn is_dir_name(n: &String) -> (r: bool)
    ensures
        r == names_dir(n@),
{
    let mut last: Option<char> = None;
    for c in it: n.chars()
        invariant
            it.seq() == n@,
            last == if it.index() == 0 { None::<char> } else { Some(n@[it.index() - 1]) },
    {
        last = Some(c);
    }
    match last {
        Some(c) => c == '/' || c == '\\',
        None => false,
    }
}

/// The first entry error among `entries`, if any.
pub open spec fn first_entry_error(entries: Seq<Result<Seq<char>, Seq<char>>>) -> Option<Seq<char>>
    decreases entries.len(),
{
    if entries.len() == 0 {
        None
    } else {
        match entries[0] {
            Err(e) => Some(e),
            Ok(_) => first_entry_error(entries.drop_first()),
        }
    }
}

/// The names of the entries that are files.
pub open spec fn file_names(entries: Seq<Result<Seq<char>, Seq<char>>>) -> Set<Seq<char>> {
    Set::new(|n: Seq<char>| exists|k: int| 0 <= k < entries.len() && #[trigger] entries[k] == Ok::<Seq<char>, Seq<char>>(n) && !names_dir(n))
}

/// The sorted file names of a ZIP archive (`.o2r`), directories left out.
pub open spec fn zip_listing(data: Seq<u8>) -> Result<Seq<Seq<char>>, Fault> {
    match zip_open(data) {
        Err(e) => Err(Fault::Corrupt(e)),
        Ok(entries) => match first_entry_error(entries) {
            Some(e) => Err(Fault::Corrupt(e)),
            None => Ok(sorted_listing(file_names(entries))),
        },
    }
}

/// The plain value of a listing outcome.
pub open spec fn names_outcome(r: Result<Vec<String>, FormatError>) -> Result<Seq<Seq<char>>, Fault> {
    match r {
        Ok(v) => Ok(texts(v@)),
        Err(e) => Err(fault(e)),
    }
}

proof fn lemma_first_error_prefix(entries: Seq<Result<Seq<char>, Seq<char>>>, i: int)
    requires
        0 <= i < entries.len(),
        forall|k: int| 0 <= k < i ==> (#[trigger] entries[k]) is Ok,
    ensures
        entries[i] matches Err(e) ==> first_entry_error(entries) == Some(e),
        entries[i] is Ok ==> first_entry_error(entries) == first_entry_error(entries.skip(i + 1)),
    decreases i,
{
    if i > 0 {
        let t = entries.drop_first();
        assert forall|k: int| 0 <= k < i - 1 implies (#[trigger] t[k]) is Ok by {
            assert(t[k] == entries[k + 1]);
        }
        assert(entries[0] is Ok);
        lemma_first_error_prefix(t, i - 1);
        assert(t[i - 1] == entries[i]);
        assert(t.skip(i) =~= entries.skip(i + 1));
    } else {
        assert(entries.skip(1) =~= entries.drop_first());
    }
}

/// Lists the file entries of the ZIP archive held in `data`, sorted, each
/// once; a damaged archive or entry is reported as corrupt.
pub fn list_zip_assets(data: Vec<u8>) -> (r: Result<Vec<String>, FormatError>)
    ensures
        names_outcome(r) == zip_listing(data@),
{
    let ghost bytes = data@;
    let mut archive = match open_zip(data) {
        Ok(a) => a,
        Err(e) => return Err(FormatError::Corrupt(e)),
    };
    let ghost entries = zip_entries(archive);
    let n = zip_len(&archive);
    let mut out: Vec<String> = Vec::new();
    let mut i: usize = 0;
    while i < n
        invariant
            bytes == data@,
            zip_open(bytes) == Ok::<Seq<Result<Seq<char>, Seq<char>>>, Seq<char>>(entries),
            zip_entries(archive) == entries,
            n == entries.len(),
            i <= n,
            forall|k: int| 0 <= k < i ==> (#[trigger] entries[k]) is Ok,
            texts(out@).to_set() == file_names(entries.take(i as int)),
        decreases n - i,
    {
        let name = match zip_entry_name(&mut archive, i) {
            Ok(name) => name,
            Err(e) => {
                proof {
                    assert(entries[i as int] == Err::<Seq<char>, Seq<char>>(e@));
                    lemma_first_error_prefix(entries, i as int);
                    assert(first_entry_error(entries) == Some(e@));
                }
                return Err(FormatError::Corrupt(e));
            },
        };
        let ghost before = out@;
        let dir = is_dir_name(&name);
        let ghost nv = name@;
        if !dir {
            out.push(name);
        }
        proof {
            let t0 = entries.take(i as int);
            let t1 = entries.take(i + 1);
            assert(t1 =~= t0.push(Ok::<Seq<char>, Seq<char>>(nv)));
            let want = if dir { file_names(t0) } else { file_names(t0).insert(nv) };
            assert forall|x: Seq<char>| file_names(t1).contains(x) <==> want.contains(x) by {
                if file_names(t1).contains(x) {
                    let k = choose|k: int| 0 <= k < t1.len() && #[trigger] t1[k] == Ok::<Seq<char>, Seq<char>>(x) && !names_dir(x);
                    if k < i {
                        assert(t0[k] == t1[k]);
                    }
                }
                if file_names(t0).contains(x) {
                    let k = choose|k: int| 0 <= k < t0.len() && #[trigger] t0[k] == Ok::<Seq<char>, Seq<char>>(x) && !names_dir(x);
                    assert(t1[k] == t0[k]);
                }
                if !dir && x == nv {
                    assert(t1[i as int] == Ok::<Seq<char>, Seq<char>>(nv));
                }
            }
            assert(file_names(t1) =~= want);
            assert(texts(out@).to_set() =~= want) by {
                if !dir {
                    assert(texts(out@) =~= texts(before).push(nv));
                    assert forall|x: Seq<char>| texts(out@).to_set().contains(x) <==> texts(before).to_set().insert(nv).contains(x) by {
                        if texts(out@).to_set().contains(x) {
                            let k = choose|k: int| 0 <= k < texts(out@).len() && texts(out@)[k] == x;
                            if k < before.len() {
                                assert(texts(before)[k] == x);
                            }
                        }
                        if texts(before).to_set().contains(x) {
                            let k = choose|k: int| 0 <= k < texts(before).len() && texts(before)[k] == x;
                            assert(texts(out@)[k] == x);
                        }
                        if x == nv {
                            assert(texts(out@)[before.len() as int] == x);
                        }
                    }
                } else {
                    assert(out@ == before);
                }
            }
        }
        i = i + 1;
    }
    proof {
        assert(entries.take(i as int) =~= entries);
        assert forall|j: int| 0 <= j <= entries.len() implies first_entry_error(#[trigger] entries.skip(j)) is None by {
            lemma_no_error_suffix(entries, j);
        }
        assert(entries.skip(0) =~= entries);
    }
    let set = AssetSet::from_vec(out);
    let r = set.to_vec();
    proof {
        let want = file_names(entries);
        let chosen = sorted_listing(want);
        assert(strictly_sorted(set@) && set@.to_set() == want);
        assert(strictly_sorted(chosen) && chosen.to_set() == want);
        lemma_strictly_sorted_unique(set@, chosen);
    }
    Ok(r)
}

proof fn lemma_no_error_suffix(entries: Seq<Result<Seq<char>, Seq<char>>>, j: int)
    requires
        0 <= j <= entries.len(),
        forall|k: int| 0 <= k < entries.len() ==> (#[trigger] entries[k]) is Ok,
    ensures
        first_entry_error(entries.skip(j)) is None,
    decreases entries.len() - j,
{
    if j < entries.len() {
        lemma_no_error_suffix(entries, j + 1);
        let s = entries.skip(j);
        assert(s.drop_first() =~= entries.skip(j + 1));
        assert(s[0] == entries[j]);
    }
}

/// A ZIP directory names finitely many files, and they are listed sorted,
/// each once.
pub proof fn law_zip_listing_sorted_once(entries: Seq<Result<Seq<char>, Seq<char>>>)
    ensures
        file_names(entries).finite(),
        strictly_sorted(sorted_listing(file_names(entries))),
        sorted_listing(file_names(entries)).to_set() == file_names(entries),
{
    let all = entries.map_values(|e: Result<Seq<char>, Seq<char>>| match e {
        Ok(n) => n,
        Err(m) => m,
    }).to_set();
    assert(file_names(entries).subset_of(all)) by {
        assert forall|n: Seq<char>| file_names(entries).contains(n) implies all.contains(n) by {
            let k = choose|k: int| 0 <= k < entries.len() && #[trigger] entries[k] == Ok::<Seq<char>, Seq<char>>(n) && !names_dir(n);
            assert(entries.map_values(|e: Result<Seq<char>, Seq<char>>| match e {
                Ok(n) => n,
                Err(m) => m,
            })[k] == n);
        }
    }
    lemma_len_subset(file_names(entries), all);
    lemma_sorted_listing(file_names(entries));
}

} // verus!
