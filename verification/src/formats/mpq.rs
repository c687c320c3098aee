//! Listing the assets of an MPQ archive (`.otr`) from its `(listfile)`.

use vstd::prelude::*;
use std::io::Read;
use crate::formats::{FormatError, Fault, fault, bytes_outcome};
use crate::text::{push_str, string_from_chars, texts};
use crate::sort::sorted_listing;
use crate::formats::listfile::{listfile_assets, listed_names};
use vstd::utf8::{valid_utf8, decode_utf8};
use crate::formats::mpq_crypt::{decrypt, hash_string, spec_decrypt, storm_hash, lemma_decrypt_len};
use crate::formats::storm_vectors::law_storm_reference_hashes;

verus! {

/// Block flag: the file is compressed.
pub const FLAG_COMPRESS: u32 = 0x0000_0200;
/// Block flag: the file is PKWARE-imploded.
pub const FLAG_IMPLODE: u32 = 0x0000_0100;
/// Block flag: the file is encrypted.
pub const FLAG_ENCRYPTED: u32 = 0x0001_0000;
/// Block flag: the file is stored as one unit, not in sectors.
pub const FLAG_SINGLE_UNIT: u32 = 0x0100_0000;

/// Sector sizes above `512 << 23` bytes (4 GiB) are taken for damage.
pub const MAX_SECTOR_SHIFT: u16 = 23;

/// The fields of an MPQ header that the listing needs.
pub struct Header {
    /// Where the header starts in the file; table and file offsets count
    /// from here.
    pub header_offset: u64,
    /// Sectors of multi-sector files hold `512 << sector_shift` bytes.
    pub sector_shift: u16,
    pub hash_table_offset: u32,
    pub block_table_offset: u32,
    pub hash_table_entries: u32,
    pub block_table_entries: u32,
}

/// A hash or block table entry: four little-endian words.
pub type TableEntry = (u32, u32, u32, u32);

/// The little-endian `u16` at `at`.
#[verifier::opaque]
pub open spec fn le_u16(b: Seq<u8>, at: int) -> u16 {
    (b[at] + 256 * b[at + 1]) as u16
}

/// The little-endian `u32` at `at`.
#[verifier::opaque]
pub open spec fn le_u32(b: Seq<u8>, at: int) -> u32 {
    (b[at] + 256 * b[at + 1] + 65536 * b[at + 2] + 16777216 * b[at + 3]) as u32
}

fn read_u32(b: &[u8], at: usize) -> (r: Option<u32>)
    ensures
        r == if at + 4 <= b@.len() { Some(le_u32(b@, at as int)) } else { None::<u32> },
{
    if at <= b.len() && b.len() - at >= 4 {
        let v: u32 = b[at] as u32 + (b[at + 1] as u32) * 256 + (b[at + 2] as u32) * 65536 + (b[at + 3] as u32) * 16777216;
        proof {
            reveal(le_u32);
        }
        Some(v)
    } else {
        None
    }
}

fn read_u16(b: &[u8], at: usize) -> (r: Option<u16>)
    ensures
        r == if at + 2 <= b@.len() { Some(le_u16(b@, at as int)) } else { None::<u16> },
{
    if at <= b.len() && b.len() - at >= 2 {
        let v: u16 = b[at] as u16 + (b[at + 1] as u16) * 256;
        proof {
            reveal(le_u16);
        }
        Some(v)
    } else {
        None
    }
}

/// The header signature `MPQ\x1a` starts at `off`.
pub open spec fn magic_at(d: Seq<u8>, off: int) -> bool {
    d[off] == 0x4D && d[off + 1] == 0x50 && d[off + 2] == 0x51 && d[off + 3] == 0x1A
}

/// The first 512-byte boundary from `off` on where a whole header fits
/// and starts with the signature.
pub open spec fn header_search(d: Seq<u8>, off: nat) -> Option<nat>
    decreases d.len() + 512 - off,
{
    if off + 32 > d.len() {
        None
    } else if magic_at(d, off as int) {
        Some(off)
    } else {
        header_search(d, off + 512)
    }
}

/// The header that starts at `off`.
pub open spec fn header_at(d: Seq<u8>, off: nat) -> Header {
    Header {
        header_offset: off as u64,
        sector_shift: le_u16(d, off + 14 as int),
        hash_table_offset: le_u32(d, off + 16 as int),
        block_table_offset: le_u32(d, off + 20 as int),
        hash_table_entries: le_u32(d, off + 24 as int),
        block_table_entries: le_u32(d, off + 28 as int),
    }
}

/// The header of the archive, if it has one.
pub open spec fn parse_header(d: Seq<u8>) -> Result<Header, Fault> {
    match header_search(d, 0) {
        Some(off) => Ok(header_at(d, off)),
        None => Err(Fault::NotAnArchive("no MPQ header"@)),
    }
}

/// The plain value of a header outcome.
pub open spec fn header_outcome(r: Result<Header, FormatError>) -> Result<Header, Fault> {
    match r {
        Ok(h) => Ok(h),
        Err(e) => Err(fault(e)),
    }
}

fn corrupt() -> (e: FormatError)
    ensures
        fault(e) == Fault::Corrupt("truncated header"@),
{
    FormatError::Corrupt("truncated header".to_owned())
}

/// Finds the MPQ header, which may start at any 512-byte boundary.
pub fn find_header(data: &[u8]) -> (r: Result<Header, FormatError>)
    ensures
        header_outcome(r) == parse_header(data@),
{
    let mut offset: usize = 0;
    while offset <= data.len() && data.len() - offset >= 32
        invariant
            header_search(data@, 0) == header_search(data@, offset as nat),
        decreases data.len() - offset,
    {
        if data[offset] == 0x4D && data[offset + 1] == 0x50 && data[offset + 2] == 0x51 && data[offset + 3] == 0x1A {
            let sector_shift = match read_u16(data, offset + 14) {
                Some(v) => v,
                None => return Err(corrupt()),
            };
            let hash_table_offset = match read_u32(data, offset + 16) {
                Some(v) => v,
                None => return Err(corrupt()),
            };
            let block_table_offset = match read_u32(data, offset + 20) {
                Some(v) => v,
                None => return Err(corrupt()),
            };
            let hash_table_entries = match read_u32(data, offset + 24) {
                Some(v) => v,
                None => return Err(corrupt()),
            };
            let block_table_entries = match read_u32(data, offset + 28) {
                Some(v) => v,
                None => return Err(corrupt()),
            };
            return Ok(Header {
                header_offset: offset as u64,
                sector_shift,
                hash_table_offset,
                block_table_offset,
                hash_table_entries,
                block_table_entries,
            });
        }
        if data.len() - offset < 512 + 32 {
            assert(header_search(data@, (offset + 512) as nat) == None::<nat>);
            return Err(FormatError::NotAnArchive("no MPQ header".to_owned()));
        }
        offset = offset + 512;
    }
    Err(FormatError::NotAnArchive("no MPQ header".to_owned()))
}

/// The stored words of a table of `n` entries at `start`.
pub open spec fn table_words(d: Seq<u8>, start: int, n: int) -> Seq<u32> {
    Seq::new((4 * n) as nat, |i: int| le_u32(d, start + 4 * i))
}

/// The first `n` groups of four words.
pub open spec fn group4(w: Seq<u32>, n: int) -> Seq<TableEntry> {
    Seq::new(n as nat, |k: int| (w[4 * k], w[4 * k + 1], w[4 * k + 2], w[4 * k + 3]))
}

/// The table of `entries` entries at `offset` past the header at `base`,
/// deciphered with the hash of `key`, if it lies within the file.
pub open spec fn parse_table(d: Seq<u8>, base: u64, offset: u32, entries: u32, key: Seq<char>) -> Result<Seq<TableEntry>, Fault> {
    let start = base + offset;
    if start + 16 * entries <= d.len() {
        Ok(group4(spec_decrypt(table_words(d, start, entries as int), storm_hash(key, 3)), entries as int))
    } else {
        Err(Fault::Corrupt("table out of range"@))
    }
}

/// The plain value of a table outcome.
pub open spec fn table_outcome(r: Result<Vec<TableEntry>, FormatError>) -> Result<Seq<TableEntry>, Fault> {
    match r {
        Ok(t) => Ok(t@),
        Err(e) => Err(fault(e)),
    }
}

fn read_table(data: &[u8], base: u64, offset: u32, entries: u32, key_name: &str) -> (r: Result<Vec<TableEntry>, FormatError>)
    requires
        base <= data@.len(),
    ensures
        table_outcome(r) == parse_table(data@, base, offset, entries, key_name@),
{
    let len64: u64 = data.len() as u64;
    if offset as u64 > len64 - base {
        return Err(FormatError::Corrupt("table out of range".to_owned()));
    }
    let start64: u64 = base + offset as u64;
    let size: u64 = entries as u64 * 16;
    if size > len64 - start64 {
        return Err(FormatError::Corrupt("table out of range".to_owned()));
    }
    let start: usize = start64 as usize;
    let n4: usize = entries as usize * 4;
    let ghost stored = table_words(data@, start as int, entries as int);
    let dlen: usize = data.len();
    let mut words: Vec<u32> = Vec::new();
    let mut k: usize = 0;
    while k < n4
        invariant
            stored == table_words(data@, start as int, entries as int),
            n4 == 4 * entries,
            dlen == data@.len(),
            start + 16 * entries <= data@.len(),
            k <= n4,
            words@ == stored.take(k as int),
        decreases n4 - k,
    {
        assert(start + 4 * k + 4 <= data@.len());
        let w = read_u32(data, start + 4 * k).unwrap();
        let ghost before = words@;
        words.push(w);
        proof {
            assert(stored[k as int] == le_u32(data@, start + 4 * k));
            assert forall|q: int| 0 <= q < k + 1 implies #[trigger] words@[q] == stored.take(k + 1)[q] by {
                if q < k {
                    assert(words@[q] == before[q]);
                }
            }
            assert(words@ =~= stored.take(k + 1));
        }
        k = k + 1;
    }
    assert(words@ =~= stored);
    let key = hash_string(key_name, 3);
    decrypt(words.as_mut_slice(), key);
    proof {
        lemma_decrypt_len(stored, key, 0xEEEE_EEEEu32);
    }
    let ghost plain = words@;
    let mut table: Vec<TableEntry> = Vec::new();
    let mut j: usize = 0;
    while j < entries as usize
        invariant
            plain == words@,
            plain.len() == 4 * entries,
            n4 == 4 * entries,
            j <= entries,
            table@ == group4(plain, entries as int).take(j as int),
        decreases entries - j,
    {
        let e: TableEntry = (words[4 * j], words[4 * j + 1], words[4 * j + 2], words[4 * j + 3]);
        table.push(e);
        assert(table@ =~= group4(plain, entries as int).take(j + 1));
        j = j + 1;
    }
    assert(table@ =~= group4(plain, entries as int));
    Ok(table)
}

/// Follows the chain of hash slots from `i`, visiting at most `left` of
/// them: a never-used slot ends it, a live slot with both name hashes
/// gives its block index.
pub open spec fn probe(t: Seq<TableEntry>, i: int, a: u32, b: u32, left: nat) -> Option<u32>
    decreases left,
{
    if left == 0 {
        None
    } else {
        let e = t[i];
        if e.3 == 0xFFFF_FFFFu32 {
            None
        } else if e.0 == a && e.1 == b && e.3 != 0xFFFF_FFFEu32 {
            Some(e.3)
        } else {
            probe(t, if i + 1 == t.len() { 0 } else { i + 1 }, a, b, (left - 1) as nat)
        }
    }
}

/// The block index that the hash table gives for `name`, starting at the
/// slot its first hash selects and going once around the table.
pub open spec fn block_lookup(t: Seq<TableEntry>, name: Seq<char>) -> Option<u32> {
    if t.len() == 0 {
        None
    } else {
        probe(t, (storm_hash(name, 0) & ((t.len() - 1) as u32)) as int, storm_hash(name, 1), storm_hash(name, 2), t.len())
    }
}

/// A name is found in the slot its first hash selects when that slot
/// holds its two name hashes (types 1 and 2, in that order) and a block
/// index that is neither "empty" nor "deleted".
pub proof fn law_lookup_at_home_slot(t: Seq<TableEntry>, name: Seq<char>)
    requires
        0 < t.len() <= u32::MAX,
        t[(storm_hash(name, 0) & ((t.len() - 1) as u32)) as int].0 == storm_hash(name, 1),
        t[(storm_hash(name, 0) & ((t.len() - 1) as u32)) as int].1 == storm_hash(name, 2),
        t[(storm_hash(name, 0) & ((t.len() - 1) as u32)) as int].3 != 0xFFFF_FFFFu32,
        t[(storm_hash(name, 0) & ((t.len() - 1) as u32)) as int].3 != 0xFFFF_FFFEu32,
    ensures
        block_lookup(t, name) == Some(t[(storm_hash(name, 0) & ((t.len() - 1) as u32)) as int].3),
{
    let h = storm_hash(name, 0);
    let m = (t.len() - 1) as u32;
    assert(h & m <= m) by (bit_vector);
}

/// The `(listfile)` entry of a hash table, as StormLib writes it: in the
/// slot that `0x5F3DE859` selects, the name hashes `0xFD657910` and
/// `0x4E9B98A7`; the lookup finds its block.
pub proof fn law_listfile_entry_found(t: Seq<TableEntry>, block: u32)
    requires
        0 < t.len() <= u32::MAX,
        t[(0x5F3D_E859u32 & ((t.len() - 1) as u32)) as int].0 == 0xFD65_7910u32,
        t[(0x5F3D_E859u32 & ((t.len() - 1) as u32)) as int].1 == 0x4E9B_98A7u32,
        t[(0x5F3D_E859u32 & ((t.len() - 1) as u32)) as int].3 == block,
        block != 0xFFFF_FFFFu32,
        block != 0xFFFF_FFFEu32,
    ensures
        block_lookup(t, "(listfile)"@) == Some(block),
{
    law_storm_reference_hashes();
    law_lookup_at_home_slot(t, "(listfile)"@);
}

fn find_block(hash_table: &[TableEntry], name: &str) -> (r: Option<u32>)
    requires
        hash_table@.len() <= u32::MAX,
    ensures
        r == block_lookup(hash_table@, name@),
{
    let count: u32 = hash_table.len() as u32;
    if count == 0 {
        return None;
    }
    let mask: u32 = count - 1;
    let h0 = hash_string(name, 0);
    let start: u32 = h0 & mask;
    assert(start <= mask) by (bit_vector)
        requires
            start == h0 & mask,
    ;
    let a = hash_string(name, 1);
    let b = hash_string(name, 2);
    let mut i: usize = start as usize;
    let mut left: u32 = count;
    while left > 0
        invariant
            count == hash_table@.len(),
            i < count,
            left <= count,
            block_lookup(hash_table@, name@) == probe(hash_table@, i as int, a, b, left as nat),
        decreases left,
    {
        let e = hash_table[i];
        if e.3 == 0xFFFF_FFFF {
            return None;
        }
        if e.0 == a && e.1 == b && e.3 != 0xFFFF_FFFE {
            return Some(e.3);
        }
        i = if i + 1 == hash_table.len() { 0 } else { i + 1 };
        left = left - 1;
    }
    None
}

/// What decoding the zlib stream `data` to its end gives: the decoded
/// bytes, or the text of the decoder's error.
pub uninterp spec fn zlib_inflate(data: Seq<u8>) -> Result<Seq<u8>, Seq<char>>;

/// The plain value of a decoding outcome.
pub open spec fn inflate_view(r: Result<Vec<u8>, String>) -> Result<Seq<u8>, Seq<char>> {
    match r {
        Ok(v) => Ok(v@),
        Err(e) => Err(e@),
    }
}

/// Decodes the zlib stream `data` with `flate2::read::ZlibDecoder`, read to
/// its end, giving the bytes or the decoder's error as text. Nothing is
/// stated of the decoding itself: the result is named by `zlib_inflate`,
/// as a function of `data` alone.
#[verifier::external_body]
fn inflate_zlib(data: &[u8]) -> (r: Result<Vec<u8>, String>)
    ensures
        inflate_view(r) == zlib_inflate(data@),
{
    let mut out: Vec<u8> = Vec::new();
    match flate2::read::ZlibDecoder::new(data).read_to_end(&mut out) {
        Ok(_) => Ok(out),
        Err(e) => Err(e.to_string()),
    }
}

/// A decoded sector, or the decoder's failure as damage.
pub open spec fn inflated(z: Result<Seq<u8>, Seq<char>>) -> Result<Seq<u8>, Fault> {
    match z {
        Ok(v) => Ok(v),
        Err(e) => Err(Fault::Corrupt("zlib: "@ + e)),
    }
}

/// Turns the outcome of zlib decoding into a sector's outcome: a decoder
/// error becomes `Corrupt("zlib: ...")`.
pub fn inflated_sector(z: Result<Vec<u8>, String>) -> (r: Result<Vec<u8>, FormatError>)
    ensures
        bytes_outcome(r) == inflated(inflate_view(z)),
{
    match z {
        Ok(v) => Ok(v),
        Err(e) => {
            let mut msg: Vec<char> = Vec::new();
            push_str(&mut msg, "zlib: ");
            push_str(&mut msg, e.as_str());
            Err(FormatError::Corrupt(string_from_chars(msg.as_slice())))
        },
    }
}

/// A lowercase hexadecimal digit.
pub open spec fn hex_digit(d: nat) -> char {
    if d < 10 {
        ((48 + d) as u8) as char
    } else {
        ((87 + d) as u8) as char
    }
}

/// A byte as two lowercase hexadecimal digits.
pub open spec fn hex2(b: u8) -> Seq<char> {
    seq![hex_digit((b / 16) as nat), hex_digit((b % 16) as nat)]
}

fn push_hex2(out: &mut Vec<char>, b: u8)
    ensures
        final(out)@ == old(out)@ + hex2(b),
{
    let hi: u8 = b / 16;
    let lo: u8 = b % 16;
    let c1: char = if hi < 10 { (48u8 + hi) as char } else { (87u8 + hi) as char };
    let c2: char = if lo < 10 { (48u8 + lo) as char } else { (87u8 + lo) as char };
    out.push(c1);
    out.push(c2);
    assert(final(out)@ =~= old(out)@ + hex2(b));
}

/// The bytes of one stored sector: empty stays empty, type byte `0x02`
/// marks zlib, other compressions are not supported.
pub open spec fn sector_bytes(s: Seq<u8>) -> Result<Seq<u8>, Fault> {
    if s.len() == 0 {
        Ok(Seq::empty())
    } else if s[0] == 2 {
        inflated(zlib_inflate(s.skip(1)))
    } else {
        Err(Fault::Unlistable("unsupported compression 0x"@ + hex2(s[0])))
    }
}

fn decompress_sector(sector: &[u8]) -> (r: Result<Vec<u8>, FormatError>)
    ensures
        bytes_outcome(r) == sector_bytes(sector@),
{
    if sector.len() == 0 {
        return Ok(Vec::new());
    }
    let first = sector[0];
    if first == 0x02 {
        let body = vstd::slice::slice_subrange(sector, 1, sector.len());
        assert(body@ =~= sector@.skip(1));
        inflated_sector(inflate_zlib(body))
    } else {
        let mut msg: Vec<char> = Vec::new();
        push_str(&mut msg, "unsupported compression 0x");
        push_hex2(&mut msg, first);
        Err(FormatError::Unlistable(string_from_chars(msg.as_slice())))
    }
}

/// Bytes per sector for a sector shift.
pub open spec fn sector_size(shift: u16) -> int {
    (512u64 << (shift as u64)) as int
}

/// The number of sectors that `unpacked` bytes fill.
pub open spec fn sector_count(unpacked: int, size: int) -> int {
    if unpacked % size == 0 {
        unpacked / size
    } else {
        unpacked / size + 1
    }
}

/// The bytes of sectors `i..count` appended to `out`: each sector lies
/// between two entries of the offset table at the start of `raw`, and is
/// decoded when the file is compressed and the sector is shorter than
/// what it must hold.
pub open spec fn assemble(raw: Seq<u8>, count: int, compressed: bool, unpacked: int, size: int, i: int, out: Seq<u8>) -> Result<Seq<u8>, Fault>
    decreases count - i,
{
    if i >= count {
        Ok(out)
    } else {
        let lo = le_u32(raw, 4 * i) as int;
        let hi = le_u32(raw, 4 * i + 4) as int;
        if lo > hi || hi > raw.len() {
            Err(Fault::Corrupt("sector out of range"@))
        } else {
            let s = raw.subrange(lo, hi);
            let remaining = if unpacked > out.len() { unpacked - out.len() } else { 0 };
            let limit = if remaining < size { remaining } else { size };
            if compressed && s.len() < limit {
                match sector_bytes(s) {
                    Ok(v) => assemble(raw, count, compressed, unpacked, size, i + 1, out + v),
                    Err(e) => Err(e),
                }
            } else {
                assemble(raw, count, compressed, unpacked, size, i + 1, out + s)
            }
        }
    }
}

/// The contents of the file that `block` describes.
pub open spec fn parse_file(d: Seq<u8>, h: Header, block: TableEntry) -> Result<Seq<u8>, Fault> {
    let (offset, packed, unpacked, flags) = block;
    if flags & FLAG_ENCRYPTED != 0 {
        Err(Fault::Unlistable("encrypted listfile"@))
    } else if flags & FLAG_IMPLODE != 0 {
        Err(Fault::Unlistable("imploded listfile"@))
    } else if h.header_offset + offset + packed > d.len() {
        Err(Fault::Corrupt("file data out of range"@))
    } else {
        let start = h.header_offset + offset;
        let raw = d.subrange(start, start + packed);
        let compressed = flags & FLAG_COMPRESS != 0 && packed < unpacked;
        if flags & FLAG_SINGLE_UNIT != 0 || (!compressed && packed == unpacked) {
            if compressed {
                sector_bytes(raw)
            } else {
                Ok(raw)
            }
        } else if h.sector_shift > MAX_SECTOR_SHIFT {
            Err(Fault::Corrupt("implausible sector shift"@))
        } else {
            let size = sector_size(h.sector_shift);
            let count = sector_count(unpacked as int, size);
            if 4 * count + 4 > packed {
                Err(Fault::Corrupt("sector table"@))
            } else {
                match assemble(raw, count, compressed, unpacked as int, size, 0, Seq::empty()) {
                    Ok(out) => Ok(if unpacked < out.len() { out.take(unpacked as int) } else { out }),
                    Err(e) => Err(e),
                }
            }
        }
    }
}

/// Reads the file that `block` describes: stored whole or as one
/// compressed unit, or as sectors listed by an offset table.
pub fn read_file(data: &[u8], header: &Header, block: TableEntry) -> (r: Result<Vec<u8>, FormatError>)
    ensures
        bytes_outcome(r) == parse_file(data@, *header, block),
{
    let (offset, packed_size, unpacked_size, flags) = block;
    if flags & FLAG_ENCRYPTED != 0 {
        return Err(FormatError::Unlistable("encrypted listfile".to_owned()));
    }
    if flags & FLAG_IMPLODE != 0 {
        return Err(FormatError::Unlistable("imploded listfile".to_owned()));
    }
    let len64: u64 = data.len() as u64;
    if header.header_offset > len64 || offset as u64 > len64 - header.header_offset
        || packed_size as u64 > len64 - header.header_offset - offset as u64 {
        return Err(FormatError::Corrupt("file data out of range".to_owned()));
    }
    let start: usize = (header.header_offset + offset as u64) as usize;
    let raw = vstd::slice::slice_subrange(data, start, start + packed_size as usize);
    let compressed = flags & FLAG_COMPRESS != 0 && packed_size < unpacked_size;
    if flags & FLAG_SINGLE_UNIT != 0 || (!compressed && packed_size == unpacked_size) {
        return if compressed {
            decompress_sector(raw)
        } else {
            Ok(vstd::slice::slice_to_vec(raw))
        };
    }
    if header.sector_shift > MAX_SECTOR_SHIFT {
        return Err(FormatError::Corrupt("implausible sector shift".to_owned()));
    }
    let shift: u64 = header.sector_shift as u64;
    let size: u64 = 512u64 << shift;
    assert(512 <= size <= 0x1_0000_0000) by (bit_vector)
        requires
            shift <= 23,
            size == 512u64 << shift,
    ;
    let unpacked: u64 = unpacked_size as u64;
    let count: u64 = if unpacked % size == 0 { unpacked / size } else { unpacked / size + 1 };
    assert(count <= unpacked) by (nonlinear_arith)
        requires
            size >= 512,
            count as int == sector_count(unpacked as int, size as int),
    ;
    if 4 * count + 4 > packed_size as u64 {
        return Err(FormatError::Corrupt("sector table".to_owned()));
    }
    let ghost total = assemble(raw@, count as int, compressed, unpacked as int, size as int, 0, Seq::empty());
    let ghost want = parse_file(data@, *header, block);
    assert(raw@ == data@.subrange(start as int, start + packed_size));
    assert(want == match total {
        Ok(out) => Ok(if unpacked < out.len() { out.take(unpacked as int) } else { out }),
        Err(e) => Err(e),
    });
    let mut out: Vec<u8> = Vec::new();
    let mut i: u64 = 0;
    while i < count
        invariant
            raw@.len() == packed_size,
            4 * count + 4 <= packed_size,
            size == sector_size(header.sector_shift),
            512 <= size <= 0x1_0000_0000,
            i <= count,
            want == parse_file(data@, *header, block),
            want == match total {
                Ok(out) => Ok(if unpacked < out.len() { out.take(unpacked as int) } else { out }),
                Err(e) => Err(e),
            },
            total == assemble(raw@, count as int, compressed, unpacked as int, size as int, i as int, out@),
        decreases count - i,
    {
        let lo: usize = read_u32(raw, (4 * i) as usize).unwrap() as usize;
        let hi: usize = read_u32(raw, (4 * i + 4) as usize).unwrap() as usize;
        if lo > hi || hi > raw.len() {
            return Err(FormatError::Corrupt("sector out of range".to_owned()));
        }
        let sector = vstd::slice::slice_subrange(raw, lo, hi);
        let have: u64 = out.len() as u64;
        let remaining: u64 = if unpacked > have { unpacked - have } else { 0 };
        let limit: u64 = if remaining < size { remaining } else { size };
        if compressed && (sector.len() as u64) < limit {
            match decompress_sector(sector) {
                Ok(v) => {
                    let mut v = v;
                    out.append(&mut v);
                },
                Err(e) => return Err(e),
            }
        } else {
            let mut v = vstd::slice::slice_to_vec(sector);
            out.append(&mut v);
        }
        i = i + 1;
    }
    let ghost before = out@;
    assert(total == Ok::<Seq<u8>, Fault>(before));
    out.truncate(unpacked_size as usize);
    assert(out@ =~= if unpacked < before.len() { before.take(unpacked as int) } else { before });
    Ok(out)
}

/// The text of `bytes` with every invalid sequence replaced by U+FFFD.
pub uninterp spec fn utf8_lossy(bytes: Seq<u8>) -> Seq<char>;

/// `String::from_utf8_lossy`, owned. Stated: valid UTF-8 reads as the
/// text it encodes. How invalid sequences are replaced is not stated; the
/// result is named by `utf8_lossy`, as a function of `bytes` alone.
#[verifier::external_body]
fn decode_lossy(bytes: &[u8]) -> (s: String)
    ensures
        s@ == utf8_lossy(bytes@),
        valid_utf8(bytes@) ==> s@ == decode_utf8(bytes@),
{
    String::from_utf8_lossy(bytes).into_owned()
}

/// The sorted asset paths of an MPQ archive, read from its `(listfile)`.
pub open spec fn mpq_listing(d: Seq<u8>) -> Result<Seq<Seq<char>>, Fault> {
    match parse_header(d) {
        Err(e) => Err(e),
        Ok(h) => match parse_table(d, h.header_offset, h.hash_table_offset, h.hash_table_entries, "(hash table)"@) {
            Err(e) => Err(e),
            Ok(ht) => match parse_table(d, h.header_offset, h.block_table_offset, h.block_table_entries, "(block table)"@) {
                Err(e) => Err(e),
                Ok(bt) => match block_lookup(ht, "(listfile)"@) {
                    None => Err(Fault::Unlistable("no (listfile)"@)),
                    Some(bi) => if bi >= bt.len() {
                        Err(Fault::Corrupt("listfile block index out of range"@))
                    } else {
                        match parse_file(d, h, bt[bi as int]) {
                            Err(e) => Err(e),
                            Ok(body) => Ok(sorted_listing(listed_names(utf8_lossy(body)))),
                        }
                    },
                },
            },
        },
    }
}

/// The plain value of a listing outcome.
pub open spec fn listing_outcome(r: Result<Vec<String>, FormatError>) -> Result<Seq<Seq<char>>, Fault> {
    match r {
        Ok(v) => Ok(texts(v@)),
        Err(e) => Err(fault(e)),
    }
}

proof fn lemma_header_fits(d: Seq<u8>, off: nat)
    ensures
        header_search(d, off) matches Some(o) ==> o + 32 <= d.len(),
    decreases d.len() + 512 - off,
{
    if off + 32 <= d.len() && !magic_at(d, off as int) {
        lemma_header_fits(d, off + 512);
    }
}

/// Lists the asset paths of the MPQ archive held in `data`: finds the
/// header, deciphers the hash and block tables, looks up `(listfile)` and
/// reads its lines.
pub fn list_mpq_assets(data: &[u8]) -> (r: Result<Vec<String>, FormatError>)
    ensures
        listing_outcome(r) == mpq_listing(data@),
{
    proof {
        lemma_header_fits(data@, 0);
    }
    let header = match find_header(data) {
        Ok(h) => h,
        Err(e) => return Err(e),
    };
    let hash_table = match read_table(data, header.header_offset, header.hash_table_offset, header.hash_table_entries, "(hash table)") {
        Ok(t) => t,
        Err(e) => return Err(e),
    };
    let block_table = match read_table(data, header.header_offset, header.block_table_offset, header.block_table_entries, "(block table)") {
        Ok(t) => t,
        Err(e) => return Err(e),
    };
    let block_index = match find_block(hash_table.as_slice(), "(listfile)") {
        Some(i) => i,
        None => return Err(FormatError::Unlistable("no (listfile)".to_owned())),
    };
    if block_index as usize >= block_table.len() {
        return Err(FormatError::Corrupt("listfile block index out of range".to_owned()));
    }
    let block = block_table[block_index as usize];
    let body = match read_file(data, &header, block) {
        Ok(b) => b,
        Err(e) => return Err(e),
    };
    let text = decode_lossy(body.as_slice());
    Ok(listfile_assets(text.as_str()))
}

} // verus!
