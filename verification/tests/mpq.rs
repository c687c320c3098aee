use std::io::Write;

use manifest_core::formats::listfile::listfile_assets;
use manifest_core::formats::mpq::{find_header, inflated_sector, list_mpq_assets, read_file, FLAG_SINGLE_UNIT};
use manifest_core::formats::mpq_crypt::{decrypt, encrypt, hash_string};
use manifest_core::formats::FormatError;

const FLAG_EXISTS: u32 = 0x8000_0000;
const FLAG_COMPRESS: u32 = 0x0000_0200;

/// Matches the sector_shift of 3 written into the fixture header below.
const SECTOR_SIZE: usize = 512 << 3;

enum ListfileMode {
    Plain,
    CompressedSingleUnit,
    CompressedMultiSector,
}

fn build_mpq(files: &[(&str, &[u8])]) -> Vec<u8> {
    build_mpq_inner(files, ListfileMode::Plain)
}

fn build_mpq_with_compressed_listfile(files: &[(&str, &[u8])]) -> Vec<u8> {
    build_mpq_inner(files, ListfileMode::CompressedSingleUnit)
}

fn build_mpq_with_multisector_listfile(files: &[(&str, &[u8])]) -> Vec<u8> {
    build_mpq_inner(files, ListfileMode::CompressedMultiSector)
}

struct Entry {
    name: String,
    packed: Vec<u8>,
    unpacked_size: u32,
    flags: u32,
}

fn zlib_sector(chunk: &[u8]) -> Vec<u8> {
    let mut encoder = flate2::write::ZlibEncoder::new(Vec::new(), flate2::Compression::default());
    encoder.write_all(chunk).unwrap();
    let compressed = encoder.finish().unwrap();
    let mut packed = Vec::with_capacity(compressed.len() + 1);
    packed.push(0x02);
    packed.extend_from_slice(&compressed);
    packed
}

fn build_mpq_inner(files: &[(&str, &[u8])], listfile_mode: ListfileMode) -> Vec<u8> {
    let listfile_body: String =
        files.iter().map(|(n, _)| n.replace('/', "\\")).collect::<Vec<_>>().join("\r\n");
    let listfile_bytes = listfile_body.into_bytes();

    let mut entries: Vec<Entry> = files
        .iter()
        .map(|(n, d)| Entry {
            name: n.to_string(),
            packed: d.to_vec(),
            unpacked_size: d.len() as u32,
            flags: FLAG_EXISTS | FLAG_SINGLE_UNIT,
        })
        .collect();

    match listfile_mode {
        ListfileMode::Plain => {
            entries.push(Entry {
                name: "(listfile)".to_string(),
                unpacked_size: listfile_bytes.len() as u32,
                packed: listfile_bytes,
                flags: FLAG_EXISTS | FLAG_SINGLE_UNIT,
            });
        }
        ListfileMode::CompressedSingleUnit => {
            let packed = zlib_sector(&listfile_bytes);
            assert!(packed.len() < listfile_bytes.len(), "fixture listfile body not compressible enough");
            entries.push(Entry {
                name: "(listfile)".to_string(),
                packed,
                unpacked_size: listfile_bytes.len() as u32,
                flags: FLAG_EXISTS | FLAG_SINGLE_UNIT | FLAG_COMPRESS,
            });
        }
        ListfileMode::CompressedMultiSector => {
            assert!(listfile_bytes.len() > SECTOR_SIZE, "multi-sector fixture needs a longer listfile");
            let sectors: Vec<Vec<u8>> = listfile_bytes
                .chunks(SECTOR_SIZE)
                .map(|chunk| {
                    let packed = zlib_sector(chunk);
                    assert!(packed.len() < chunk.len(), "fixture sector not compressible enough");
                    packed
                })
                .collect();
            let table_len = 4 * (sectors.len() + 1);
            let mut offsets: Vec<u32> = vec![table_len as u32];
            for s in &sectors {
                offsets.push(offsets.last().unwrap() + s.len() as u32);
            }
            let mut packed = Vec::new();
            for o in &offsets {
                packed.extend_from_slice(&o.to_le_bytes());
            }
            for s in &sectors {
                packed.extend_from_slice(s);
            }
            assert!(packed.len() < listfile_bytes.len(), "fixture listfile body not compressible enough");
            entries.push(Entry {
                name: "(listfile)".to_string(),
                packed,
                unpacked_size: listfile_bytes.len() as u32,
                flags: FLAG_EXISTS | FLAG_COMPRESS,
            });
        }
    }

    let header_size: u32 = 32;
    let mut file_data = Vec::new();
    let mut block_entries: Vec<[u32; 4]> = Vec::new();
    for e in &entries {
        let offset = header_size + file_data.len() as u32;
        file_data.extend_from_slice(&e.packed);
        block_entries.push([offset, e.packed.len() as u32, e.unpacked_size, e.flags]);
    }

    let hash_entries_count = (entries.len().next_power_of_two().max(4)) as u32;
    let mut hash_table: Vec<[u32; 4]> = vec![[0xFFFF_FFFF; 4]; hash_entries_count as usize];
    for (block_index, e) in entries.iter().enumerate() {
        let start = (hash_string(&e.name, 0) & (hash_entries_count - 1)) as usize;
        let mut i = start;
        loop {
            if hash_table[i][3] == 0xFFFF_FFFF {
                hash_table[i] = [hash_string(&e.name, 1), hash_string(&e.name, 2), 0, block_index as u32];
                break;
            }
            i = (i + 1) % hash_entries_count as usize;
            assert_ne!(i, start, "hash table full");
        }
    }

    let hash_table_offset = header_size + file_data.len() as u32;
    let block_table_offset = hash_table_offset + hash_entries_count * 16;
    let archive_size = block_table_offset + block_entries.len() as u32 * 16;

    let mut out = Vec::new();
    out.extend_from_slice(b"MPQ\x1a");
    out.extend_from_slice(&header_size.to_le_bytes());
    out.extend_from_slice(&archive_size.to_le_bytes());
    out.extend_from_slice(&0u16.to_le_bytes());
    out.extend_from_slice(&3u16.to_le_bytes());
    out.extend_from_slice(&hash_table_offset.to_le_bytes());
    out.extend_from_slice(&block_table_offset.to_le_bytes());
    out.extend_from_slice(&hash_entries_count.to_le_bytes());
    out.extend_from_slice(&(block_entries.len() as u32).to_le_bytes());
    out.extend_from_slice(&file_data);

    let mut hash_words: Vec<u32> = hash_table.iter().flatten().copied().collect();
    encrypt(&mut hash_words, hash_string("(hash table)", 3));
    for w in &hash_words {
        out.extend_from_slice(&w.to_le_bytes());
    }
    let mut block_words: Vec<u32> = block_entries.iter().flatten().copied().collect();
    encrypt(&mut block_words, hash_string("(block table)", 3));
    for w in &block_words {
        out.extend_from_slice(&w.to_le_bytes());
    }
    out
}

fn table_words(bytes: &[u8], start: usize, entries: u32) -> Vec<u32> {
    bytes[start..start + entries as usize * 16]
        .chunks_exact(4)
        .map(|c| u32::from_le_bytes(c.try_into().unwrap()))
        .collect()
}

fn store_words(bytes: &mut [u8], start: usize, words: &[u32]) {
    for (i, w) in words.iter().enumerate() {
        bytes[start + i * 4..start + i * 4 + 4].copy_from_slice(&w.to_le_bytes());
    }
}

#[test]
fn fixture_starts_with_mpq_magic_and_contains_data() {
    let bytes = build_mpq(&[("alt/objects/gA", b"aaaa" as &[u8]), ("alt/objects/gB", b"bb" as &[u8])]);
    assert_eq!(&bytes[0..4], b"MPQ\x1a");
    assert!(bytes.len() > 32);
}

#[test]
fn lists_assets_from_fixture_listfile() {
    let bytes = build_mpq(&[("alt/objects/gSwordTex", b"aaaa"), ("alt/objects/gShieldTex", b"bb")]);
    let assets = list_mpq_assets(&bytes).unwrap();
    assert_eq!(
        assets,
        vec!["alt/objects/gShieldTex".to_string(), "alt/objects/gSwordTex".to_string()]
    );
}

#[test]
fn non_mpq_file_is_not_an_archive() {
    assert!(matches!(list_mpq_assets(b"definitely not an mpq"), Err(FormatError::NotAnArchive(_))));
}

#[test]
fn mpq_without_listfile_is_unlistable() {
    let mut bytes = build_mpq(&[("alt/gA", b"a")]);
    bytes.truncate(32);
    assert!(list_mpq_assets(&bytes).is_err());
}

#[test]
fn mpq_missing_listfile_hash_entry_is_unlistable() {
    let mut bytes = build_mpq(&[("alt/gA", b"a")]);
    let header = find_header(&bytes).unwrap();
    let hash_start = (header.header_offset + header.hash_table_offset as u64) as usize;
    let mut words = table_words(&bytes, hash_start, header.hash_table_entries);
    decrypt(&mut words, hash_string("(hash table)", 3));
    let name_a = hash_string("(listfile)", 1);
    let name_b = hash_string("(listfile)", 2);
    for entry in words.chunks_exact_mut(4) {
        if entry[0] == name_a && entry[1] == name_b {
            entry.copy_from_slice(&[0xFFFF_FFFF; 4]);
        }
    }
    encrypt(&mut words, hash_string("(hash table)", 3));
    store_words(&mut bytes, hash_start, &words);
    assert!(matches!(list_mpq_assets(&bytes), Err(FormatError::Unlistable(_))));
}

#[test]
fn empty_hash_table_is_err_not_panic() {
    let mut bytes = build_mpq(&[("alt/gA", b"a")]);
    bytes[24..28].copy_from_slice(&0u32.to_le_bytes());
    assert!(list_mpq_assets(&bytes).is_err());
}

#[test]
fn implausible_sector_shift_is_corrupt_not_panic() {
    let mut bytes = build_mpq(&[("alt/gA", b"aaaaaa")]);
    bytes[14..16].copy_from_slice(&0xFFFFu16.to_le_bytes());
    let header = find_header(&bytes).unwrap();
    let block_start = (header.header_offset + header.block_table_offset as u64) as usize;
    let mut words = table_words(&bytes, block_start, header.block_table_entries);
    decrypt(&mut words, hash_string("(block table)", 3));
    let last = words.len() - 4;
    words[last + 1] -= 1;
    words[last + 3] &= !FLAG_SINGLE_UNIT;
    encrypt(&mut words, hash_string("(block table)", 3));
    store_words(&mut bytes, block_start, &words);
    assert!(matches!(list_mpq_assets(&bytes), Err(FormatError::Corrupt(_))));
}

#[test]
fn zlib_compressed_listfile_decodes() {
    let names: Vec<String> = (0..24)
        .map(|i| format!("alt/objects/repeated_padding_prefix_for_zlib_compression_test/asset_{i:03}"))
        .collect();
    let files: Vec<(&str, &[u8])> = names.iter().map(|n| (n.as_str(), b"" as &[u8])).collect();
    let bytes = build_mpq_with_compressed_listfile(&files);
    let mut expected = names;
    expected.sort();
    expected.dedup();
    assert_eq!(list_mpq_assets(&bytes).unwrap(), expected);
}

#[test]
fn multisector_zlib_listfile_decodes() {
    let names: Vec<String> = (0..200)
        .map(|i| format!("alt/objects/multisector_padding_prefix_shared_by_every_name/asset_{i:04}"))
        .collect();
    let files: Vec<(&str, &[u8])> = names.iter().map(|n| (n.as_str(), b"" as &[u8])).collect();
    let bytes = build_mpq_with_multisector_listfile(&files);
    let mut expected = names;
    expected.sort();
    expected.dedup();
    assert_eq!(list_mpq_assets(&bytes).unwrap(), expected);
}

#[test]
fn header_is_found_on_a_later_512_byte_boundary() {
    let inner = build_mpq(&[("alt/gA", b"a")]);
    // An archive behind 1024 bytes of padding: the header moves, offsets
    // stay relative to it.
    let mut bytes = vec![0u8; 1024];
    bytes.extend_from_slice(&inner);
    let header = find_header(&bytes).unwrap();
    assert_eq!(header.header_offset, 1024);
    assert_eq!(header.sector_shift, 3);
    assert_eq!(list_mpq_assets(&bytes).unwrap(), vec!["alt/gA".to_string()]);
    // Not on a boundary: not found.
    let mut shifted = vec![0u8; 100];
    shifted.extend_from_slice(&inner);
    assert_eq!(
        list_mpq_assets(&shifted).unwrap_err(),
        FormatError::NotAnArchive("no MPQ header".into())
    );
}

#[test]
fn truncated_tables_are_out_of_range() {
    let bytes = build_mpq(&[("alt/gA", b"a")]);
    let cut = &bytes[..bytes.len() - 1];
    assert_eq!(
        list_mpq_assets(cut).unwrap_err(),
        FormatError::Corrupt("table out of range".into())
    );
}

#[test]
fn encrypted_and_imploded_listfiles_are_unlistable() {
    for (flag, why) in [(0x0001_0000u32, "encrypted listfile"), (0x0000_0100u32, "imploded listfile")] {
        let mut bytes = build_mpq(&[("alt/gA", b"a")]);
        let header = find_header(&bytes).unwrap();
        let block_start = (header.header_offset + header.block_table_offset as u64) as usize;
        let mut words = table_words(&bytes, block_start, header.block_table_entries);
        decrypt(&mut words, hash_string("(block table)", 3));
        let last = words.len() - 4;
        words[last + 3] |= flag;
        encrypt(&mut words, hash_string("(block table)", 3));
        store_words(&mut bytes, block_start, &words);
        assert_eq!(list_mpq_assets(&bytes).unwrap_err(), FormatError::Unlistable(why.into()));
    }
}

#[test]
fn listfile_block_index_past_the_table_is_corrupt() {
    let mut bytes = build_mpq(&[("alt/gA", b"a")]);
    let header = find_header(&bytes).unwrap();
    let hash_start = (header.header_offset + header.hash_table_offset as u64) as usize;
    let mut words = table_words(&bytes, hash_start, header.hash_table_entries);
    decrypt(&mut words, hash_string("(hash table)", 3));
    let name_a = hash_string("(listfile)", 1);
    for entry in words.chunks_exact_mut(4) {
        if entry[0] == name_a {
            entry[3] = 99;
        }
    }
    encrypt(&mut words, hash_string("(hash table)", 3));
    store_words(&mut bytes, hash_start, &words);
    assert_eq!(
        list_mpq_assets(&bytes).unwrap_err(),
        FormatError::Corrupt("listfile block index out of range".into())
    );
}

#[test]
fn unsupported_compression_is_named_in_hex() {
    let bytes = build_mpq(&[("alt/gA", b"a")]);
    let header = find_header(&bytes).unwrap();
    // A stored unit of three bytes whose first byte announces bzip2 (0x10),
    // flagged compressed and shorter than its unpacked size.
    let mut data = bytes.clone();
    data.extend_from_slice(&[0x10, 0xAB, 0xCD]);
    let offset = (data.len() - 3) as u32 - header.header_offset as u32;
    let block = (offset, 3u32, 10u32, FLAG_SINGLE_UNIT | FLAG_COMPRESS);
    assert_eq!(
        read_file(&data, &header, block).unwrap_err(),
        FormatError::Unlistable("unsupported compression 0x10".into())
    );
    // Stored uncompressed, the same bytes come back as they are.
    let plain = (offset, 3u32, 3u32, 0u32);
    assert_eq!(read_file(&data, &header, plain).unwrap(), vec![0x10, 0xAB, 0xCD]);
    // Past the end of the file.
    let far = (offset, 4u32, 4u32, 0u32);
    assert_eq!(
        read_file(&data, &header, far).unwrap_err(),
        FormatError::Corrupt("file data out of range".into())
    );
}

#[test]
fn multisector_files_check_their_sector_table() {
    let bytes = build_mpq(&[("alt/gA", b"a")]);
    let header = find_header(&bytes).unwrap();
    let mut data = bytes.clone();
    let offset = data.len() as u32 - header.header_offset as u32;
    // 10 unpacked bytes fill one 4096-byte sector: the table needs two
    // words, only one is stored.
    data.extend_from_slice(&8u32.to_le_bytes());
    let short = (offset, 4u32, 10u32, 0u32);
    assert_eq!(read_file(&data, &header, short).unwrap_err(), FormatError::Corrupt("sector table".into()));
    // Two words, then the sector: stored as is, cut to the unpacked size.
    let mut data = bytes.clone();
    data.extend_from_slice(&8u32.to_le_bytes());
    data.extend_from_slice(&20u32.to_le_bytes());
    data.extend_from_slice(b"hello world!");
    let block = (offset, 20u32, 5u32, 0u32);
    assert_eq!(read_file(&data, &header, block).unwrap(), b"hello".to_vec());
    // A sector that ends past the file's data.
    let mut data = bytes.clone();
    data.extend_from_slice(&8u32.to_le_bytes());
    data.extend_from_slice(&99u32.to_le_bytes());
    data.extend_from_slice(b"hello world!");
    assert_eq!(read_file(&data, &header, block).unwrap_err(), FormatError::Corrupt("sector out of range".into()));
}

#[test]
fn zlib_errors_are_corrupt() {
    assert_eq!(inflated_sector(Ok(vec![1, 2])).unwrap(), vec![1, 2]);
    assert_eq!(
        inflated_sector(Err("bad stream".into())).unwrap_err(),
        FormatError::Corrupt("zlib: bad stream".into())
    );
}

#[test]
fn listfile_lines_are_trimmed_filtered_and_sorted() {
    let text = " b\\two \r\n(listfile)\r\n;a/one;\n\t\r(attributes) \nb/two\n\u{3000}c\u{a0}";
    assert_eq!(
        listfile_assets(text),
        vec!["a/one".to_string(), "b/two".to_string(), "c".to_string()]
    );
    assert_eq!(listfile_assets(""), Vec::<String>::new());
    assert_eq!(listfile_assets("(signature)"), Vec::<String>::new());
}

#[test]
fn format_errors_read_as_kind_and_detail() {
    assert_eq!(FormatError::Io("gone".into()).message(), "io error: gone");
    assert_eq!(FormatError::NotAnArchive("no MPQ header".into()).message(), "not an archive: no MPQ header");
    assert_eq!(FormatError::Unlistable("no (listfile)".into()).message(), "unlistable: no (listfile)");
    assert_eq!(FormatError::Corrupt("truncated header".into()).message(), "corrupt: truncated header");
}
