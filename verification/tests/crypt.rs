use manifest_core::formats::mpq_crypt::{crypt_table, decrypt, encrypt, hash_string};

#[test]
fn hash_string_matches_known_storm_values() {
    assert_eq!(hash_string("(hash table)", 3), 0xC3AF3770);
    assert_eq!(hash_string("(block table)", 3), 0xEC83B3A3);
}

#[test]
fn hash_string_non_ascii_does_not_panic() {
    for hash_type in 0..4u32 {
        let _ = hash_string("Ā☃𐍈", hash_type);
    }
    assert_eq!(hash_string("(hash table)", 3), 0xC3AF3770);
}

#[test]
fn encrypt_then_decrypt_round_trips() {
    let key = hash_string("(listfile)", 3);
    let original: Vec<u32> = (0..64u32).map(|i| i.wrapping_mul(2654435761u32)).collect();
    let mut data = original.clone();
    encrypt(&mut data, key);
    assert_ne!(data, original);
    decrypt(&mut data, key);
    assert_eq!(data, original);
}

#[test]
fn crypt_table_first_entries_match_storm() {
    let table = crypt_table();
    assert_eq!(table.len(), 1280);
    assert_eq!(table[0], 0x55C636E2);
    assert_eq!(table[1], 0x02BE0170);
}

#[test]
fn hash_is_case_insensitive_and_slash_agnostic() {
    assert_eq!(
        hash_string("alt/objects/gSwordTex", 0),
        hash_string("ALT\\OBJECTS\\GSWORDTEX", 0)
    );
    assert_ne!(hash_string("alt/a", 1), hash_string("alt/b", 1));
}

#[test]
fn decrypt_of_empty_is_empty() {
    let mut data: Vec<u32> = Vec::new();
    decrypt(&mut data, 7);
    assert!(data.is_empty());
}
