//! The MPQ ("Storm") hashing and table cipher.

use vstd::prelude::*;

verus! {

/// Number of entries in the Storm crypt table: five blocks of 256.
pub const CRYPT_TABLE_LEN: usize = 1280;

/// One step of the seed generator that fills the crypt table.
pub open spec fn seed_step(s: int) -> int {
    (s * 125 + 3) % 0x2AAAAB
}

/// The generator seed after `n` steps.
pub open spec fn crypt_seed(n: nat) -> int
    decreases n,
{
    if n == 0 {
        0x0010_0001
    } else {
        seed_step(crypt_seed((n - 1) as nat))
    }
}

/// Entry `i` of the crypt table: slot `index1 + 256 * k` is made of the
/// generator's outputs number `2m + 1` (high half) and `2m + 2` (low half),
/// where `m = 5 * index1 + k`.
#[verifier::opaque]
pub open spec fn crypt_entry(i: int) -> u32 {
    let index1 = i % 256;
    let k = i / 256;
    let m = 5 * index1 + k;
    ((crypt_seed((2 * m + 1) as nat) % 0x10000) * 0x10000 + crypt_seed((2 * m + 2) as nat) % 0x10000) as u32
}

proof fn lemma_seed_bounded(n: nat)
    ensures
        0 <= crypt_seed(n) < 0x2AAAAB,
    decreases n,
{
    if n > 0 {
        lemma_seed_bounded((n - 1) as nat);
    }
}

/// Builds the 1280-entry Storm crypt table.
pub fn crypt_table() -> (table: Vec<u32>)
    ensures
        table.len() == CRYPT_TABLE_LEN,
        forall|i: int| 0 <= i < CRYPT_TABLE_LEN ==> #[trigger] table@[i] == crypt_entry(i),
{
    let mut table: Vec<u32> = vec![0u32; CRYPT_TABLE_LEN];
    let mut seed: u32 = 0x0010_0001;
    let mut index1: usize = 0;
    proof {
        lemma_seed_bounded(0);
    }
    while index1 < 256
        invariant
            0 <= index1 <= 256,
            table.len() == CRYPT_TABLE_LEN,
            seed == crypt_seed((10 * index1) as nat),
            forall|i: int| 0 <= i < CRYPT_TABLE_LEN && i % 256 < index1 ==> #[trigger] table@[i] == crypt_entry(i),
        decreases 256 - index1,
    {
        let mut k: usize = 0;
        while k < 5
            invariant
                0 <= index1 < 256,
                0 <= k <= 5,
                table.len() == CRYPT_TABLE_LEN,
                seed == crypt_seed((10 * index1 + 2 * k) as nat),
                forall|i: int| 0 <= i < CRYPT_TABLE_LEN && (i % 256 < index1 || (i % 256 == index1 && i / 256 < k)) ==> #[trigger] table@[i] == crypt_entry(i),
            decreases 5 - k,
        {
            let ghost m: int = 5 * index1 + k;
            proof {
                reveal(crypt_entry);
                lemma_seed_bounded((2 * m) as nat);
                lemma_seed_bounded((2 * m + 1) as nat);
            }
            seed = (seed * 125 + 3) % 0x2AAAAB;
            assert(seed == crypt_seed((2 * m + 1) as nat));
            let temp1: u32 = (seed % 0x10000) * 0x10000;
            seed = (seed * 125 + 3) % 0x2AAAAB;
            assert(seed == crypt_seed((2 * m + 2) as nat));
            let temp2: u32 = seed % 0x10000;
            let slot: usize = index1 + 256 * k;
            table.set(slot, temp1 + temp2);
            assert(slot as int % 256 == index1 && slot as int / 256 == k);
            assert forall|i: int| 0 <= i < CRYPT_TABLE_LEN && (i % 256 < index1 || (i % 256 == index1 && i / 256 < k + 1)) implies #[trigger] table@[i] == crypt_entry(i) by {
                if i == slot as int {
                } else {
                    assert(i % 256 < index1 || (i % 256 == index1 && i / 256 < k)) by {
                        if i % 256 == index1 && i / 256 == k {
                            assert(i == 256 * (i / 256) + i % 256);
                        }
                    }
                }
            }
            k = k + 1;
        }
        assert forall|i: int| 0 <= i < CRYPT_TABLE_LEN && i % 256 < index1 + 1 implies #[trigger] table@[i] == crypt_entry(i) by {
            if i % 256 == index1 {
                assert(i / 256 < 5);
            }
        }
        index1 = index1 + 1;
    }
    table
}


/// The byte that a character of a name contributes to its hash: `/` counts
/// as `\`, ASCII letters are upper-cased, and only the low byte of the code
/// point is kept.
pub open spec fn hash_byte(c: char) -> u32 {
    let v = c as u32;
    let v = if v == 0x2F { 0x5Cu32 } else { v };
    let v = if 0x61 <= v <= 0x7A { (v - 32) as u32 } else { v };
    v % 256
}

/// The two hash seeds after the characters of `chars` went in, in order.
pub open spec fn hash_state(chars: Seq<char>, hash_type: u32) -> (u32, u32)
    decreases chars.len(),
{
    if chars.len() == 0 {
        (0x7FED_7FEDu32, 0xEEEE_EEEEu32)
    } else {
        let (s1, s2) = hash_state(chars.drop_last(), hash_type);
        let b = hash_byte(chars.last());
        let n1 = crypt_entry(hash_type * 256 + b) ^ s1.wrapping_add(s2);
        let n2 = b.wrapping_add(n1).wrapping_add(s2).wrapping_add(s2 << 5u32).wrapping_add(3);
        (n1, n2)
    }
}

/// The Storm hash of a name under one of the hash types.
pub open spec fn storm_hash(chars: Seq<char>, hash_type: u32) -> u32 {
    hash_state(chars, hash_type).0
}

fn hash_byte_of(c: char) -> (b: u32)
    ensures
        b == hash_byte(c),
        b < 256,
{
    let mut v: u32 = c as u32;
    if v == 0x2F {
        v = 0x5C;
    }
    if 0x61 <= v && v <= 0x7A {
        v = v - 32;
    }
    v % 256
}

/// Hashes a name the way MPQ archives do: case-insensitively, with `/` and
/// `\` treated alike. `hash_type` picks one of the table's five blocks.
pub fn hash_string(s: &str, hash_type: u32) -> (h: u32)
    requires
        hash_type <= 4,
    ensures
        h == storm_hash(s@, hash_type),
{
    let table = crypt_table();
    let mut seed1: u32 = 0x7FED_7FED;
    let mut seed2: u32 = 0xEEEE_EEEE;
    let ghost chars = s@;
    for ch in it: s.chars()
        invariant
            table.len() == CRYPT_TABLE_LEN,
            forall|i: int| 0 <= i < CRYPT_TABLE_LEN ==> #[trigger] table@[i] == crypt_entry(i),
            hash_type <= 4,
            it.seq() == chars,
            (seed1, seed2) == hash_state(chars.take(it.index()), hash_type),
    {
        let b = hash_byte_of(ch);
        let idx: usize = (hash_type * 256 + b) as usize;
        let n1: u32 = table[idx] ^ seed1.wrapping_add(seed2);
        let n2: u32 = b.wrapping_add(n1).wrapping_add(seed2).wrapping_add(seed2 << 5u32).wrapping_add(3);
        proof {
            let k = it.index();
            assert(chars.take(k + 1).drop_last() =~= chars.take(k));
            assert(chars.take(k + 1).last() == ch);
        }
        seed1 = n1;
        seed2 = n2;
    }
    assert(chars.take(chars.len() as int) =~= chars);
    seed1
}

/// Seed 2 once the table word picked by seed 1 has been mixed in.
pub open spec fn mixed_seed2(s1: u32, s2: u32) -> u32 {
    s2.wrapping_add(crypt_entry(0x400 + (s1 & 0xFF) as int))
}

/// Seed 1 for the next word.
pub open spec fn next_seed1(s1: u32) -> u32 {
    ((!s1) << 0x15u32).wrapping_add(0x1111_1111) | (s1 >> 0x0Bu32)
}

/// Seed 2 for the next word, from the plain word and the mixed seed 2.
pub open spec fn next_seed2(plain: u32, m: u32) -> u32 {
    plain.wrapping_add(m).wrapping_add(m << 5u32).wrapping_add(3)
}

/// The plain words of `data` deciphered from the seed state `(s1, s2)`.
pub open spec fn decrypt_from(data: Seq<u32>, s1: u32, s2: u32) -> Seq<u32>
    decreases data.len(),
{
    if data.len() == 0 {
        Seq::empty()
    } else {
        let m = mixed_seed2(s1, s2);
        let p = data[0] ^ s1.wrapping_add(m);
        seq![p] + decrypt_from(data.drop_first(), next_seed1(s1), next_seed2(p, m))
    }
}

/// The cipher words of `data` enciphered from the seed state `(s1, s2)`.
pub open spec fn encrypt_from(data: Seq<u32>, s1: u32, s2: u32) -> Seq<u32>
    decreases data.len(),
{
    if data.len() == 0 {
        Seq::empty()
    } else {
        let m = mixed_seed2(s1, s2);
        let c = data[0] ^ s1.wrapping_add(m);
        seq![c] + encrypt_from(data.drop_first(), next_seed1(s1), next_seed2(data[0], m))
    }
}

/// Deciphering `data` under `key`.
pub open spec fn spec_decrypt(data: Seq<u32>, key: u32) -> Seq<u32> {
    decrypt_from(data, key, 0xEEEE_EEEEu32)
}

/// Enciphering `data` under `key`.
pub open spec fn spec_encrypt(data: Seq<u32>, key: u32) -> Seq<u32> {
    encrypt_from(data, key, 0xEEEE_EEEEu32)
}

proof fn lemma_low_byte(s1: u32)
    ensures
        (s1 & 0xFF) < 256,
{
    assert((s1 & 0xFF) < 256) by (bit_vector);
}

/// Deciphers `data` in place with the MPQ table cipher under `key`.
pub fn decrypt(data: &mut [u32], key: u32)
    ensures
        final(data)@ == spec_decrypt(old(data)@, key),
{
    let table = crypt_table();
    let ghost orig = data@;
    let mut seed1: u32 = key;
    let mut seed2: u32 = 0xEEEE_EEEE;
    let mut i: usize = 0;
    assert(orig.skip(0) =~= orig);
    assert(data@.take(0) + decrypt_from(orig.skip(0), seed1, seed2) =~= spec_decrypt(orig, key));
    while i < data.len()
        invariant
            table.len() == CRYPT_TABLE_LEN,
            forall|j: int| 0 <= j < CRYPT_TABLE_LEN ==> #[trigger] table@[j] == crypt_entry(j),
            0 <= i <= data@.len(),
            data@.len() == orig.len(),
            data@.skip(i as int) == orig.skip(i as int),
            data@.take(i as int) + decrypt_from(orig.skip(i as int), seed1, seed2) == spec_decrypt(orig, key),
        decreases data@.len() - i,
    {
        proof {
            lemma_low_byte(seed1);
        }
        let m: u32 = seed2.wrapping_add(table[(0x400 + (seed1 & 0xFF)) as usize]);
        let value: u32 = data[i];
        let plain: u32 = value ^ seed1.wrapping_add(m);
        let ghost rest = orig.skip(i as int);
        let ghost prev = data@;
        assert(rest[0] == value) by {
            assert(prev.skip(i as int)[0] == prev[i as int]);
        }
        let n1: u32 = ((!seed1) << 0x15u32).wrapping_add(0x1111_1111) | (seed1 >> 0x0Bu32);
        let n2: u32 = plain.wrapping_add(m).wrapping_add(m << 5u32).wrapping_add(3);
        data[i] = plain;
        proof {
            assert(rest.drop_first() =~= orig.skip(i + 1));
            assert(data@.take(i + 1) =~= prev.take(i as int).push(plain));
            assert(data@.skip(i + 1) =~= prev.skip(i + 1));
            assert(prev.skip(i + 1) =~= prev.skip(i as int).drop_first());
            assert(data@.take(i + 1) + decrypt_from(orig.skip(i + 1), n1, n2)
                =~= prev.take(i as int) + decrypt_from(rest, seed1, seed2));
        }
        seed1 = n1;
        seed2 = n2;
        i = i + 1;
    }
    assert(data@.take(i as int) =~= data@);
    assert(orig.skip(i as int) =~= Seq::<u32>::empty());
}

/// Enciphers `data` in place with the MPQ table cipher under `key`.
pub fn encrypt(data: &mut [u32], key: u32)
    ensures
        final(data)@ == spec_encrypt(old(data)@, key),
{
    let table = crypt_table();
    let ghost orig = data@;
    let mut seed1: u32 = key;
    let mut seed2: u32 = 0xEEEE_EEEE;
    let mut i: usize = 0;
    assert(orig.skip(0) =~= orig);
    assert(data@.take(0) + encrypt_from(orig.skip(0), seed1, seed2) =~= spec_encrypt(orig, key));
    while i < data.len()
        invariant
            table.len() == CRYPT_TABLE_LEN,
            forall|j: int| 0 <= j < CRYPT_TABLE_LEN ==> #[trigger] table@[j] == crypt_entry(j),
            0 <= i <= data@.len(),
            data@.len() == orig.len(),
            data@.skip(i as int) == orig.skip(i as int),
            data@.take(i as int) + encrypt_from(orig.skip(i as int), seed1, seed2) == spec_encrypt(orig, key),
        decreases data@.len() - i,
    {
        proof {
            lemma_low_byte(seed1);
        }
        let m: u32 = seed2.wrapping_add(table[(0x400 + (seed1 & 0xFF)) as usize]);
        let plain: u32 = data[i];
        let cipher: u32 = plain ^ seed1.wrapping_add(m);
        let ghost rest = orig.skip(i as int);
        let ghost prev = data@;
        assert(rest[0] == plain) by {
            assert(prev.skip(i as int)[0] == prev[i as int]);
        }
        let n1: u32 = ((!seed1) << 0x15u32).wrapping_add(0x1111_1111) | (seed1 >> 0x0Bu32);
        let n2: u32 = plain.wrapping_add(m).wrapping_add(m << 5u32).wrapping_add(3);
        data[i] = cipher;
        proof {
            assert(rest.drop_first() =~= orig.skip(i + 1));
            assert(data@.take(i + 1) =~= prev.take(i as int).push(cipher));
            assert(data@.skip(i + 1) =~= prev.skip(i + 1));
            assert(prev.skip(i + 1) =~= prev.skip(i as int).drop_first());
            assert(data@.take(i + 1) + encrypt_from(orig.skip(i + 1), n1, n2)
                =~= prev.take(i as int) + encrypt_from(rest, seed1, seed2));
        }
        seed1 = n1;
        seed2 = n2;
        i = i + 1;
    }
    assert(data@.take(i as int) =~= data@);
    assert(orig.skip(i as int) =~= Seq::<u32>::empty());
}

proof fn lemma_xor_twice(p: u32, x: u32)
    ensures
        (p ^ x) ^ x == p,
{
    assert((p ^ x) ^ x == p) by (bit_vector);
}

proof fn lemma_decrypt_encrypt_from(data: Seq<u32>, s1: u32, s2: u32)
    ensures
        decrypt_from(encrypt_from(data, s1, s2), s1, s2) == data,
    decreases data.len(),
{
    if data.len() > 0 {
        let m = mixed_seed2(s1, s2);
        let c = data[0] ^ s1.wrapping_add(m);
        lemma_xor_twice(data[0], s1.wrapping_add(m));
        let e = encrypt_from(data, s1, s2);
        assert(e[0] == c);
        assert(e.drop_first() =~= encrypt_from(data.drop_first(), next_seed1(s1), next_seed2(data[0], m)));
        lemma_decrypt_encrypt_from(data.drop_first(), next_seed1(s1), next_seed2(data[0], m));
        assert(decrypt_from(e, s1, s2) =~= data);
    }
}

/// Deciphering what was enciphered under the same key gives the words back.
pub proof fn law_decrypt_undoes_encrypt(data: Seq<u32>, key: u32)
    ensures
        spec_decrypt(spec_encrypt(data, key), key) == data,
{
    lemma_decrypt_encrypt_from(data, key, 0xEEEE_EEEEu32);
}

/// Deciphering keeps the number of words.
pub proof fn lemma_decrypt_len(data: Seq<u32>, s1: u32, s2: u32)
    ensures
        decrypt_from(data, s1, s2).len() == data.len(),
    decreases data.len(),
{
    if data.len() > 0 {
        let m = mixed_seed2(s1, s2);
        let p = data[0] ^ s1.wrapping_add(m);
        lemma_decrypt_len(data.drop_first(), next_seed1(s1), next_seed2(p, m));
    }
}

/// Two characters that a name's hash does not tell apart: the same
/// character, the same ASCII letter in either case, or `/` and `\`.
pub open spec fn hash_alike(x: char, y: char) -> bool {
    ||| x == y
    ||| ('a' <= x <= 'z' && (y as u32) == (x as u32) - 32)
    ||| ('a' <= y <= 'z' && (x as u32) == (y as u32) - 32)
    ||| ((x == '/' || x == '\\') && (y == '/' || y == '\\'))
}

/// Names are hashed without regard to ASCII case or to which slash
/// separates their parts.
pub proof fn law_hash_ignores_case_and_slash(a: Seq<char>, b: Seq<char>, hash_type: u32)
    requires
        a.len() == b.len(),
        forall|i: int| 0 <= i < a.len() ==> hash_alike(#[trigger] a[i], b[i]),
    ensures
        storm_hash(a, hash_type) == storm_hash(b, hash_type),
{
    lemma_hash_state_alike(a, b, hash_type);
}

proof fn lemma_hash_state_alike(a: Seq<char>, b: Seq<char>, hash_type: u32)
    requires
        a.len() == b.len(),
        forall|i: int| 0 <= i < a.len() ==> hash_alike(#[trigger] a[i], b[i]),
    ensures
        hash_state(a, hash_type) == hash_state(b, hash_type),
    decreases a.len(),
{
    if a.len() > 0 {
        let da = a.drop_last();
        let db = b.drop_last();
        assert forall|i: int| 0 <= i < da.len() implies hash_alike(#[trigger] da[i], db[i]) by {
            assert(da[i] == a[i] && db[i] == b[i]);
        }
        lemma_hash_state_alike(da, db, hash_type);
        assert(hash_alike(a[a.len() - 1], b[b.len() - 1]));
        assert(hash_byte(a.last()) == hash_byte(b.last()));
    }
}

/// Hash type `t` draws on block `t` of the crypt table: a one-character
/// name hashes to the block-`t` word of its byte mixed with the two
/// starting seeds, and each further character replaces seed 1 by the
/// block-`t` word of its byte mixed with the sum of the seeds before it.
pub proof fn law_hash_type_picks_block(name: Seq<char>, c: char, t: u32)
    ensures
        storm_hash(seq![c], t) == crypt_entry(t * 256 + hash_byte(c)) ^ 0x6EDC_6EDBu32,
        storm_hash(name.push(c), t)
            == crypt_entry(t * 256 + hash_byte(c)) ^ hash_state(name, t).0.wrapping_add(hash_state(name, t).1),
{
    let e = Seq::<char>::empty();
    assert(hash_state(e, t) == (0x7FED_7FEDu32, 0xEEEE_EEEEu32));
    assert(0x7FED_7FEDu32.wrapping_add(0xEEEE_EEEEu32) == 0x6EDC_6EDBu32);
    let one = e.push(c);
    assert(one =~= seq![c]);
    assert(one.drop_last() =~= e);
    assert(storm_hash(one, t) == crypt_entry(t * 256 + hash_byte(c)) ^ 0x6EDC_6EDBu32);
    let longer = name.push(c);
    assert(longer.drop_last() =~= name);
    assert(longer.last() == c);
}

/// The Storm key schedule: the first word is deciphered with the key and
/// the block-4 word its low byte picks; the second with the key turned by
/// `((!key) << 21) + 0x11111111 | key >> 11` and the seed 2 that the first
/// plain word and its mixing give.
pub proof fn law_decrypt_key_schedule(data: Seq<u32>, key: u32)
    requires
        data.len() >= 2,
    ensures
        ({
            let m0 = 0xEEEE_EEEEu32.wrapping_add(crypt_entry(0x400 + (key & 0xFF) as int));
            let p0 = data[0] ^ key.wrapping_add(m0);
            let k1 = ((!key) << 21u32).wrapping_add(0x1111_1111) | (key >> 11u32);
            let m1 = p0.wrapping_add(m0).wrapping_add(m0 << 5u32).wrapping_add(3)
                .wrapping_add(crypt_entry(0x400 + (k1 & 0xFF) as int));
            &&& spec_decrypt(data, key).len() == data.len()
            &&& spec_decrypt(data, key)[0] == p0
            &&& spec_decrypt(data, key)[1] == data[1] ^ k1.wrapping_add(m1)
        }),
{
    let m0 = mixed_seed2(key, 0xEEEE_EEEEu32);
    let p0 = data[0] ^ key.wrapping_add(m0);
    let rest = data.drop_first();
    let k1 = next_seed1(key);
    let s2 = next_seed2(p0, m0);
    lemma_decrypt_len(data, key, 0xEEEE_EEEEu32);
    assert(spec_decrypt(data, key) == seq![p0] + decrypt_from(rest, k1, s2));
    assert(decrypt_from(rest, k1, s2)[0] == rest[0] ^ k1.wrapping_add(mixed_seed2(k1, s2)));
    assert(rest[0] == data[1]);
}

} // verus!
