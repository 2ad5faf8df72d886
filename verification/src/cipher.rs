//! The byte-wise cipher the site's copy is stored under. It hides text from a
//! casual look at the binary; it offers no secrecy.
//!
//! Each byte is masked with a keystream byte derived from an FNV-1a hash of
//! the key, carried on through the string's seed and the byte's position, and
//! then rotated three bits to the left.

use vstd::prelude::*;
use vstd::string::*;

verus! {

/// FNV-1a 64-bit offset basis.
pub const FNV_OFFSET: u64 = 0xcbf2_9ce4_8422_2325u64;

/// FNV-1a 64-bit prime.
pub const FNV_PRIME: u64 = 0x0000_0100_0000_01b3u64;

/// The key the keystream is derived from: the bytes of `dev-sam`.
pub open spec fn key_bytes() -> Seq<u8> {
    seq![100u8, 101u8, 118u8, 45u8, 115u8, 97u8, 109u8]
}

/// One FNV-1a step over a 64-bit state.
pub open spec fn fnv64_step(hash: u64, byte: u64) -> u64 {
    (hash ^ byte).wrapping_mul(FNV_PRIME)
}

/// FNV-1a over `bytes`, starting from `FNV_OFFSET`.
pub open spec fn fnv64(bytes: Seq<u8>) -> u64
    decreases bytes.len(),
{
    if bytes.len() == 0 {
        FNV_OFFSET
    } else {
        fnv64_step(fnv64(bytes.drop_last()), bytes.last() as u64)
    }
}

/// The key's hash, folded once.
pub open spec fn key_hash_value() -> u64 {
    fnv64(key_bytes())
}

/// `rounds` further FNV steps, each over the low byte of `mixed`, which is
/// shifted down a byte after every step.
pub open spec fn mix_rounds(hash: u64, mixed: u64, rounds: nat) -> u64
    decreases rounds,
{
    if rounds == 0 {
        hash
    } else {
        mix_rounds(fnv64_step(hash, mixed & 0xffu64), mixed >> 8u64, (rounds - 1) as nat)
    }
}

/// The 64-bit word that carries the seed (high half) and the position (low
/// half) into the keystream.
pub open spec fn mixed_word(seed: u32, index: usize) -> u64 {
    ((seed as u64) << 32u64) | ((index as u64) & 0xffff_ffffu64)
}

/// The keystream byte for position `index` of a string seeded with `seed`.
pub open spec fn keystream_byte(seed: u32, index: usize) -> u8 {
    let hash = mix_rounds(key_hash_value(), mixed_word(seed, index), 8);
    (hash ^ (hash >> 24u64) ^ (hash >> 48u64)) as u8
}

/// Rotation of a byte three bits to the left.
pub open spec fn rotl3(byte: u8) -> u8 {
    ((byte << 3u8) | (byte >> 5u8)) as u8
}

/// Rotation of a byte three bits to the right.
pub open spec fn rotr3(byte: u8) -> u8 {
    ((byte >> 3u8) | (byte << 5u8)) as u8
}

/// One byte of ciphertext.
pub open spec fn scrambled(byte: u8, seed: u32, index: usize) -> u8 {
    rotl3(byte ^ keystream_byte(seed, index))
}

/// One byte of plaintext.
pub open spec fn unscrambled(byte: u8, seed: u32, index: usize) -> u8 {
    rotr3(byte) ^ keystream_byte(seed, index)
}

/// FNV-1a 32-bit state after folding in `bytes`.
pub open spec fn fnv32(bytes: Seq<u8>) -> u32
    decreases bytes.len(),
{
    if bytes.len() == 0 {
        0x811c_9dc5u32
    } else {
        (fnv32(bytes.drop_last()) ^ (bytes.last() as u32)).wrapping_mul(0x0100_0193u32)
    }
}

/// The ciphertext of `bytes` under `seed`: each byte scrambled at its own
/// position.
pub open spec fn encrypted_bytes(bytes: Seq<u8>, seed: u32) -> Seq<u8> {
    Seq::new(bytes.len(), |i: int| scrambled(bytes[i], seed, i as usize))
}

/// The bytes that `cipher` unscrambles to under `seed`.
pub open spec fn decrypted_bytes(cipher: Seq<u8>, seed: u32) -> Seq<u8> {
    Seq::new(cipher.len(), |i: int| unscrambled(cipher[i], seed, i as usize))
}

fn key() -> (k: [u8; 7])
    ensures
        k@ == key_bytes(),
{
    let k: [u8; 7] = [100u8, 101u8, 118u8, 45u8, 115u8, 97u8, 109u8];
    assert(k@ =~= key_bytes());
    k
}

/// FNV-1a over the key.
pub fn key_hash() -> (hash: u64)
    ensures
        hash == key_hash_value(),
{
    let key = key();
    let mut hash: u64 = FNV_OFFSET;
    let mut index: usize = 0;
    while index < 7
        invariant
            index <= 7,
            key@ == key_bytes(),
            hash == fnv64(key_bytes().take(index as int)),
        decreases 7 - index,
    {
        let byte: u64 = key[index] as u64;
        hash = (hash ^ byte).wrapping_mul(FNV_PRIME);
        index = index + 1;
        assert(key_bytes().take(index as int).drop_last() =~= key_bytes().take(index - 1));
    }
    assert(key_bytes().take(7) =~= key_bytes());
    hash
}

/// The mask byte position `index` of a string seeded with `seed` is hidden
/// under: the key's hash carried on through the seed and the position.
pub fn keystream(seed: u32, index: usize) -> (mask: u8)
    ensures
        mask == keystream_byte(seed, index),
{
    let mut hash: u64 = key_hash();
    let seed_word: u64 = seed as u64;
    let index_word: u64 = index as u64;
    let mut mixed: u64 = (seed_word << 32u64) | (index_word & 0xffff_ffffu64);
    let mut byte: u64 = 0;
    while byte < 8
        invariant
            byte <= 8,
            mix_rounds(hash, mixed, (8 - byte) as nat) == mix_rounds(
                key_hash_value(),
                mixed_word(seed, index),
                8,
            ),
        decreases 8 - byte,
    {
        hash = (hash ^ (mixed & 0xffu64)).wrapping_mul(FNV_PRIME);
        mixed = mixed >> 8u64;
        byte = byte + 1;
    }
    (hash ^ (hash >> 24u64) ^ (hash >> 48u64)) as u8
}

/// One byte of ciphertext: the byte masked with its keystream byte, then
/// rotated three bits to the left.
pub fn scramble(byte: u8, seed: u32, index: usize) -> (out: u8)
    ensures
        out == scrambled(byte, seed, index),
{
    let masked: u8 = byte ^ keystream(seed, index);
    ((masked << 3u8) | (masked >> 5u8)) as u8
}

/// The exact inverse of [`scramble`].
pub fn unscramble(byte: u8, seed: u32, index: usize) -> (out: u8)
    ensures
        out == unscrambled(byte, seed, index),
{
    let rotated: u8 = ((byte >> 3u8) | (byte << 5u8)) as u8;
    rotated ^ keystream(seed, index)
}

/// Unscrambling a scrambled byte at the same seed and position gives the
/// byte back.
pub proof fn lemma_unscramble_scramble(byte: u8, seed: u32, index: usize)
    ensures
        unscrambled(scrambled(byte, seed, index), seed, index) == byte,
{
    let k = keystream_byte(seed, index);
    assert(rotr3(rotl3(byte ^ k)) ^ k == byte) by (bit_vector);
}

/// Scrambling an unscrambled byte at the same seed and position gives the
/// byte back.
pub proof fn lemma_scramble_unscramble(byte: u8, seed: u32, index: usize)
    ensures
        scrambled(unscrambled(byte, seed, index), seed, index) == byte,
{
    let k = keystream_byte(seed, index);
    assert(rotl3(rotr3(byte) ^ k ^ k) == byte) by (bit_vector);
}

/// A string's own seed: FNV-1a (32-bit) over its UTF-8 bytes.
pub fn seed_of(text: &str) -> (seed: u32)
    ensures
        seed == fnv32(text.spec_bytes()),
{
    let bytes = text.as_bytes();
    let mut hash: u32 = 0x811c_9dc5u32;
    let mut index: usize = 0;
    while index < bytes.len()
        invariant
            index <= bytes@.len(),
            bytes@ == text.spec_bytes(),
            hash == fnv32(bytes@.take(index as int)),
        decreases bytes.len() - index,
    {
        let byte: u32 = bytes[index] as u32;
        hash = (hash ^ byte).wrapping_mul(0x0100_0193u32);
        index = index + 1;
        assert(bytes@.take(index as int).drop_last() =~= bytes@.take(index - 1));
    }
    assert(bytes@.take(bytes@.len() as int) =~= bytes@);
    hash
}

/// The ciphertext of `text`'s UTF-8 bytes under `seed`, one byte per byte.
pub fn encrypt(text: &str, seed: u32) -> (cipher: Vec<u8>)
    ensures
        cipher@ == encrypted_bytes(text.spec_bytes(), seed),
{
    let bytes = text.as_bytes();
    let mut cipher: Vec<u8> = Vec::new();
    let mut index: usize = 0;
    while index < bytes.len()
        invariant
            index <= bytes@.len(),
            bytes@ == text.spec_bytes(),
            cipher@ == encrypted_bytes(bytes@, seed).take(index as int),
        decreases bytes.len() - index,
    {
        cipher.push(scramble(bytes[index], seed, index));
        index = index + 1;
        assert(cipher@ =~= encrypted_bytes(bytes@, seed).take(index as int));
    }
    assert(encrypted_bytes(bytes@, seed).take(bytes@.len() as int) =~= encrypted_bytes(
        bytes@,
        seed,
    ));
    cipher
}

/// Decrypting what was encrypted under the same seed gives the bytes back.
pub proof fn lemma_decrypt_encrypt(bytes: Seq<u8>, seed: u32)
    ensures
        decrypted_bytes(encrypted_bytes(bytes, seed), seed) == bytes,
{
    assert forall|i: int| 0 <= i < bytes.len() implies #[trigger] decrypted_bytes(
        encrypted_bytes(bytes, seed),
        seed,
    )[i] == bytes[i] by {
        lemma_unscramble_scramble(bytes[i], seed, i as usize);
    }
    assert(decrypted_bytes(encrypted_bytes(bytes, seed), seed) =~= bytes);
}

} // verus!
