//! Strings stored as ciphertext and decrypted on use, so the site's copy is
//! not legible in the binary's data. It offers no secrecy: the cipher and its
//! key are public.

use crate::cipher::{
    decrypted_bytes, encrypt, encrypted_bytes, fnv32, lemma_decrypt_encrypt, seed_of, unscramble,
};
use vstd::prelude::*;
use vstd::string::*;
use vstd::utf8::*;

verus! {

/// The text that `bytes` decode to as UTF-8, or `None` when they are not
/// UTF-8. Calls `String::from_utf8`, which std documents as succeeding exactly
/// on valid UTF-8 and then holding the decoded characters.
#[verifier::external_body]
fn utf8_string(bytes: Vec<u8>) -> (text: Option<String>)
    ensures
        text is Some <==> valid_utf8(bytes@),
        text matches Some(t) ==> t@ == decode_utf8(bytes@),
{
    String::from_utf8(bytes).ok()
}

/// The plaintext a ciphertext stands for: its unscrambled bytes decoded as
/// UTF-8, or the empty string when they are not UTF-8.
pub open spec fn plaintext_of(cipher: Seq<u8>, seed: u32) -> Seq<char> {
    if valid_utf8(decrypted_bytes(cipher, seed)) {
        decode_utf8(decrypted_bytes(cipher, seed))
    } else {
        Seq::empty()
    }
}

/// A string that is stored encrypted and decrypted on use.
#[derive(Clone, Debug)]
pub struct EncryptedString {
    seed: u32,
    cipher: Vec<u8>,
}

impl View for EncryptedString {
    type V = Seq<char>;

    /// What the string decrypts to.
    open spec fn view(&self) -> Seq<char> {
        plaintext_of(self.cipher_spec(), self.seed_spec())
    }
}

impl EncryptedString {
    pub closed spec fn seed_spec(&self) -> u32 {
        self.seed
    }

    pub closed spec fn cipher_spec(&self) -> Seq<u8> {
        self.cipher@
    }

    /// Wraps ciphertext produced by [`encrypt`] under the same `seed`.
    pub fn new(seed: u32, cipher: Vec<u8>) -> (s: Self)
        ensures
            s.seed_spec() == seed,
            s.cipher_spec() == cipher@,
            s@ == plaintext_of(cipher@, seed),
    {
        EncryptedString { seed, cipher }
    }

    /// The plaintext.
    pub fn decrypt(&self) -> (plain: String)
        ensures
            plain@ == self@,
            plain@ == plaintext_of(self.cipher_spec(), self.seed_spec()),
    {
        let mut bytes: Vec<u8> = Vec::new();
        let mut index: usize = 0;
        while index < self.cipher.len()
            invariant
                index <= self.cipher@.len(),
                bytes@ == decrypted_bytes(self.cipher@, self.seed).take(index as int),
            decreases self.cipher.len() - index,
        {
            bytes.push(unscramble(self.cipher[index], self.seed, index));
            index = index + 1;
            assert(bytes@ =~= decrypted_bytes(self.cipher@, self.seed).take(index as int));
        }
        assert(decrypted_bytes(self.cipher@, self.seed).take(self.cipher@.len() as int)
            =~= decrypted_bytes(self.cipher@, self.seed));
        match utf8_string(bytes) {
            Some(text) => text,
            None => String::new(),
        }
    }
}

/// A string literal as ciphertext, seeded with its own hash.
pub fn encrypted_str(text: &str) -> (s: EncryptedString)
    ensures
        s.seed_spec() == fnv32(text.spec_bytes()),
        s.cipher_spec() == encrypted_bytes(text.spec_bytes(), s.seed_spec()),
        s@ == text@,
{
    let seed = seed_of(text);
    let cipher = encrypt(text, seed);
    proof {
        lemma_encrypt_then_decrypt(text@, seed);
    }
    EncryptedString::new(seed, cipher)
}

/// Whatever seed a text is encrypted under, the ciphertext decrypts back to
/// exactly that text.
pub proof fn lemma_encrypt_then_decrypt(text: Seq<char>, seed: u32)
    ensures
        plaintext_of(encrypted_bytes(encode_utf8(text), seed), seed) == text,
{
    lemma_decrypt_encrypt(encode_utf8(text), seed);
    encode_utf8_valid_utf8(text);
    encode_utf8_decode_utf8(text);
}

/// Where one string sits inside a shared ciphertext blob: its seed, and the
/// offset and length of its bytes.
#[derive(Clone, Copy, Debug, PartialEq, Eq)]
pub struct EncryptedRun {
    pub seed: u32,
    pub start: u32,
    pub len: u32,
}

impl EncryptedRun {
    pub fn new(seed: u32, start: u32, len: u32) -> (run: Self)
        ensures
            run == (EncryptedRun { seed, start, len }),
    {
        EncryptedRun { seed, start, len }
    }

    /// Whether the run lies inside a blob of `blob_len` bytes.
    pub open spec fn fits(self, blob_len: nat) -> bool {
        self.start + self.len <= blob_len
    }

    /// The bytes of `blob` this run names.
    pub open spec fn bytes_in(self, blob: Seq<u8>) -> Seq<u8> {
        blob.subrange(self.start as int, self.start + self.len)
    }

    /// The string this run names, read out of the blob it was encrypted into.
    pub fn of(self, blob: &[u8]) -> (s: EncryptedString)
        requires
            self.fits(blob@.len()),
        ensures
            s.seed_spec() == self.seed,
            s.cipher_spec() == self.bytes_in(blob@),
            s@ == plaintext_of(self.bytes_in(blob@), self.seed),
    {
        let start: usize = self.start as usize;
        let len: usize = self.len as usize;
        let blob_len: usize = blob.len();
        assert(start + len <= blob_len);
        let end: usize = start + len;
        let mut cipher: Vec<u8> = Vec::new();
        let mut index: usize = start;
        while index < end
            invariant
                start <= index <= end,
                end <= blob@.len(),
                start == self.start,
                end == self.start + self.len,
                cipher@ == blob@.subrange(start as int, index as int),
            decreases end - index,
        {
            cipher.push(blob[index]);
            index = index + 1;
            assert(cipher@ =~= blob@.subrange(start as int, index as int));
        }
        EncryptedString::new(self.seed, cipher)
    }
}

} // verus!
