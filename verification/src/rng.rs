//! The deterministic generator from which a draw is taken: a ChaCha20 key
//! stream, keyed by the SHA-256 digest of a seed.
//!
//! The generator is held as the two plain values that determine what it gives
//! next: the key and the position in the key stream, counted in words of 32
//! bits. The digest and the key stream themselves are computed by the `sha2`
//! and `rand_chacha` crates.

use vstd::prelude::*;
use rand_chacha::ChaChaRng;
use rand_core::{RngCore, SeedableRng};
use sha2::{Digest, Sha256};

verus! {

/// The SHA-256 digest of a byte string: 32 bytes.
pub uninterp spec fn sha256_digest(data: Seq<u8>) -> Seq<u8>;

/// The word that a ChaCha20 generator with the key `key` gives next when it
/// stands at the position `pos` of its key stream.
pub uninterp spec fn chacha_word(key: Seq<u8>, pos: int) -> u32;

/// The 32 bytes that a ChaCha20 generator with the key `key` gives next when
/// it stands at the position `pos` of its key stream.
pub uninterp spec fn chacha_bytes(key: Seq<u8>, pos: int) -> Seq<u8>;

/// The number of positions in a key stream, after which it starts again.
pub open spec fn stream_len() -> int {
    0x10_0000_0000_0000_0000
}

/// `Digest::digest` of `sha2::Sha256`: the result is the SHA-256 digest of
/// `data`, a function of the bytes alone.
#[verifier::external_body]
fn sha256(data: &[u8]) -> (digest: [u8; 32])
    ensures
        digest@ == sha256_digest(data@),
{
    let hash = Sha256::digest(data);
    let mut bytes = [0u8; 32];
    bytes.copy_from_slice(hash.as_slice());
    bytes
}

/// `next_u32` of `rand_chacha::ChaChaRng`, on a generator that is made from
/// the two plain values: by `from_seed` with the key and `set_word_pos` with
/// the position. The word that it gives is a function of the key and the
/// position alone.
#[verifier::external_body]
fn chacha_word_at(key: &[u8; 32], pos: u128) -> (word: u32)
    ensures
        word == chacha_word(key@, pos as int),
{
    let mut rng = ChaChaRng::from_seed(*key);
    rng.set_word_pos(pos);
    rng.next_u32()
}

/// `fill_bytes` of `rand_chacha::ChaChaRng` for 32 bytes, on a generator that
/// is made from the two plain values: by `from_seed` with the key and
/// `set_word_pos` with the position. The bytes that it gives are a function of
/// the key and the position alone.
#[verifier::external_body]
fn chacha_bytes_at(key: &[u8; 32], pos: u128) -> (bytes: [u8; 32])
    ensures
        bytes@ == chacha_bytes(key@, pos as int),
{
    let mut rng = ChaChaRng::from_seed(*key);
    rng.set_word_pos(pos);
    let mut bytes = [0u8; 32];
    rng.fill_bytes(&mut bytes);
    bytes
}

/// A generator of pseudo-random words that is determined by its seed. Its
/// position always lies within the key stream.
pub struct Prng {
    key: [u8; 32],
    word_pos: u128,
}

impl Prng {
    /// The key of the key stream.
    pub closed spec fn key(&self) -> Seq<u8> {
        self.key@
    }

    /// The position in the key stream of the word that comes next.
    pub closed spec fn word_pos(&self) -> int {
        self.word_pos as int
    }

    /// The position lies within the key stream.
    #[verifier::type_invariant]
    spec fn in_stream(&self) -> bool {
        self.word_pos < 0x10_0000_0000_0000_0000
    }

    /// A generator at the start of the key stream whose key is the digest of
    /// `seed`.
    pub fn new(seed: &[u8]) -> (prng: Prng)
        ensures
            prng.key() == sha256_digest(seed@),
            prng.word_pos() == 0,
    {
        Prng { key: sha256(seed), word_pos: 0 }
    }

    /// The next word of the key stream.
    pub fn next_u32(&mut self) -> (word: u32)
        ensures
            word == chacha_word(old(self).key(), old(self).word_pos()),
            final(self).key() == old(self).key(),
            final(self).word_pos() == (old(self).word_pos() + 1) % stream_len(),
    {
        proof {
            use_type_invariant(&*self);
        }
        let word = chacha_word_at(&self.key, self.word_pos);
        self.word_pos = if self.word_pos == 0xf_ffff_ffff_ffff_ffff {
            0
        } else {
            self.word_pos + 1
        };
        word
    }

    /// The next 32 bytes of the key stream, which are eight words of it.
    pub fn rand_bytes(&mut self) -> (bytes: [u8; 32])
        ensures
            bytes@ == chacha_bytes(old(self).key(), old(self).word_pos()),
            final(self).key() == old(self).key(),
            final(self).word_pos() == (old(self).word_pos() + 8) % stream_len(),
    {
        proof {
            use_type_invariant(&*self);
        }
        let bytes = chacha_bytes_at(&self.key, self.word_pos);
        self.word_pos = if self.word_pos >= 0xf_ffff_ffff_ffff_fff8 {
            self.word_pos - 0xf_ffff_ffff_ffff_fff8
        } else {
            self.word_pos + 8
        };
        bytes
    }

    /// Moves the generator to the position `count` of its key stream.
    pub fn set_word_pos(&mut self, count: u32)
        ensures
            final(self).key() == old(self).key(),
            final(self).word_pos() == count,
    {
        self.word_pos = count as u128;
    }
}

/// The number that the seed stands for: the first word of the key stream that
/// the seed's digest keys.
pub open spec fn seed_to_u32(seed: Seq<u8>) -> u32 {
    chacha_word(sha256_digest(seed), 0)
}

/// The number of the wheel that is drawn from the seed.
pub open spec fn drawn_number(seed: Seq<u8>) -> int {
    seed_to_u32(seed) as int % 37
}

/// The pocket of the wheel on which a pseudo-random word falls.
pub fn pocket(word: u32) -> (n: u32)
    ensures
        n == word as int % 37,
        n <= 36,
{
    word % 37
}

/// Draws the number of the wheel that belongs to the seed.
pub fn draw(seed: &[u8]) -> (n: u32)
    ensures
        n == drawn_number(seed@),
        n <= 36,
{
    let mut prng = Prng::new(seed);
    pocket(prng.next_u32())
}

} // verus!
