//! Scintia-96 with a precomputed key schedule, which can also undo the permutation.

use vstd::prelude::*;

use crate::key_schedule::{
    decrypt_step, encrypt_step, lemma_schedule_state_shape, round_key, round_keys,
    schedule_state, SpeckKeySchedule,
};
use crate::rounds::{
    decrypt_rounds, encrypt_rounds, keyed_inverse, keyed_permutation, lanes_at, lanes_of,
    lemma_keyed_inverse,
};
use crate::scintia_96::permutation;
use crate::utils::{
    bytes_from_words, key_bytes_to_words, key_words_from_bytes, lemma_bytes_words_roundtrip,
    words_from_bytes,
};
use crate::{Scintia96Permuter, Scintia96Unpermuter, ROUNDS};

verus! {

/// A Scintia-96 instance for server environments, with its 32 round keys
/// computed once, when it is made.
#[derive(Debug, Clone, Copy)]
pub struct Scintia96Cipher {
    round_keys: [u32; 32],
}

impl View for Scintia96Cipher {
    type V = Seq<u32>;

    /// The round keys, in the order the rounds use them.
    closed spec fn view(&self) -> Seq<u32> {
        self.round_keys@
    }
}

impl Scintia96Cipher {
    /// Creates a cipher from a 128-bit key given as 16 bytes: four 32-bit words,
    /// each in little-endian order. The whole key schedule is computed here.
    pub fn new(key: &[u8; 16]) -> (r: Self)
        ensures
            r@ == round_keys(key_words_from_bytes(*key), ROUNDS as nat),
    {
        let mut k_schedule = [0u32; 32];
        let key_words = key_bytes_to_words(key);

        let mut schedule_iter = SpeckKeySchedule::new(key_words);
        for i in 0..ROUNDS as usize
            invariant
                key_words == key_words_from_bytes(*key),
                schedule_iter@ == schedule_state(key_words, i as nat),
                forall|j: int| 0 <= j < i ==> k_schedule[j] == round_key(key_words, j as nat),
        {
            proof {
                lemma_schedule_state_shape(key_words, i as nat);
            }
            k_schedule[i] = schedule_iter.next().unwrap();
        }
        let r = Self { round_keys: k_schedule };
        assert(r@ =~= round_keys(key_words, ROUNDS as nat));
        r
    }

    /// The round keys have one entry per round.
    pub proof fn lemma_round_key_count(&self)
        ensures
            self@.len() == ROUNDS,
    {
    }

    /// Permutes a block of three words with the precomputed round keys.
    pub fn encrypt_words(&self, block: [u32; 3]) -> (r: [u32; 3])
        ensures
            r == keyed_permutation(self@, block),
    {
        let mut a = block[0];
        let mut b = block[1];
        let mut c = block[2];
        let ghost s0 = lanes_of(block);

        for i in 0..ROUNDS as usize
            invariant
                s0 == lanes_of(block),
                self@.len() == ROUNDS,
                lanes_at(a, b, c, i as nat) == encrypt_rounds(self@, s0, i as nat),
        {
            let k = self.round_keys[i];
            match i % 3 {
                0 => encrypt_step(k, &mut a, &mut b, &mut c),
                1 => encrypt_step(k, &mut b, &mut c, &mut a),
                _ => encrypt_step(k, &mut c, &mut a, &mut b),
            }
        }

        match ROUNDS % 3 {
            1 => [b, c, a],
            2 => [c, a, b],
            _ => [a, b, c],
        }
    }

    /// Undoes [`Self::encrypt_words`] on a block of three words.
    pub fn decrypt_words(&self, block: [u32; 3]) -> (r: [u32; 3])
        ensures
            r == keyed_inverse(self@, block),
    {
        let word0 = block[0];
        let word1 = block[1];
        let word2 = block[2];

        let (mut a, mut b, mut c) = match ROUNDS % 3 {
            1 => (word2, word0, word1),
            2 => (word1, word2, word0),
            _ => (word0, word1, word2),
        };
        let ghost t0 = lanes_of(block);

        let mut i: usize = ROUNDS as usize;
        while i > 0
            invariant
                t0 == lanes_of(block),
                self@.len() == ROUNDS,
                i <= ROUNDS,
                decrypt_rounds(self@, lanes_at(a, b, c, i as nat), i as nat) == decrypt_rounds(
                    self@,
                    t0,
                    ROUNDS as nat,
                ),
            decreases i,
        {
            i = i - 1;
            let k = self.round_keys[i];
            match i % 3 {
                0 => decrypt_step(k, &mut a, &mut b, &mut c),
                1 => decrypt_step(k, &mut b, &mut c, &mut a),
                _ => decrypt_step(k, &mut c, &mut a, &mut b),
            }
        }
        [a, b, c]
    }
}


impl Scintia96Cipher {
    /// Permutes a 96-bit block in place (the encryption direction).
    pub fn encrypt_block(&self, block: &mut [u8; 12])
        ensures
            *final(block) == bytes_from_words(
                keyed_permutation(self@, words_from_bytes(*old(block))),
            ),
    {
        self.permute_block(block)
    }

    /// Un-permutes a 96-bit block in place (the decryption direction).
    pub fn decrypt_block(&self, block: &mut [u8; 12])
        ensures
            *final(block) == bytes_from_words(keyed_inverse(self@, words_from_bytes(*old(block)))),
    {
        self.unpermute_block(block)
    }
}

impl Scintia96Permuter for Scintia96Cipher {
    open spec fn permutation_of(&self, block: [u32; 3]) -> [u32; 3] {
        keyed_permutation(self@, block)
    }

    fn permute(&self, block: [u32; 3]) -> (r: [u32; 3]) {
        self.encrypt_words(block)
    }
}

impl Scintia96Unpermuter for Scintia96Cipher {
    open spec fn unpermutation_of(&self, block: [u32; 3]) -> [u32; 3] {
        keyed_inverse(self@, block)
    }

    fn unpermute(&self, block: [u32; 3]) -> (r: [u32; 3]) {
        self.decrypt_words(block)
    }
}

/// A cipher made from a key computes the same permutation as [`crate::Scintia96`]
/// made from the key's four little-endian words.
pub proof fn lemma_cipher_matches_permutation(key: [u8; 16], cipher: Scintia96Cipher, block: [u32; 3])
    requires
        cipher@ == round_keys(key_words_from_bytes(key), ROUNDS as nat),
    ensures
        keyed_permutation(cipher@, block) == permutation(key_words_from_bytes(key), block),
{
}

/// Decrypting undoes encrypting and encrypting undoes decrypting, on words and on bytes.
pub proof fn lemma_cipher_roundtrip(cipher: Scintia96Cipher, words: [u32; 3], bytes: [u8; 12])
    ensures
        keyed_inverse(cipher@, keyed_permutation(cipher@, words)) == words,
        keyed_permutation(cipher@, keyed_inverse(cipher@, words)) == words,
        bytes_from_words(keyed_inverse(cipher@, words_from_bytes(
            bytes_from_words(keyed_permutation(cipher@, words_from_bytes(bytes))),
        ))) == bytes,
        bytes_from_words(keyed_permutation(cipher@, words_from_bytes(
            bytes_from_words(keyed_inverse(cipher@, words_from_bytes(bytes))),
        ))) == bytes,
{
    let rk = cipher@;
    lemma_keyed_inverse(rk, words);
    let w = words_from_bytes(bytes);
    lemma_keyed_inverse(rk, w);
    lemma_bytes_words_roundtrip(bytes, keyed_permutation(rk, w));
    lemma_bytes_words_roundtrip(bytes, keyed_inverse(rk, w));
}

} // verus!
