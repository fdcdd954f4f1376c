//! The keyed permutation with its round keys derived on the fly.

use vstd::prelude::*;

use crate::key_schedule::{
    encrypt_step, encrypt_step_spec, lemma_schedule_state_shape, round_key, round_keys, schedule_next,
    schedule_state, SpeckKeySchedule,
};
use crate::rounds::{encrypt_rounds, keyed_inverse, keyed_permutation, lanes_of, lemma_keyed_inverse};
use crate::utils::{bytes_from_words, lemma_bytes_words_roundtrip, words_from_bytes};
use crate::{Scintia96Permuter, ROUNDS};

verus! {

/// The Scintia-96 permutation of the block `block` under the 128-bit key `key`.
pub open spec fn permutation(key: [u32; 4], block: [u32; 3]) -> [u32; 3] {
    keyed_permutation(round_keys(key, ROUNDS as nat), block)
}

/// The inverse of [`permutation`] under the same key.
pub open spec fn inverse_permutation(key: [u32; 4], block: [u32; 3]) -> [u32; 3] {
    keyed_inverse(round_keys(key, ROUNDS as nat), block)
}

/// The permutation under a key is the keyed permutation run with the key's first
/// 32 round keys, round `i` using round key `i`; likewise its inverse.
pub proof fn lemma_permutation_values(key: [u32; 4], block: [u32; 3])
    ensures
        permutation(key, block) == keyed_permutation(
            Seq::new(32, |i: int| round_key(key, i as nat)),
            block,
        ),
        inverse_permutation(key, block) == keyed_inverse(
            Seq::new(32, |i: int| round_key(key, i as nat)),
            block,
        ),
{
    assert(round_keys(key, ROUNDS as nat) =~= Seq::new(32, |i: int| round_key(key, i as nat)));
}

/// Scintia-96 is a true permutation of the 96-bit blocks: under any key, two
/// different inputs never give the same output, every output is reached, and
/// the inverse permutation gives the input back.
pub proof fn lemma_permutation_is_bijective(key: [u32; 4], a: [u32; 3], b: [u32; 3])
    ensures
        permutation(key, a) == permutation(key, b) ==> a == b,
        inverse_permutation(key, permutation(key, a)) == a,
        permutation(key, inverse_permutation(key, b)) == b,
{
    lemma_keyed_inverse(round_keys(key, ROUNDS as nat), a);
    lemma_keyed_inverse(round_keys(key, ROUNDS as nat), b);
}

/// Permuting blocks of bytes in place never maps two different 96-bit inputs
/// to the same output under one key.
pub proof fn lemma_permute_block_is_injective(key: [u32; 4], a: [u8; 12], b: [u8; 12])
    ensures
        bytes_from_words(permutation(key, words_from_bytes(a))) == bytes_from_words(
            permutation(key, words_from_bytes(b)),
        ) ==> a == b,
{
    let pa = permutation(key, words_from_bytes(a));
    let pb = permutation(key, words_from_bytes(b));
    lemma_bytes_words_roundtrip(a, pa);
    lemma_bytes_words_roundtrip(b, pb);
    lemma_permutation_is_bijective(key, words_from_bytes(a), words_from_bytes(b));
}

/// A Scintia-96 instance for performing keyed permutations.
#[derive(Debug, Clone, Copy)]
pub struct Scintia96 {
    key: [u32; 4],
}

impl View for Scintia96 {
    type V = [u32; 4];

    /// The 128-bit key of this instance.
    closed spec fn view(&self) -> [u32; 4] {
        self.key
    }
}

impl Scintia96 {
    /// Creates a new Scintia-96 instance from a 128-bit key (4 x u32).
    ///
    /// The key is used to derive round keys on-the-fly during each permutation.
    pub fn new(key: [u32; 4]) -> (r: Self)
        ensures
            r@ == key,
    {
        Self { key }
    }

    /// The 128-bit key of this instance.
    pub fn key(&self) -> (r: [u32; 4])
        ensures
            r == self@,
    {
        self.key
    }

    /// Permutes a 96-bit block, represented as three 32-bit words, under this instance's key.
    pub fn permute(&self, block: [u32; 3]) -> (r: [u32; 3])
        ensures
            r == permutation(self@, block),
    {
        let mut a = block[0];
        let mut b = block[1];
        let mut c = block[2];

        let mut key_schedule = SpeckKeySchedule::new(self.key);
        let ghost key = self.key;
        let ghost rk = round_keys(key, ROUNDS as nat);
        let ghost s0 = lanes_of(block);

        for t in 0..(ROUNDS / 3)
            invariant
                key == self@,
                rk == round_keys(key, ROUNDS as nat),
                s0 == lanes_of(block),
                key_schedule@ == schedule_state(key, (3 * t) as nat),
                (a, b, c) == encrypt_rounds(rk, s0, (3 * t) as nat),
        {
            proof {
                lemma_schedule_state_shape(key, (3 * t) as nat);
                lemma_schedule_state_shape(key, (3 * t + 1) as nat);
                lemma_schedule_state_shape(key, (3 * t + 2) as nat);
            }
            Self::round_step(&mut key_schedule, &mut a, &mut b, &mut c);
            assert((b, c, a) == encrypt_rounds(rk, s0, (3 * t + 1) as nat));
            Self::round_step(&mut key_schedule, &mut b, &mut c, &mut a);
            assert((c, a, b) == encrypt_rounds(rk, s0, (3 * t + 2) as nat));
            Self::round_step(&mut key_schedule, &mut c, &mut a, &mut b);
            assert((a, b, c) == encrypt_rounds(rk, s0, (3 * t + 3) as nat));
        }

        proof {
            lemma_schedule_state_shape(key, 30);
            lemma_schedule_state_shape(key, 31);
        }
        match ROUNDS % 3 {
            1 => {
                Self::round_step(&mut key_schedule, &mut a, &mut b, &mut c);
                [b, c, a]
            },
            2 => {
                Self::round_step(&mut key_schedule, &mut a, &mut b, &mut c);
                assert((b, c, a) == encrypt_rounds(rk, s0, 31));
                Self::round_step(&mut key_schedule, &mut b, &mut c, &mut a);
                assert((c, a, b) == encrypt_rounds(rk, s0, 32));
                [c, a, b]
            },
            _ => [a, b, c],
        }
    }

    /// Draws the next round key and applies one round to the lanes `x`, `y`, `z`.
    fn round_step(key_schedule: &mut SpeckKeySchedule, x: &mut u32, y: &mut u32, z: &mut u32)
        requires
            old(key_schedule)@.round < u32::MAX,
        ensures
            final(key_schedule)@ == schedule_next(old(key_schedule)@),
            (*final(x), *final(y), *final(z)) == encrypt_step_spec(
                old(key_schedule)@.k,
                *old(x),
                *old(y),
                *old(z),
            ),
    {
        let k = key_schedule.next().unwrap();
        encrypt_step(k, x, y, z);
    }
}


impl Scintia96Permuter for Scintia96 {
    open spec fn permutation_of(&self, block: [u32; 3]) -> [u32; 3] {
        permutation(self@, block)
    }

    fn permute(&self, block: [u32; 3]) -> (r: [u32; 3]) {
        Scintia96::permute(self, block)
    }
}

} // verus!
