//! The 3-lane generalized Feistel network, stated over mathematical values.

use vstd::prelude::*;

use crate::key_schedule::{decrypt_step_spec, encrypt_step_spec, lemma_step_inverse};
use crate::ROUNDS;

verus! {

/// The three 32-bit lanes of a block, listed in the order in which the next
/// round takes them.
pub type Lanes = (u32, u32, u32);

/// One round: the step acts on the first lane, mixing in the second and third,
/// and the lanes then turn by one so that the next round starts at the second.
pub open spec fn round(k: u32, s: Lanes) -> Lanes {
    let (x, y, z) = encrypt_step_spec(k, s.0, s.1, s.2);
    (y, z, x)
}

/// The inverse of [`round`].
pub open spec fn unround(k: u32, s: Lanes) -> Lanes {
    decrypt_step_spec(k, s.2, s.0, s.1)
}

/// The lanes after the first `n` rounds, round `i` keyed by `rk[i]`.
pub open spec fn encrypt_rounds(rk: Seq<u32>, s: Lanes, n: nat) -> Lanes
    decreases n,
{
    if n == 0 {
        s
    } else {
        round(rk[n - 1], encrypt_rounds(rk, s, (n - 1) as nat))
    }
}

/// Undoes rounds `n - 1` down to `0`, in that order.
pub open spec fn decrypt_rounds(rk: Seq<u32>, t: Lanes, n: nat) -> Lanes
    decreases n,
{
    if n == 0 {
        t
    } else {
        decrypt_rounds(rk, unround(rk[n - 1], t), (n - 1) as nat)
    }
}

/// The lanes `a`, `b`, `c` of a computation that keeps them in place, seen in
/// the order in which round `i` takes them.
pub open spec fn lanes_at(a: u32, b: u32, c: u32, i: nat) -> Lanes {
    if i % 3 == 0 {
        (a, b, c)
    } else if i % 3 == 1 {
        (b, c, a)
    } else {
        (c, a, b)
    }
}

/// A block of three words as lanes.
pub open spec fn lanes_of(w: [u32; 3]) -> Lanes {
    (w[0], w[1], w[2])
}

/// Lanes as a block of three words.
pub open spec fn words_of(s: Lanes) -> [u32; 3] {
    [s.0, s.1, s.2]
}

/// A round is undone by its inverse, and the inverse by the round.
pub proof fn lemma_round_inverse(k: u32, s: Lanes)
    ensures
        unround(k, round(k, s)) == s,
        round(k, unround(k, s)) == s,
{
    lemma_step_inverse(k, s.0, s.1, s.2);
    lemma_step_inverse(k, s.2, s.0, s.1);
}

/// Undoing `n` rounds gives back what went into them.
pub proof fn lemma_decrypt_encrypt(rk: Seq<u32>, s: Lanes, n: nat)
    ensures
        decrypt_rounds(rk, encrypt_rounds(rk, s, n), n) == s,
    decreases n,
{
    if n > 0 {
        let prev = encrypt_rounds(rk, s, (n - 1) as nat);
        lemma_round_inverse(rk[n - 1], prev);
        lemma_decrypt_encrypt(rk, s, (n - 1) as nat);
    }
}

/// Running `n` rounds on what undoing them gave back restores the input.
pub proof fn lemma_encrypt_decrypt(rk: Seq<u32>, t: Lanes, n: nat)
    ensures
        encrypt_rounds(rk, decrypt_rounds(rk, t, n), n) == t,
    decreases n,
{
    if n > 0 {
        let u = unround(rk[n - 1], t);
        lemma_encrypt_decrypt(rk, u, (n - 1) as nat);
        lemma_round_inverse(rk[n - 1], t);
    }
}

/// Lanes and three-word blocks are the same thing in two notations.
pub proof fn lemma_lanes_words(w: [u32; 3], s: Lanes)
    ensures
        lanes_of(words_of(s)) == s,
        words_of(lanes_of(w)) == w,
{
    assert(words_of(lanes_of(w)) =~= w);
}


/// The full permutation of a block under the round keys `rk`, one per round.
pub open spec fn keyed_permutation(rk: Seq<u32>, block: [u32; 3]) -> [u32; 3] {
    words_of(encrypt_rounds(rk, lanes_of(block), ROUNDS as nat))
}

/// The inverse of [`keyed_permutation`] under the same round keys.
pub open spec fn keyed_inverse(rk: Seq<u32>, block: [u32; 3]) -> [u32; 3] {
    words_of(decrypt_rounds(rk, lanes_of(block), ROUNDS as nat))
}

/// Under any round keys, the inverse undoes the permutation and the permutation
/// undoes the inverse.
pub proof fn lemma_keyed_inverse(rk: Seq<u32>, block: [u32; 3])
    ensures
        keyed_inverse(rk, keyed_permutation(rk, block)) == block,
        keyed_permutation(rk, keyed_inverse(rk, block)) == block,
{
    let n = ROUNDS as nat;
    let s = lanes_of(block);
    lemma_lanes_words(block, encrypt_rounds(rk, s, n));
    lemma_decrypt_encrypt(rk, s, n);
    lemma_lanes_words(block, s);
    lemma_lanes_words(block, decrypt_rounds(rk, s, n));
    lemma_encrypt_decrypt(rk, s, n);
}


/// A round applies the step to the lanes in their given order and then turns
/// them by one; its inverse applies the inverse step to the turned lanes.
pub proof fn lemma_round_values(k: u32, x: u32, y: u32, z: u32)
    ensures
        round(k, (x, y, z)) == (
            encrypt_step_spec(k, x, y, z).1,
            encrypt_step_spec(k, x, y, z).2,
            encrypt_step_spec(k, x, y, z).0,
        ),
        unround(k, (x, y, z)) == decrypt_step_spec(k, z, x, y),
{
}

/// No rounds leave the lanes as they are; `n + 1` rounds are round `n`, keyed by
/// `rk[n]`, applied after the first `n`. Undoing `n + 1` rounds undoes round `n`
/// first and then the first `n`.
pub proof fn lemma_rounds_values(rk: Seq<u32>, s: Lanes, n: nat)
    ensures
        encrypt_rounds(rk, s, 0) == s,
        encrypt_rounds(rk, s, n + 1) == round(rk[n as int], encrypt_rounds(rk, s, n)),
        decrypt_rounds(rk, s, 0) == s,
        decrypt_rounds(rk, s, n + 1) == decrypt_rounds(rk, unround(rk[n as int], s), n),
{
}

/// The keyed permutation is exactly 32 rounds run on the block's words in their
/// given order, the result read off the lanes in order; its inverse undoes 32
/// rounds on the block's words in their given order.
pub proof fn lemma_keyed_values(rk: Seq<u32>, b: [u32; 3])
    ensures
        keyed_permutation(rk, b)[0] == encrypt_rounds(rk, (b[0], b[1], b[2]), 32).0,
        keyed_permutation(rk, b)[1] == encrypt_rounds(rk, (b[0], b[1], b[2]), 32).1,
        keyed_permutation(rk, b)[2] == encrypt_rounds(rk, (b[0], b[1], b[2]), 32).2,
        keyed_inverse(rk, b)[0] == decrypt_rounds(rk, (b[0], b[1], b[2]), 32).0,
        keyed_inverse(rk, b)[1] == decrypt_rounds(rk, (b[0], b[1], b[2]), 32).1,
        keyed_inverse(rk, b)[2] == decrypt_rounds(rk, (b[0], b[1], b[2]), 32).2,
{
}

} // verus!
