//! # Scintia-96
//!
//! A lightweight, keyed 96-bit permutation based on the Speck cipher.
//!
//! Scintia-96 maps a 96-bit input (such as a hardware unique ID) one-to-one to a
//! 96-bit output (such as a USB serial number), so that uniqueness is kept
//! without collisions.
//!
//! [`Scintia96`] derives its round keys on the fly; [`Scintia96Cipher`]
//! computes them once and can also reverse the permutation.

pub mod block_cipher;
pub mod key_schedule;
pub mod rounds;
pub mod scintia_96;
pub mod utils;

pub use block_cipher::Scintia96Cipher;
pub use scintia_96::Scintia96;

use vstd::prelude::*;

verus! {

use crate::utils::{bytes_from_words, bytes_to_words, words_from_bytes, words_to_bytes};

/// The number of rounds of the permutation.
pub const ROUNDS: u32 = 32;

/// A trait for types that can perform the Scintia-96 96-bit keyed permutation.
///
/// Most users should use the inherent methods on [`Scintia96`] or [`Scintia96Cipher`]
/// instead of this trait directly.
pub trait Scintia96Permuter {
    /// The permutation that this value performs on blocks of three words.
    spec fn permutation_of(&self, block: [u32; 3]) -> [u32; 3];

    /// Permutes a 96-bit block represented as three 32-bit words.
    fn permute(&self, block: [u32; 3]) -> (r: [u32; 3])
        ensures
            r == self.permutation_of(block),
    ;

    /// Permutes a 96-bit block in place: the bytes are read as three
    /// little-endian words, permuted, and written back in the same way.
    fn permute_block(&self, block: &mut [u8; 12])
        ensures
            *final(block) == bytes_from_words(self.permutation_of(words_from_bytes(*old(block)))),
    {
        let words = bytes_to_words(block);
        let out = self.permute(words);
        words_to_bytes(out, block);
    }
}

/// A trait for types that can perform the inverse Scintia-96 96-bit keyed permutation.
///
/// Most users should use the inherent methods on [`Scintia96Cipher`] instead of this
/// trait directly.
pub trait Scintia96Unpermuter {
    /// The inverse permutation that this value performs on blocks of three words.
    spec fn unpermutation_of(&self, block: [u32; 3]) -> [u32; 3];

    /// Un-permutes a 96-bit block represented as three 32-bit words.
    fn unpermute(&self, block: [u32; 3]) -> (r: [u32; 3])
        ensures
            r == self.unpermutation_of(block),
    ;

    /// Un-permutes a 96-bit block in place: the bytes are read as three
    /// little-endian words, un-permuted, and written back in the same way.
    fn unpermute_block(&self, block: &mut [u8; 12])
        ensures
            *final(block) == bytes_from_words(
                self.unpermutation_of(words_from_bytes(*old(block))),
            ),
    {
        let words = bytes_to_words(block);
        let out = self.unpermute(words);
        words_to_bytes(out, block);
    }
}

} // verus!
