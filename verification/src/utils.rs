//! Little-endian conversion between bytes and 32-bit words.

use vstd::prelude::*;

verus! {

/// The word whose little-endian bytes are `b0`, `b1`, `b2`, `b3`.
pub open spec fn word_from_le(b0: u8, b1: u8, b2: u8, b3: u8) -> u32 {
    (b0 as u32) | (b1 as u32) << 8 | (b2 as u32) << 16 | (b3 as u32) << 24
}

/// Byte `j` (0 for the least significant) of the little-endian encoding of `w`.
pub open spec fn le_byte(w: u32, j: u32) -> u8 {
    ((w >> (8 * j) as u32) & 0xff) as u8
}

/// The words whose little-endian encodings, one after the other, are the bytes `b`.
pub open spec fn words_from_bytes(b: [u8; 12]) -> [u32; 3] {
    [
        word_from_le(b[0], b[1], b[2], b[3]),
        word_from_le(b[4], b[5], b[6], b[7]),
        word_from_le(b[8], b[9], b[10], b[11]),
    ]
}

/// The key words whose little-endian encodings, one after the other, are the bytes `b`.
pub open spec fn key_words_from_bytes(b: [u8; 16]) -> [u32; 4] {
    [
        word_from_le(b[0], b[1], b[2], b[3]),
        word_from_le(b[4], b[5], b[6], b[7]),
        word_from_le(b[8], b[9], b[10], b[11]),
        word_from_le(b[12], b[13], b[14], b[15]),
    ]
}

/// The little-endian encodings of the words `w`, one after the other.
pub open spec fn bytes_from_words(w: [u32; 3]) -> [u8; 12] {
    [
        le_byte(w[0], 0),
        le_byte(w[0], 1),
        le_byte(w[0], 2),
        le_byte(w[0], 3),
        le_byte(w[1], 0),
        le_byte(w[1], 1),
        le_byte(w[1], 2),
        le_byte(w[1], 3),
        le_byte(w[2], 0),
        le_byte(w[2], 1),
        le_byte(w[2], 2),
        le_byte(w[2], 3),
    ]
}

/// A little-endian word is the sum of its bytes weighted by powers of 256, and
/// byte `j` of a word is the word divided by `256^j`, modulo 256.
pub proof fn lemma_le_as_arithmetic(w: u32, b0: u8, b1: u8, b2: u8, b3: u8)
    ensures
        word_from_le(b0, b1, b2, b3) == b0 + 0x100 * b1 + 0x1_0000 * b2 + 0x100_0000 * b3,
        le_byte(w, 0) == w % 0x100,
        le_byte(w, 1) == (w / 0x100) % 0x100,
        le_byte(w, 2) == (w / 0x1_0000) % 0x100,
        le_byte(w, 3) == (w / 0x100_0000) % 0x100,
{
    assert(word_from_le(b0, b1, b2, b3) == b0 + 0x100 * b1 + 0x1_0000 * b2 + 0x100_0000 * b3)
        by (bit_vector);
    assert(le_byte(w, 0) == w % 0x100) by (bit_vector);
    assert(le_byte(w, 1) == (w / 0x100) % 0x100) by (bit_vector);
    assert(le_byte(w, 2) == (w / 0x1_0000) % 0x100) by (bit_vector);
    assert(le_byte(w, 3) == (w / 0x100_0000) % 0x100) by (bit_vector);
}

/// Word `i` of a block is read from bytes `4i .. 4i + 4`, least significant first;
/// the same holds for the four words of a key.
pub proof fn lemma_words_from_bytes_values(b: [u8; 12], kb: [u8; 16])
    ensures
        forall|i: int|
            0 <= i < 3 ==> #[trigger] words_from_bytes(b)[i] == b[4 * i] + 0x100 * b[4 * i + 1]
                + 0x1_0000 * b[4 * i + 2] + 0x100_0000 * b[4 * i + 3],
        forall|i: int|
            0 <= i < 4 ==> #[trigger] key_words_from_bytes(kb)[i] == kb[4 * i] + 0x100 * kb[4 * i
                + 1] + 0x1_0000 * kb[4 * i + 2] + 0x100_0000 * kb[4 * i + 3],
{
    lemma_le_as_arithmetic(0, b[0], b[1], b[2], b[3]);
    lemma_le_as_arithmetic(0, b[4], b[5], b[6], b[7]);
    lemma_le_as_arithmetic(0, b[8], b[9], b[10], b[11]);
    lemma_le_as_arithmetic(0, kb[0], kb[1], kb[2], kb[3]);
    lemma_le_as_arithmetic(0, kb[4], kb[5], kb[6], kb[7]);
    lemma_le_as_arithmetic(0, kb[8], kb[9], kb[10], kb[11]);
    lemma_le_as_arithmetic(0, kb[12], kb[13], kb[14], kb[15]);
}

/// Byte `j` of an encoded block is byte `j % 4` of word `j / 4`: that word divided
/// by `256^(j % 4)`, modulo 256.
pub proof fn lemma_bytes_from_words_values(w: [u32; 3])
    ensures
        forall|j: int|
            0 <= j < 12 ==> #[trigger] bytes_from_words(w)[j] == (w[j / 4] / (if j % 4 == 0 {
                1u32
            } else if j % 4 == 1 {
                0x100u32
            } else if j % 4 == 2 {
                0x1_0000u32
            } else {
                0x100_0000u32
            })) % 0x100,
{
    lemma_le_as_arithmetic(w[0], 0, 0, 0, 0);
    lemma_le_as_arithmetic(w[1], 0, 0, 0, 0);
    lemma_le_as_arithmetic(w[2], 0, 0, 0, 0);
}

/// Decoding the encoding of a word gives the word back, and encoding the
/// decoding of four bytes gives the bytes back.
pub proof fn lemma_word_le_roundtrip(w: u32, b0: u8, b1: u8, b2: u8, b3: u8)
    ensures
        word_from_le(le_byte(w, 0), le_byte(w, 1), le_byte(w, 2), le_byte(w, 3)) == w,
        le_byte(word_from_le(b0, b1, b2, b3), 0) == b0,
        le_byte(word_from_le(b0, b1, b2, b3), 1) == b1,
        le_byte(word_from_le(b0, b1, b2, b3), 2) == b2,
        le_byte(word_from_le(b0, b1, b2, b3), 3) == b3,
{
    assert(word_from_le(le_byte(w, 0), le_byte(w, 1), le_byte(w, 2), le_byte(w, 3)) == w)
        by (bit_vector);
    let x = word_from_le(b0, b1, b2, b3);
    assert(le_byte(x, 0) == b0 && le_byte(x, 1) == b1 && le_byte(x, 2) == b2 && le_byte(x, 3)
        == b3) by (bit_vector)
        requires
            x == word_from_le(b0, b1, b2, b3),
    ;
}

/// Decoding bytes to words and encoding them again gives the bytes back; encoding
/// words and decoding the bytes gives the words back.
pub proof fn lemma_bytes_words_roundtrip(b: [u8; 12], w: [u32; 3])
    ensures
        bytes_from_words(words_from_bytes(b)) == b,
        words_from_bytes(bytes_from_words(w)) == w,
{
    lemma_word_le_roundtrip(w[0], b[0], b[1], b[2], b[3]);
    lemma_word_le_roundtrip(w[1], b[4], b[5], b[6], b[7]);
    lemma_word_le_roundtrip(w[2], b[8], b[9], b[10], b[11]);
    assert(bytes_from_words(words_from_bytes(b)) =~= b);
    assert(words_from_bytes(bytes_from_words(w)) =~= w);
}

/// The word whose little-endian bytes are `b0`, `b1`, `b2`, `b3`.
pub(crate) fn word_from_le_bytes(b0: u8, b1: u8, b2: u8, b3: u8) -> (r: u32)
    ensures
        r == word_from_le(b0, b1, b2, b3),
{
    (b0 as u32) | (b1 as u32) << 8 | (b2 as u32) << 16 | (b3 as u32) << 24
}

/// Byte `j` of the little-endian encoding of `w`.
pub(crate) fn le_byte_of(w: u32, j: u32) -> (r: u8)
    requires
        j < 4,
    ensures
        r == le_byte(w, j),
{
    ((w >> (8 * j)) & 0xff) as u8
}

/// Reads a 96-bit block as three little-endian 32-bit words.
pub fn bytes_to_words(bytes: &[u8; 12]) -> (words: [u32; 3])
    ensures
        words == words_from_bytes(*bytes),
{
    let mut words = [0u32;3];
    for i in 0..3
        invariant
            forall|j: int|
                0 <= j < i ==> words[j] == word_from_le(
                    bytes[4 * j],
                    bytes[4 * j + 1],
                    bytes[4 * j + 2],
                    bytes[4 * j + 3],
                ),
    {
        let n = 4 * i;
        words[i] = word_from_le_bytes(bytes[n], bytes[n + 1], bytes[n + 2], bytes[n + 3]);
    }
    assert(words =~= words_from_bytes(*bytes));
    words
}

/// Reads a 128-bit key as four little-endian 32-bit words.
pub(crate) fn key_bytes_to_words(bytes: &[u8; 16]) -> (words: [u32; 4])
    ensures
        words == key_words_from_bytes(*bytes),
{
    let mut words = [0u32;4];
    for i in 0..4
        invariant
            forall|j: int|
                0 <= j < i ==> words[j] == word_from_le(
                    bytes[4 * j],
                    bytes[4 * j + 1],
                    bytes[4 * j + 2],
                    bytes[4 * j + 3],
                ),
    {
        let n = 4 * i;
        words[i] = word_from_le_bytes(bytes[n], bytes[n + 1], bytes[n + 2], bytes[n + 3]);
    }
    assert(words =~= key_words_from_bytes(*bytes));
    words
}

/// Writes three 32-bit words into a 96-bit block, each in little-endian order.
pub fn words_to_bytes(words: [u32; 3], bytes: &mut [u8; 12])
    ensures
        *final(bytes) == bytes_from_words(words),
{
    for i in 0..3
        invariant
            forall|j: int|
                0 <= j < 4 * i ==> #[trigger] bytes[j] == le_byte(words[j / 4], (j % 4) as u32),
    {
        let word = words[i];
        let n = 4 * i;
        bytes[n] = le_byte_of(word, 0);
        bytes[n + 1] = le_byte_of(word, 1);
        bytes[n + 2] = le_byte_of(word, 2);
        bytes[n + 3] = le_byte_of(word, 3);
    }
    assert(*bytes =~= bytes_from_words(words));
}

} // verus!
