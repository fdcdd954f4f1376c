use scintia_96::utils::{bytes_to_words, words_to_bytes};
use scintia_96::{Scintia96, Scintia96Permuter};

#[test]
fn test_permutation_consistency() {
    let key = [0x01020304, 0x05060708, 0x090a0b0c, 0x0d0e0f10];
    let cipher = Scintia96::new(key);

    let block = [0u32, 0u32, 0u32];
    let result1 = cipher.permute(block);
    let result2 = cipher.permute(block);

    assert_eq!(result1, result2);
    assert_ne!(result1, block);
}

#[test]
fn test_const_initialization() {
    const KEY: [u32; 4] = [0x01020304, 0x05060708, 0x090a0b0c, 0x0d0e0f10];
    let cipher = Scintia96::new(KEY);
    assert_eq!(cipher.key()[0], 0x01020304);
}

#[test]
fn test_vectors() {
    let cases = [
        (
            [0, 0, 0, 0],
            [0, 0, 0],
            [0x20e47313, 0x3bd86576, 0x5ed2de89],
        ),
        (
            [0xffffffff, 0xffffffff, 0xffffffff, 0xffffffff],
            [0xffffffff, 0xffffffff, 0xffffffff],
            [0x25fca5a8, 0xe471bef3, 0x7053daa6],
        ),
        (
            [0x12345678, 0x9abcdef0, 0x0fedcba9, 0x87654321],
            [0x11223344, 0x55667788, 0x99aabbcc],
            [0xbf846ba5, 0xe56df4de, 0x0e19b936],
        ),
        (
            [0x01020304, 0x05060708, 0x090a0b0c, 0x0d0e0f10],
            [0xdeadbeef, 0xcafebabe, 0x12345678],
            [0x52cbbcb8, 0xfa885f9d, 0x5441aac1],
        ),
    ];

    for (key, input, expected) in cases {
        let cipher = Scintia96::new(key);
        assert_eq!(
            cipher.permute(input),
            expected,
            "Failed for key {:08x?}",
            key
        );
    }
}

#[test]
fn test_key_is_kept() {
    let key = [0x12345678, 0x9abcdef0, 0x0fedcba9, 0x87654321];
    assert_eq!(Scintia96::new(key).key(), key);
}

#[test]
fn test_trait_permute_matches_inherent() {
    let cipher = Scintia96::new([0x12345678, 0x9abcdef0, 0x0fedcba9, 0x87654321]);
    let block = [0x11223344, 0x55667788, 0x99aabbcc];
    assert_eq!(
        Scintia96Permuter::permute(&cipher, block),
        [0xbf846ba5, 0xe56df4de, 0x0e19b936]
    );
}

#[test]
fn test_permute_block_reads_and_writes_little_endian() {
    let key = [0x01020304, 0x05060708, 0x090a0b0c, 0x0d0e0f10];
    let permutation = Scintia96::new(key);
    let mut block = [
        0xde, 0xad, 0xbe, 0xef, 0xca, 0xfe, 0xba, 0xbe, 0xfa, 0xce, 0xfe, 0xed,
    ];
    let words = [
        u32::from_le_bytes([0xde, 0xad, 0xbe, 0xef]),
        u32::from_le_bytes([0xca, 0xfe, 0xba, 0xbe]),
        u32::from_le_bytes([0xfa, 0xce, 0xfe, 0xed]),
    ];
    let out = permutation.permute(words);
    permutation.permute_block(&mut block);
    let mut expected = [0u8; 12];
    for (i, w) in out.iter().enumerate() {
        expected[i * 4..(i + 1) * 4].copy_from_slice(&w.to_le_bytes());
    }
    assert_eq!(block, expected);
}

#[test]
fn test_permute_block_known_vector() {
    // Key words and block words of the fourth test vector, as little-endian bytes.
    let permutation = Scintia96::new([0x01020304, 0x05060708, 0x090a0b0c, 0x0d0e0f10]);
    let mut block = [0u8; 12];
    for (i, w) in [0xdeadbeefu32, 0xcafebabe, 0x12345678].iter().enumerate() {
        block[i * 4..(i + 1) * 4].copy_from_slice(&w.to_le_bytes());
    }
    permutation.permute_block(&mut block);
    let mut expected = [0u8; 12];
    for (i, w) in [0x52cbbcb8u32, 0xfa885f9d, 0x5441aac1].iter().enumerate() {
        expected[i * 4..(i + 1) * 4].copy_from_slice(&w.to_le_bytes());
    }
    assert_eq!(block, expected);
}

#[test]
fn test_bytes_to_words_is_little_endian() {
    let bytes = [1u8, 2, 3, 4, 5, 6, 7, 8, 9, 10, 11, 12];
    assert_eq!(bytes_to_words(&bytes), [0x04030201, 0x08070605, 0x0c0b0a09]);
}

#[test]
fn test_words_to_bytes_is_little_endian() {
    let mut bytes = [0xffu8; 12];
    words_to_bytes([0x04030201, 0x08070605, 0x0c0b0a09], &mut bytes);
    assert_eq!(bytes, [1u8, 2, 3, 4, 5, 6, 7, 8, 9, 10, 11, 12]);
}

#[test]
fn test_bytes_words_roundtrip() {
    let words = [0xdeadbeef, 0x00000000, 0xffffffff];
    let mut bytes = [0u8; 12];
    words_to_bytes(words, &mut bytes);
    assert_eq!(bytes_to_words(&bytes), words);
    let original = [0x80u8, 0, 0x7f, 0xff, 1, 2, 3, 4, 0xaa, 0x55, 0xaa, 0x55];
    let mut again = [0u8; 12];
    words_to_bytes(bytes_to_words(&original), &mut again);
    assert_eq!(again, original);
}

#[test]
fn test_distinct_inputs_give_distinct_outputs() {
    let permutation = Scintia96::new([0, 0, 0, 0]);
    let a = permutation.permute([0, 0, 0]);
    let b = permutation.permute([1, 0, 0]);
    let c = permutation.permute([0, 0, 1]);
    assert_ne!(a, b);
    assert_ne!(a, c);
    assert_ne!(b, c);
}

#[test]
fn test_key_changes_output() {
    let block = [0x11223344, 0x55667788, 0x99aabbcc];
    let a = Scintia96::new([0, 0, 0, 0]).permute(block);
    let b = Scintia96::new([1, 0, 0, 0]).permute(block);
    assert_ne!(a, b);
}
