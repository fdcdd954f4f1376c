use scintia_96::{Scintia96, Scintia96Cipher, Scintia96Permuter, Scintia96Unpermuter};

#[test]
fn test_scintia96cipher_consistency() {
    let key_bytes = [0u8; 16];
    let cipher = Scintia96Cipher::new(&key_bytes);

    let mut block = [0u8; 12];
    let original = block;

    cipher.encrypt_block(&mut block);
    assert_ne!(block, original);

    cipher.decrypt_block(&mut block);
    assert_eq!(block, original);
}

#[test]
fn test_scintia96cipher_matches_scintia96() {
    let key_u32: [u32; 4] = [0x01020304, 0x05060708, 0x090a0b0c, 0x0d0e0f10];
    let mut key_bytes = [0u8; 16];
    for (i, &k) in key_u32.iter().enumerate() {
        key_bytes[i * 4..(i + 1) * 4].copy_from_slice(&k.to_le_bytes());
    }

    let scintia = Scintia96::new(key_u32);
    let cipher = Scintia96Cipher::new(&key_bytes);

    let input_u32: [u32; 3] = [0xdeadbeef, 0xcafebabe, 0xfacefeed];
    let mut input_bytes = [0u8; 12];
    for (i, &w) in input_u32.iter().enumerate() {
        input_bytes[i * 4..(i + 1) * 4].copy_from_slice(&w.to_le_bytes());
    }

    let expected_u32 = scintia.permute(input_u32);
    let mut expected_bytes = [0u8; 12];
    for (i, &w) in expected_u32.iter().enumerate() {
        expected_bytes[i * 4..(i + 1) * 4].copy_from_slice(&w.to_le_bytes());
    }

    let mut block = input_bytes;
    cipher.encrypt_block(&mut block);

    assert_eq!(block, expected_bytes);
}

fn key_bytes_of(words: [u32; 4]) -> [u8; 16] {
    let mut bytes = [0u8; 16];
    for (i, w) in words.iter().enumerate() {
        bytes[i * 4..(i + 1) * 4].copy_from_slice(&w.to_le_bytes());
    }
    bytes
}

#[test]
fn test_cipher_words_match_vectors() {
    let cases = [
        (
            [0u32, 0, 0, 0],
            [0u32, 0, 0],
            [0x20e47313u32, 0x3bd86576, 0x5ed2de89],
        ),
        (
            [0xffffffff, 0xffffffff, 0xffffffff, 0xffffffff],
            [0xffffffff, 0xffffffff, 0xffffffff],
            [0x25fca5a8, 0xe471bef3, 0x7053daa6],
        ),
        (
            [0x12345678, 0x9abcdef0, 0x0fedcba9, 0x87654321],
            [0x11223344, 0x55667788, 0x99aabbcc],
            [0xbf846ba5, 0xe56df4de, 0x0e19b936],
        ),
    ];
    for (key, input, expected) in cases {
        let cipher = Scintia96Cipher::new(&key_bytes_of(key));
        assert_eq!(cipher.encrypt_words(input), expected);
        assert_eq!(cipher.permute(input), expected);
        assert_eq!(cipher.decrypt_words(expected), input);
        assert_eq!(cipher.unpermute(expected), input);
    }
}

#[test]
fn test_cipher_roundtrip_both_directions() {
    let cipher = Scintia96Cipher::new(&key_bytes_of([0x12345678, 0x9abcdef0, 0x0fedcba9, 0x87654321]));
    let block = [0xdeadbeef, 0xcafebabe, 0x12345678];
    assert_eq!(cipher.decrypt_words(cipher.encrypt_words(block)), block);
    assert_eq!(cipher.encrypt_words(cipher.decrypt_words(block)), block);

    let bytes = [9u8, 8, 7, 6, 5, 4, 3, 2, 1, 0, 0xff, 0x80];
    let mut b = bytes;
    cipher.decrypt_block(&mut b);
    assert_ne!(b, bytes);
    cipher.encrypt_block(&mut b);
    assert_eq!(b, bytes);
}

#[test]
fn test_cipher_block_traits_match_inherent() {
    let cipher = Scintia96Cipher::new(&key_bytes_of([1, 2, 3, 4]));
    let bytes = [0x11u8, 0x22, 0x33, 0x44, 0x55, 0x66, 0x77, 0x88, 0x99, 0xaa, 0xbb, 0xcc];
    let mut a = bytes;
    let mut b = bytes;
    cipher.encrypt_block(&mut a);
    cipher.permute_block(&mut b);
    assert_eq!(a, b);
    cipher.decrypt_block(&mut a);
    cipher.unpermute_block(&mut b);
    assert_eq!(a, bytes);
    assert_eq!(b, bytes);
}
