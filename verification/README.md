# scintia_96

Scintia-96: a keyed 96-bit permutation built from the Speck-64/128 round
function on a three-lane generalized Feistel network with 32 rounds, verified
with Verus.

- `src/key_schedule.rs`: rotations, the round step and its inverse, the Speck
  key schedule and its mathematical model.
- `src/rounds.rs`: the network over lanes, its inverse, and the proofs that
  each undoes the other.
- `src/scintia_96.rs`: `Scintia96`, with round keys derived on the fly, and the
  proof that the permutation is a bijection.
- `src/block_cipher.rs`: `Scintia96Cipher`, with a precomputed key schedule,
  encryption and decryption, and the proofs that it agrees with `Scintia96`
  and that decryption reverses encryption.
- `src/utils.rs`: little-endian conversion between bytes and words.
- `app/`: the RustCrypto `cipher` trait impls, forwarding to the library.
