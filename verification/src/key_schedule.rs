//! Round function, its inverse, and the Speck key schedule.

use vstd::prelude::*;

verus! {

use vstd::wrapping::u32_specs::{wrapping_add, wrapping_sub};

/// Rotation of a 32-bit word `n` places to the right, for `0 < n < 32`.
pub open spec fn rotr32(x: u32, n: u32) -> u32 {
    (x >> n) | (x << ((32 - n) as u32))
}

/// Rotation of a 32-bit word `n` places to the left, for `0 < n < 32`.
pub open spec fn rotl32(x: u32, n: u32) -> u32 {
    (x << n) | (x >> ((32 - n) as u32))
}

/// One application of the Speck-style round to the lanes `(x, y, z)` under round key `k`.
pub open spec fn encrypt_step_spec(k: u32, x: u32, y: u32, z: u32) -> (u32, u32, u32) {
    let x1 = wrapping_add(rotr32(x, 8), y) ^ k;
    let y1 = rotl32(y, 3) ^ x1;
    let z1 = z ^ y1;
    (x1, y1, z1)
}

/// The inverse of [`encrypt_step_spec`].
pub open spec fn decrypt_step_spec(k: u32, x: u32, y: u32, z: u32) -> (u32, u32, u32) {
    let z0 = z ^ y;
    let y0 = rotr32(y ^ x, 3);
    let x0 = rotl32(wrapping_sub(x ^ k, y0), 8);
    (x0, y0, z0)
}

/// Decrypting a step undoes encrypting it, and the other way round.
pub proof fn lemma_step_inverse(k: u32, x: u32, y: u32, z: u32)
    ensures
        ({
            let (x1, y1, z1) = encrypt_step_spec(k, x, y, z);
            decrypt_step_spec(k, x1, y1, z1) == (x, y, z)
        }),
        ({
            let (x0, y0, z0) = decrypt_step_spec(k, x, y, z);
            encrypt_step_spec(k, x0, y0, z0) == (x, y, z)
        }),
{
    let x1 = wrapping_add(rotr32(x, 8), y) ^ k;
    let y1 = rotl32(y, 3) ^ x1;
    assert(rotr32(y1 ^ x1, 3) == y) by (bit_vector)
        requires y1 == rotl32(y, 3) ^ x1;
    assert(rotl32(wrapping_sub(x1 ^ k, y), 8) == x) by (bit_vector)
        requires x1 == wrapping_add(rotr32(x, 8), y) ^ k;
    assert((z ^ y1) ^ y1 == z) by (bit_vector);
    let z0 = z ^ y;
    let y0 = rotr32(y ^ x, 3);
    let x0 = rotl32(wrapping_sub(x ^ k, y0), 8);
    assert(wrapping_add(rotr32(x0, 8), y0) ^ k == x) by (bit_vector)
        requires x0 == rotl32(wrapping_sub(x ^ k, y0), 8);
    assert(rotl32(y0, 3) ^ x == y) by (bit_vector)
        requires y0 == rotr32(y ^ x, 3);
    assert(z0 ^ y == z) by (bit_vector)
        requires z0 == z ^ y;
}


/// Rotates `x` right by `n` places.
pub(crate) fn rotate_right(x: u32, n: u32) -> (r: u32)
    requires
        0 < n < 32,
    ensures
        r == rotr32(x, n),
{
    (x >> n) | (x << (32 - n))
}

/// Rotates `x` left by `n` places.
pub(crate) fn rotate_left(x: u32, n: u32) -> (r: u32)
    requires
        0 < n < 32,
    ensures
        r == rotl32(x, n),
{
    (x << n) | (x >> (32 - n))
}

/// Applies one round to the lanes `x`, `y`, `z` in place.
pub(crate) fn encrypt_step(k: u32, x: &mut u32, y: &mut u32, z: &mut u32)
    ensures
        (*final(x), *final(y), *final(z)) == encrypt_step_spec(k, *old(x), *old(y), *old(z)),
{
    *x = rotate_right(*x, 8).wrapping_add(*y) ^ k;
    *y = rotate_left(*y, 3) ^ *x;
    *z = *z ^ *y;
}

/// Undoes one round on the lanes `x`, `y`, `z` in place.
pub(crate) fn decrypt_step(k: u32, x: &mut u32, y: &mut u32, z: &mut u32)
    ensures
        (*final(x), *final(y), *final(z)) == decrypt_step_spec(k, *old(x), *old(y), *old(z)),
{
    *z = *z ^ *y;
    *y = rotate_right(*y ^ *x, 3);
    *x = rotate_left((*x ^ k).wrapping_sub(*y), 8);
}

/// The state of the Speck key schedule: the current round key `k`, the three
/// words `l` of the rest of the key, and the number of round keys produced so far.
pub struct ScheduleState {
    pub k: u32,
    pub l: Seq<u32>,
    pub round: u32,
}

/// The schedule's state before any round key has been produced.
pub open spec fn schedule_start(key: [u32; 4]) -> ScheduleState {
    ScheduleState { k: key[0], l: seq![key[1], key[2], key[3]], round: 0 }
}

/// One update of the Speck key schedule (alpha = 8, beta = 3).
pub open spec fn schedule_next(s: ScheduleState) -> ScheduleState {
    let i = s.round;
    let idx = (i % 3) as int;
    let new_l = wrapping_add(s.k, rotr32(s.l[idx], 8)) ^ i;
    let new_k = rotl32(s.k, 3) ^ new_l;
    ScheduleState { k: new_k, l: s.l.update(idx, new_l), round: (i + 1) as u32 }
}

/// The schedule's state after `n` round keys have been produced from `key`.
pub open spec fn schedule_state(key: [u32; 4], n: nat) -> ScheduleState
    decreases n,
{
    if n == 0 {
        schedule_start(key)
    } else {
        schedule_next(schedule_state(key, (n - 1) as nat))
    }
}

/// The round key of round `i` under the 128-bit key `key`.
pub open spec fn round_key(key: [u32; 4], i: nat) -> u32 {
    schedule_state(key, i).k
}

/// The first `n` round keys under `key`, in the order the rounds use them.
pub open spec fn round_keys(key: [u32; 4], n: nat) -> Seq<u32> {
    Seq::new(n, |i: int| round_key(key, i as nat))
}

/// The schedule's counter counts the round keys produced, and `l` keeps three words.
pub proof fn lemma_schedule_state_shape(key: [u32; 4], n: nat)
    requires
        n <= u32::MAX,
    ensures
        schedule_state(key, n).round == n,
        schedule_state(key, n).l.len() == 3,
    decreases n,
{
    if n > 0 {
        lemma_schedule_state_shape(key, (n - 1) as nat);
    }
}

/// Rotations by the two amounts the cipher uses, as arithmetic on the value:
/// the bits shifted out at one end come back in at the other.
pub proof fn lemma_rotations_as_arithmetic(x: u32)
    ensures
        rotr32(x, 8) == x / 0x100 + (x % 0x100) * 0x100_0000,
        rotl32(x, 8) == (x % 0x100_0000) * 0x100 + x / 0x100_0000,
        rotr32(x, 3) == x / 8 + (x % 8) * 0x2000_0000,
        rotl32(x, 3) == (x % 0x2000_0000) * 8 + x / 0x2000_0000,
{
    assert(rotr32(x, 8) == x / 0x100 + (x % 0x100) * 0x100_0000) by (bit_vector);
    assert(rotl32(x, 8) == (x % 0x100_0000) * 0x100 + x / 0x100_0000) by (bit_vector);
    assert(rotr32(x, 3) == x / 8 + (x % 8) * 0x2000_0000) by (bit_vector);
    assert(rotl32(x, 3) == (x % 0x2000_0000) * 8 + x / 0x2000_0000) by (bit_vector);
}

/// The round step in arithmetic terms: the first lane becomes
/// `((x >>> 8) + y mod 2^32) ^ k`, the second `(y <<< 3) ^` the new first lane,
/// and the third is xored with the new second lane.
pub proof fn lemma_encrypt_step_values(k: u32, x: u32, y: u32, z: u32)
    ensures
        encrypt_step_spec(k, x, y, z).0 == (((rotr32(x, 8) + y) % 0x1_0000_0000) as u32) ^ k,
        encrypt_step_spec(k, x, y, z).1 == rotl32(y, 3) ^ encrypt_step_spec(k, x, y, z).0,
        encrypt_step_spec(k, x, y, z).2 == z ^ encrypt_step_spec(k, x, y, z).1,
{
}

/// The inverse step in arithmetic terms: the third lane is xored with the second,
/// the second becomes `(y ^ x) >>> 3`, and the first `((x ^ k) - y' mod 2^32) <<< 8`.
pub proof fn lemma_decrypt_step_values(k: u32, x: u32, y: u32, z: u32)
    ensures
        decrypt_step_spec(k, x, y, z).2 == z ^ y,
        decrypt_step_spec(k, x, y, z).1 == rotr32(y ^ x, 3),
        decrypt_step_spec(k, x, y, z).0 == rotl32(
            (((x ^ k) - rotr32(y ^ x, 3)) % 0x1_0000_0000) as u32,
            8,
        ),
{
}

/// Which key word the schedule mixes in at step `i`: one of the three last key
/// words for the first three steps, afterwards the word it computed three steps
/// before, which is recovered from two round keys.
proof fn lemma_schedule_l_entry(key: [u32; 4], i: nat)
    requires
        i < u32::MAX,
    ensures
        schedule_state(key, i).l[(i % 3) as int] == (if i < 3 {
            key[(i + 1) as int]
        } else {
            round_key(key, (i - 2) as nat) ^ rotl32(round_key(key, (i - 3) as nat), 3)
        }),
{
    lemma_schedule_state_shape(key, i);
    if i == 1 {
        lemma_schedule_state_shape(key, 0);
    } else if i == 2 {
        lemma_schedule_state_shape(key, 0);
        lemma_schedule_state_shape(key, 1);
    } else if i >= 3 {
        let s3 = schedule_state(key, (i - 3) as nat);
        let s2 = schedule_state(key, (i - 2) as nat);
        let s1 = schedule_state(key, (i - 1) as nat);
        lemma_schedule_state_shape(key, (i - 3) as nat);
        lemma_schedule_state_shape(key, (i - 2) as nat);
        lemma_schedule_state_shape(key, (i - 1) as nat);
        let j = ((i - 3) % 3) as int;
        assert(j == (i % 3) as int);
        let new_l = s2.l[j];
        let new_k = s2.k;
        let old_k = s3.k;
        assert(new_k == rotl32(old_k, 3) ^ new_l);
        assert(new_l == new_k ^ rotl32(old_k, 3)) by (bit_vector)
            requires
                new_k == rotl32(old_k, 3) ^ new_l,
        ;
        assert(((i - 2) % 3) as int != j);
        assert(((i - 1) % 3) as int != j);
        assert(s1.l[j] == new_l);
    }
}

/// The Speck key schedule, stated from the key words alone: the first round key is
/// `key[0]`, and round key `i + 1` is `(k <<< 3) ^ l` where `k` is round key `i`
/// and `l = (k + (m >>> 8) mod 2^32) ^ i`, the mixed-in word `m` being `key[i + 1]`
/// for the first three rounds and afterwards the `l` computed three rounds before.
pub proof fn lemma_key_schedule(key: [u32; 4], i: nat)
    requires
        i < u32::MAX,
    ensures
        round_key(key, 0) == key[0],
        round_key(key, i + 1) == rotl32(round_key(key, i), 3) ^ (((
        (round_key(key, i) + rotr32(
            if i < 3 {
                key[(i + 1) as int]
            } else {
                round_key(key, (i - 2) as nat) ^ rotl32(round_key(key, (i - 3) as nat), 3)
            },
            8,
        )) % 0x1_0000_0000) as u32) ^ (i as u32)),
        round_keys(key, (i + 1) as nat).len() == i + 1,
        round_keys(key, (i + 1) as nat)[i as int] == round_key(key, i),
{
    lemma_schedule_l_entry(key, i);
    lemma_schedule_state_shape(key, i);
}

/// The first `n` round keys are `n` keys long, key `j` being the one of round `j`.
pub proof fn lemma_round_keys_values(key: [u32; 4], n: nat)
    ensures
        round_keys(key, n).len() == n,
        forall|j: int| 0 <= j < n ==> #[trigger] round_keys(key, n)[j] == round_key(key, j as nat),
{
}

/// Iterator-like generator of round keys from a 128-bit master key.
pub(crate) struct SpeckKeySchedule {
    k: u32,
    l: [u32; 3],
    round: u32,
}

impl View for SpeckKeySchedule {
    type V = ScheduleState;

    closed spec fn view(&self) -> ScheduleState {
        ScheduleState { k: self.k, l: self.l@, round: self.round }
    }
}

impl SpeckKeySchedule {
    /// Creates a new key schedule from a 128-bit key.
    pub(crate) fn new(key: [u32; 4]) -> (r: Self)
        ensures
            r@ == schedule_start(key),
            r@.k == key[0],
            r@.l == seq![key[1], key[2], key[3]],
            r@.round == 0,
    {
        let r = Self { k: key[0], l: [key[1], key[2], key[3]], round: 0 };
        assert(r.l@ =~= seq![key[1], key[2], key[3]]);
        r
    }

    /// Returns the current round key and advances the schedule.
    pub(crate) fn next(&mut self) -> (r: Option<u32>)
        requires
            old(self)@.round < u32::MAX,
        ensures
            r == Some(old(self)@.k),
            final(self)@ == schedule_next(old(self)@),
    {
        let current_key = self.k;
        let i = self.round;
        let l_idx = (i % 3) as usize;
        let new_l = self.k.wrapping_add(rotate_right(self.l[l_idx], 8)) ^ i;
        let new_k = rotate_left(self.k, 3) ^ new_l;
        self.l[l_idx] = new_l;
        self.k = new_k;
        self.round = self.round + 1;
        assert(self.l@ =~= old(self)@.l.update((i % 3) as int, new_l));
        Some(current_key)
    }
}

} // verus!
