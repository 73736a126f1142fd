//! Simplified DES: a toy 8-bit Feistel block cipher with a 10-bit master
//! key, kept as the self-contained symmetric sibling of the public-key
//! components. Key schedule: permute the 10 key bits, rotate each 5-bit
//! half, and press out two 8-bit round keys; each round expands and
//! permutes half a block, mixes in a round key, and substitutes through
//! two 4x4 s-boxes. Decryption runs the rounds with the keys swapped.

use vstd::prelude::*;

verus! {

/// The 10-bit key permutation, bit for bit.
pub open spec fn spec_permutation_10(bits: u16) -> u16 {
    (bits & 0b1000000000) >> 6 | (bits & 0b0100000000) >> 1 | (bits & 0b0010000000) << 2 | (bits
        & 0b0001000000) >> 1 | (bits & 0b0000100000) << 3 | (bits & 0b0000010000) >> 4 | (bits
        & 0b0000001000) << 3 | (bits & 0b0000000100) >> 1 | (bits & 0b0000000010) << 1 | (bits
        & 0b0000000001) << 4
}

/// One circular left shift of a 5-bit half.
pub open spec fn spec_shl_u5(bits: u16) -> u16 {
    (bits << 1) & 0b11111 | ((bits & 0b10000) >> 4)
}

/// Each 5-bit half rotated once.
pub open spec fn spec_ls_1(key: u16) -> u16 {
    (spec_shl_u5(key >> 5) << 5) | spec_shl_u5(key & 0b11111)
}

/// Each 5-bit half rotated twice.
pub open spec fn spec_ls_2(key: u16) -> u16 {
    (spec_shl_u5(spec_shl_u5(key >> 5)) << 5) | spec_shl_u5(spec_shl_u5(key & 0b11111))
}

/// The 8-bit round-key permutation, bit for bit.
pub open spec fn spec_permutation_8(bits: u8) -> u8 {
    (bits & 0b10000000) >> 1 | (bits & 0b01000000) >> 2 | (bits & 0b00100000) >> 3 | (bits
        & 0b00010000) << 3 | (bits & 0b00001000) << 2 | (bits & 0b00000100) << 1 | (bits
        & 0b00000010) >> 1 | (bits & 0b00000001) << 1
}

/// The initial block permutation, bit for bit.
pub open spec fn spec_permutation_ip(bits: u8) -> u8 {
    (bits & 0b10000000) >> 3 | (bits & 0b01000000) << 1 | (bits & 0b00100000) | (bits & 0b00010000)
        >> 1 | (bits & 0b00001000) >> 2 | (bits & 0b00000100) << 4 | (bits & 0b00000010) >> 1 | (
    bits & 0b00000001) << 2
}

/// The inverse of the initial block permutation, bit for bit.
pub open spec fn spec_permutation_inverse_ip(bits: u8) -> u8 {
    (bits & 0b10000000) >> 1 | (bits & 0b01000000) >> 4 | (bits & 0b00100000) | (bits & 0b00010000)
        << 3 | (bits & 0b00001000) << 1 | (bits & 0b00000100) >> 2 | (bits & 0b00000010) << 2 | (
    bits & 0b00000001) << 1
}

/// The expansion permutation of a 4-bit half into 8 bits.
pub open spec fn spec_permutation_ep(bits: u8) -> u8 {
    (bits & 0b0001) << 7 | (bits & 0b1000) << 3 | (bits & 0b0100) << 3 | (bits & 0b0010) << 3 | (
    bits & 0b0100) << 1 | (bits & 0b0010) << 1 | (bits & 0b0001) << 1 | (bits & 0b1000) >> 3
}

/// The 4-bit permutation after the s-boxes.
pub open spec fn spec_permutation_4(bits: u8) -> u8 {
    (bits & 0b1000) >> 3 | (bits & 0b0100) << 1 | (bits & 0b0010) | (bits & 0b0001) << 2
}

/// Where a 4-bit value lands in an s-box: outer bits choose the row,
/// inner bits the column.
pub open spec fn spec_sbox_index(bits: u8) -> int {
    (((bits & 0b0001) | ((bits & 0b1000) >> 2)) * 4 + ((bits & 0b0110) >> 1)) as int
}

/// The first s-box table.
pub open spec fn spec_sbox0(i: int) -> u8 {
    if i == 0 {
        1
    } else if i == 1 {
        0
    } else if i == 2 {
        3
    } else if i == 3 {
        2
    } else if i == 4 {
        3
    } else if i == 5 {
        2
    } else if i == 6 {
        1
    } else if i == 7 {
        0
    } else if i == 8 {
        0
    } else if i == 9 {
        2
    } else if i == 10 {
        1
    } else if i == 11 {
        3
    } else if i == 12 {
        3
    } else if i == 13 {
        1
    } else if i == 14 {
        3
    } else {
        2
    }
}

/// The second s-box table.
pub open spec fn spec_sbox1(i: int) -> u8 {
    if i == 0 {
        0
    } else if i == 1 {
        1
    } else if i == 2 {
        2
    } else if i == 3 {
        3
    } else if i == 4 {
        2
    } else if i == 5 {
        0
    } else if i == 6 {
        1
    } else if i == 7 {
        3
    } else if i == 8 {
        3
    } else if i == 9 {
        0
    } else if i == 10 {
        1
    } else if i == 11 {
        0
    } else if i == 12 {
        2
    } else if i == 13 {
        1
    } else if i == 14 {
        0
    } else {
        3
    }
}

/// Both s-boxes applied to the two halves of an 8-bit value.
pub open spec fn spec_sboxes(bits: u8) -> u8 {
    (spec_sbox0(spec_sbox_index(bits >> 4)) << 2) | spec_sbox1(spec_sbox_index(bits & 0b1111))
}

/// One Feistel round: expand and permute the right half, mix in the round
/// key, substitute, permute, and fold into the left half.
pub open spec fn spec_step(key: u8, bits: u8) -> u8 {
    let left = bits >> 4;
    let right = bits & 0b1111;
    let mixed = spec_permutation_4(spec_sboxes(spec_permutation_ep(right) ^ key)) ^ left;
    (mixed << 4) | right
}

/// A full pass of the cipher with the two round keys in the given order.
pub open spec fn spec_calculate(bits: u8, first_key: u8, second_key: u8) -> u8 {
    let a = spec_step(first_key, spec_permutation_ip(bits));
    let swapped = ((a >> 4) | ((a & 0b1111) << 4)) as u8;
    spec_permutation_inverse_ip(spec_step(second_key, swapped))
}

/// The first round key of the schedule.
pub open spec fn spec_key1(key: u16) -> u8 {
    spec_permutation_8(spec_ls_1(spec_permutation_10(key)) as u8)
}

/// The second round key of the schedule: the shifts continue from the
/// first round key's state, three rotations of each half in all.
pub open spec fn spec_key2(key: u16) -> u8 {
    spec_permutation_8(spec_ls_2(spec_ls_1(spec_permutation_10(key))) as u8)
}

/// A keyed instance of the cipher: the two round keys pressed from the
/// 10-bit master key.
#[derive(Debug, PartialEq, Eq)]
pub struct Sdes {
    pub key1: u8,
    pub key2: u8,
}

impl Sdes {
    /// Runs the key schedule for a master key below 2^11.
    pub fn new(key: u16) -> (r: Self)
        requires
            key < 2048,
        ensures
            r.key1 == spec_key1(key),
            r.key2 == spec_key2(key),
    {
        let mut schedule = permutation_10(key);

        schedule = ls_1(schedule);
        let key1 = permutation_8(#[verifier::truncate] (schedule as u8));

        schedule = ls_2(schedule);
        let key2 = permutation_8(#[verifier::truncate] (schedule as u8));

        Self { key1, key2 }
    }

    /// Encrypts one 8-bit block.
    pub fn encrypt(&self, bits: u8) -> (r: u8)
        ensures
            r == spec_calculate(bits, self.key1, self.key2),
    {
        calculate(bits, self.key1, self.key2)
    }

    /// Decrypts one 8-bit block: the rounds run with the keys swapped.
    pub fn decyrpt(&self, bits: u8) -> (r: u8)
        ensures
            r == spec_calculate(bits, self.key2, self.key1),
    {
        calculate(bits, self.key2, self.key1)
    }
}

/// A full pass of the cipher: initial permutation, a round with the first
/// key, a swap of the nibbles, a round with the second key, and the
/// inverse permutation.
pub fn calculate(bits: u8, first_key: u8, second_key: u8) -> (r: u8)
    ensures
        r == spec_calculate(bits, first_key, second_key),
{
    let mut state = permutation_ip(bits);

    state = step(first_key, state);
    // reverse the nibbles
    state = (state >> 4) | ((state & 0b1111) << 4);
    state = step(second_key, state);

    permutation_inverse_ip(state)
}

/// One Feistel round.
pub fn step(key: u8, bits: u8) -> (r: u8)
    ensures
        r == spec_step(key, bits),
{
    let left = bits >> 4;
    let right = bits & 0b1111;

    let mut mixed = permutation_ep(right);
    mixed = mixed ^ key;
    mixed = sboxes(mixed);
    mixed = permutation_4(mixed);
    mixed = mixed ^ left;
    (mixed << 4) | right
}

/// Where a 4-bit value lands in an s-box.
pub fn sbox_index(bits: u8) -> (r: usize)
    ensures
        r == spec_sbox_index(bits),
        r < 16,
{
    let row = (bits & 0b0001) | ((bits & 0b1000) >> 2);
    let col = (bits & 0b0110) >> 1;
    proof {
        assert(((bits & 0b0001) | ((bits & 0b1000) >> 2)) <= 3) by (bit_vector);
        assert(((bits & 0b0110) >> 1) <= 3) by (bit_vector);
    }
    ((row * 4) + col) as usize
}

/// Looks an index up in the first s-box.
fn sbox0_at(i: usize) -> (r: u8)
    requires
        i < 16,
    ensures
        r == spec_sbox0(i as int),
{
    if i == 0 {
        1
    } else if i == 1 {
        0
    } else if i == 2 {
        3
    } else if i == 3 {
        2
    } else if i == 4 {
        3
    } else if i == 5 {
        2
    } else if i == 6 {
        1
    } else if i == 7 {
        0
    } else if i == 8 {
        0
    } else if i == 9 {
        2
    } else if i == 10 {
        1
    } else if i == 11 {
        3
    } else if i == 12 {
        3
    } else if i == 13 {
        1
    } else if i == 14 {
        3
    } else {
        2
    }
}

/// Looks an index up in the second s-box.
fn sbox1_at(i: usize) -> (r: u8)
    requires
        i < 16,
    ensures
        r == spec_sbox1(i as int),
{
    if i == 0 {
        0
    } else if i == 1 {
        1
    } else if i == 2 {
        2
    } else if i == 3 {
        3
    } else if i == 4 {
        2
    } else if i == 5 {
        0
    } else if i == 6 {
        1
    } else if i == 7 {
        3
    } else if i == 8 {
        3
    } else if i == 9 {
        0
    } else if i == 10 {
        1
    } else if i == 11 {
        0
    } else if i == 12 {
        2
    } else if i == 13 {
        1
    } else if i == 14 {
        0
    } else {
        3
    }
}

/// Both s-boxes applied to the two halves of an 8-bit value.
pub fn sboxes(bits: u8) -> (r: u8)
    ensures
        r == spec_sboxes(bits),
{
    let right = bits & 0b1111;
    let left = bits >> 4;

    let i0 = sbox_index(left);
    let i1 = sbox_index(right);
    (sbox0_at(i0) << 2) | sbox1_at(i1)
}

/// Each 5-bit half of the 10-bit key rotated once.
pub fn ls_1(key: u16) -> (r: u16)
    ensures
        r == spec_ls_1(key),
{
    let mut left = key >> 5;
    let mut right = key & 0b11111;
    left = shl_u5(left);
    right = shl_u5(right);
    (left << 5) | right
}

/// Each 5-bit half of the 10-bit key rotated twice.
pub fn ls_2(key: u16) -> (r: u16)
    ensures
        r == spec_ls_2(key),
{
    let mut left = key >> 5;
    let mut right = key & 0b11111;
    left = shl_u5(left);
    left = shl_u5(left);
    right = shl_u5(right);
    right = shl_u5(right);
    (left << 5) | right
}

/// One circular left shift of a 5-bit value.
pub fn shl_u5(bits: u16) -> (r: u16)
    ensures
        r == spec_shl_u5(bits),
{
    let overflow_bit = (bits & 0b10000) >> 4;
    (bits << 1) & 0b11111 | overflow_bit
}

/// The 4-bit permutation after the s-boxes.
pub fn permutation_4(bits: u8) -> (r: u8)
    ensures
        r == spec_permutation_4(bits),
{
    (bits & 0b1000) >> 3 | (bits & 0b0100) << 1 | (bits & 0b0010) | (bits & 0b0001) << 2
}

/// The expansion permutation of a 4-bit half into 8 bits.
pub fn permutation_ep(bits: u8) -> (r: u8)
    ensures
        r == spec_permutation_ep(bits),
{
    (bits & 0b0001) << 7 | (bits & 0b1000) << 3 | (bits & 0b0100) << 3 | (bits & 0b0010) << 3 | (
    bits & 0b0100) << 1 | (bits & 0b0010) << 1 | (bits & 0b0001) << 1 | (bits & 0b1000) >> 3
}

/// The inverse of the initial block permutation.
pub fn permutation_inverse_ip(bits: u8) -> (r: u8)
    ensures
        r == spec_permutation_inverse_ip(bits),
{
    (bits & 0b10000000) >> 1 | (bits & 0b01000000) >> 4 | (bits & 0b00100000) | (bits & 0b00010000)
        << 3 | (bits & 0b00001000) << 1 | (bits & 0b00000100) >> 2 | (bits & 0b00000010) << 2 | (
    bits & 0b00000001) << 1
}

/// The initial block permutation.
pub fn permutation_ip(bits: u8) -> (r: u8)
    ensures
        r == spec_permutation_ip(bits),
{
    (bits & 0b10000000) >> 3 | (bits & 0b01000000) << 1 | (bits & 0b00100000) | (bits & 0b00010000)
        >> 1 | (bits & 0b00001000) >> 2 | (bits & 0b00000100) << 4 | (bits & 0b00000010) >> 1 | (
    bits & 0b00000001) << 2
}

/// The 8-bit round-key permutation.
pub fn permutation_8(bits: u8) -> (r: u8)
    ensures
        r == spec_permutation_8(bits),
{
    (bits & 0b10000000) >> 1 | (bits & 0b01000000) >> 2 | (bits & 0b00100000) >> 3 | (bits
        & 0b00010000) << 3 | (bits & 0b00001000) << 2 | (bits & 0b00000100) << 1 | (bits
        & 0b00000010) >> 1 | (bits & 0b00000001) << 1
}

/// The 10-bit key permutation.
pub fn permutation_10(bits: u16) -> (r: u16)
    ensures
        r == spec_permutation_10(bits),
{
    (bits & 0b1000000000) >> 6 | (bits & 0b0100000000) >> 1 | (bits & 0b0010000000) << 2 | (bits
        & 0b0001000000) >> 1 | (bits & 0b0000100000) << 3 | (bits & 0b0000010000) >> 4 | (bits
        & 0b0000001000) << 3 | (bits & 0b0000000100) >> 1 | (bits & 0b0000000010) << 1 | (bits
        & 0b0000000001) << 4
}

} // verus!
