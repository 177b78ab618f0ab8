//! Word-level arithmetic shared by the training rule and the toy hash.

use vstd::prelude::*;

verus! {

/// Multiplier of the first mixing round.
pub const MIX_FIRST: u64 = 0xbf58_476d_1ce4_e5b9;

/// Multiplier of the second mixing round.
pub const MIX_SECOND: u64 = 0x94d0_49bb_1331_11eb;

/// The 64-bit finaliser: xor-shift, multiply, xor-shift, multiply, xor-shift.
pub open spec fn spec_mix64(value: u64) -> u64 {
    let first: u64 = (value ^ (value >> 30)).wrapping_mul(MIX_FIRST);
    let second: u64 = (first ^ (first >> 27)).wrapping_mul(MIX_SECOND);
    second ^ (second >> 31)
}

pub fn mix64(value: u64) -> (mixed: u64)
    ensures
        mixed == spec_mix64(value),
{
    let first: u64 = (value ^ (value >> 30)).wrapping_mul(MIX_FIRST);
    let second: u64 = (first ^ (first >> 27)).wrapping_mul(MIX_SECOND);
    second ^ (second >> 31)
}

/// The word `value` turned left by `count` bits, for a count below the word width.
pub open spec fn spec_rotate_left(value: u64, count: u32) -> u64 {
    if count == 0 {
        value
    } else {
        (value << count) | (value >> ((64 - count) as u32))
    }
}

pub fn rotate_left(value: u64, count: u32) -> (turned: u64)
    requires
        count < 64,
    ensures
        turned == spec_rotate_left(value, count),
{
    if count == 0 {
        value
    } else {
        (value << count) | (value >> (64 - count))
    }
}

/// The integer nearest to `value` that a 64-bit signed word can hold.
pub open spec fn clamp_i64(value: int) -> i64 {
    if value > i64::MAX {
        i64::MAX
    } else if value < i64::MIN {
        i64::MIN
    } else {
        value as i64
    }
}

pub fn saturating_sub(left: i64, right: i64) -> (difference: i64)
    ensures
        difference == clamp_i64(left - right),
{
    match left.checked_sub(right) {
        Some(difference) => difference,
        None => {
            if right > 0 {
                i64::MIN
            } else {
                i64::MAX
            }
        },
    }
}

pub fn saturating_add(left: i64, right: i64) -> (sum: i64)
    ensures
        sum == clamp_i64(left + right),
{
    match left.checked_add(right) {
        Some(sum) => sum,
        None => {
            if right > 0 {
                i64::MAX
            } else {
                i64::MIN
            }
        },
    }
}

/// The byte of `value` at position `index`, counted from the least significant one.
pub open spec fn byte_at(value: u64, index: int) -> u8 {
    (value >> ((8 * index) as u64)) as u8
}

/// The eight bytes of `value`, least significant first.
pub open spec fn le_bytes(value: u64) -> Seq<u8> {
    Seq::new(8, |i: int| byte_at(value, i))
}

/// Appends the eight bytes of `value`, least significant first.
pub fn push_le_bytes(out: &mut Vec<u8>, value: u64)
    ensures
        final(out)@ == old(out)@ + le_bytes(value),
{
    let mut index: u64 = 0;
    while index < 8
        invariant
            index <= 8,
            out@ == old(out)@ + le_bytes(value).take(index as int),
        decreases 8 - index,
    {
        out.push(#[verifier::truncate] ((value >> (8 * index)) as u8));
        index += 1;
        assert(le_bytes(value).take(index as int) == le_bytes(value).take(index - 1).push(
            byte_at(value, index - 1),
        ));
    }
    assert(le_bytes(value).take(8) == le_bytes(value));
}

/// The word whose eight bytes, least significant first, start at `offset`.
pub open spec fn spec_read_le(bytes: Seq<u8>, offset: int) -> u64 {
    (bytes[offset] as u64) | ((bytes[offset + 1] as u64) << 8) | ((bytes[offset + 2] as u64) << 16)
        | ((bytes[offset + 3] as u64) << 24) | ((bytes[offset + 4] as u64) << 32) | ((bytes[offset
        + 5] as u64) << 40) | ((bytes[offset + 6] as u64) << 48) | ((bytes[offset + 7] as u64)
        << 56)
}

/// Reads the word whose eight bytes, least significant first, start at `offset`.
pub fn read_le(bytes: &[u8], offset: usize) -> (value: u64)
    requires
        offset + 8 <= bytes@.len(),
    ensures
        value == spec_read_le(bytes@, offset as int),
{
    (bytes[offset] as u64) | ((bytes[offset + 1] as u64) << 8) | ((bytes[offset + 2] as u64) << 16)
        | ((bytes[offset + 3] as u64) << 24) | ((bytes[offset + 4] as u64) << 32) | ((bytes[offset
        + 5] as u64) << 40) | ((bytes[offset + 6] as u64) << 48) | ((bytes[offset + 7] as u64)
        << 56)
}

/// Reading eight bytes back gives the word that was written.
pub proof fn lemma_read_after_write(value: u64)
    ensures
        spec_read_le(le_bytes(value), 0) == value,
{
    assert(((value >> 0) as u8) as u64 | (((value >> 8) as u8) as u64) << 8 | (((value
        >> 16) as u8) as u64) << 16 | (((value >> 24) as u8) as u64) << 24 | (((value
        >> 32) as u8) as u64) << 32 | (((value >> 40) as u8) as u64) << 40 | (((value
        >> 48) as u8) as u64) << 48 | (((value >> 56) as u8) as u64) << 56 == value)
        by (bit_vector);
}

} // verus!
