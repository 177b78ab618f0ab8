//! What holds of words: mixing can be undone, turning moves bits, and bytes add up.

use vstd::arithmetic::power2::pow2;
use vstd::prelude::*;

use crate::bits;

verus! {

/// The inverse of the first mixing multiplier among the words.
pub const UNMIX_FIRST: u64 = 0x96de_1b17_3f11_9089;

/// The inverse of the second mixing multiplier among the words.
pub const UNMIX_SECOND: u64 = 0x3196_42b2_d24d_8ec3;

/// One more than the largest word.
pub open spec fn word_range() -> int {
    0x1_0000_0000_0000_0000
}

/// The word that an integer leaves modulo the word range.
pub open spec fn word(value: int) -> u64 {
    (value % word_range()) as u64
}

/// The word from which mixing gives `value`.
pub open spec fn unmixed(value: u64) -> u64 {
    let first: u64 = word((value ^ (value >> 31) ^ (value >> 62)) * UNMIX_SECOND);
    let second: u64 = word((first ^ (first >> 27) ^ (first >> 54)) * UNMIX_FIRST);
    second ^ (second >> 30) ^ (second >> 60)
}

/// Multiplying by a word and then by its inverse gives the word back.
proof fn lemma_inverse(value: u64, factor: u64, inverse: u64)
    requires
        (factor * inverse) % word_range() == 1,
    ensures
        word(word(value * factor) * inverse) == value,
{
    let range: int = word_range();
    let product: int = value * factor;
    assert((factor as int) * (inverse as int) == factor * inverse);
    vstd::arithmetic::div_mod::lemma_mul_mod_noop_left(product, inverse as int, range);
    assert(product * inverse == value * (factor * inverse)) by (nonlinear_arith)
        requires
            product == value * factor,
    ;
    vstd::arithmetic::div_mod::lemma_mul_mod_noop_right(value as int, factor * inverse, range);
    vstd::arithmetic::div_mod::lemma_small_mod(value as nat, range as nat);
}

/// Mixing can be undone, so different words are mixed to different words.
pub proof fn lemma_mixing_is_undone(value: u64)
    ensures
        unmixed(bits::spec_mix64(value)) == value,
{
    let a: u64 = value ^ (value >> 30);
    let first: u64 = a.wrapping_mul(bits::MIX_FIRST);
    let b: u64 = first ^ (first >> 27);
    let second: u64 = b.wrapping_mul(bits::MIX_SECOND);
    let mixed: u64 = second ^ (second >> 31);
    assert(second == mixed ^ (mixed >> 31) ^ (mixed >> 62)) by (bit_vector)
        requires
            mixed == second ^ (second >> 31),
    ;
    assert((0x94d0_49bb_1331_11ebint * 0x3196_42b2_d24d_8ec3int) % 0x1_0000_0000_0000_0000int
        == 1);
    assert((0xbf58_476d_1ce4_e5b9int * 0x96de_1b17_3f11_9089int) % 0x1_0000_0000_0000_0000int
        == 1);
    lemma_inverse(b, bits::MIX_SECOND, UNMIX_SECOND);
    assert(first == b ^ (b >> 27) ^ (b >> 54)) by (bit_vector)
        requires
            b == first ^ (first >> 27),
    ;
    lemma_inverse(a, bits::MIX_FIRST, UNMIX_FIRST);
    assert(value == a ^ (a >> 30) ^ (a >> 60)) by (bit_vector)
        requires
            a == value ^ (value >> 30),
    ;
}

/// Every word is the mix of some word: of the one that undoing gives.
pub proof fn lemma_mixing_reaches(value: u64)
    ensures
        bits::spec_mix64(unmixed(value)) == value,
{
    let first: u64 = value ^ (value >> 31) ^ (value >> 62);
    let a: u64 = word(first * UNMIX_SECOND);
    let second: u64 = a ^ (a >> 27) ^ (a >> 54);
    let b: u64 = word(second * UNMIX_FIRST);
    let plain: u64 = b ^ (b >> 30) ^ (b >> 60);
    assert((0x3196_42b2_d24d_8ec3int * 0x94d0_49bb_1331_11ebint) % 0x1_0000_0000_0000_0000int
        == 1);
    assert((0x96de_1b17_3f11_9089int * 0xbf58_476d_1ce4_e5b9int) % 0x1_0000_0000_0000_0000int
        == 1);
    assert(plain ^ (plain >> 30) == b) by (bit_vector)
        requires
            plain == b ^ (b >> 30) ^ (b >> 60),
    ;
    lemma_inverse(second, UNMIX_FIRST, bits::MIX_FIRST);
    assert(second ^ (second >> 27) == a) by (bit_vector)
        requires
            second == a ^ (a >> 27) ^ (a >> 54),
    ;
    lemma_inverse(first, UNMIX_SECOND, bits::MIX_SECOND);
    assert(first ^ (first >> 31) == value) by (bit_vector)
        requires
            first == value ^ (value >> 31) ^ (value >> 62),
    ;
}

/// The word with its upper `count` bits moved below the others.
pub open spec fn turned(value: u64, count: nat) -> u64 {
    let low: nat = pow2((64 - count) as nat);
    ((value as nat % low) * pow2(count) + value as nat / low) as u64
}

/// Turning a word moves its upper bits below the others.
pub proof fn lemma_turning_moves_bits(value: u64, count: u32)
    requires
        count < 64,
    ensures
        bits::spec_rotate_left(value, count) == turned(value, count as nat),
{
    vstd::arithmetic::power2::lemma2_to64_rest();
    vstd::arithmetic::power2::lemma2_to64();
    let low: nat = pow2((64 - count) as nat);
    if count == 0 {
        vstd::arithmetic::div_mod::lemma_small_mod(value as nat, pow2(64));
        vstd::arithmetic::div_mod::lemma_basic_div(value as int, pow2(64) as int);
    } else {
        let rest: u64 = (64 - count) as u64;
        let wide: u64 = count as u64;
        let mask: u64 = vstd::bits::low_bits_mask(rest as nat) as u64;
        vstd::bits::lemma_u64_shr_is_div(value, rest);
        vstd::bits::lemma_u64_low_bits_mask_is_mod(value, rest as nat);
        vstd::arithmetic::power2::lemma_pow2_pos(rest as nat);
        vstd::arithmetic::power2::lemma_pow2_pos(wide as nat);
        vstd::arithmetic::power2::lemma_pow2_adds(rest as nat, wide as nat);
        let kept: u64 = (value as nat % low) as u64;
        assert(kept < low);
        assert(kept * pow2(wide as nat) < pow2(64)) by (nonlinear_arith)
            requires
                kept < low,
                low * pow2(wide as nat) == pow2(64),
                pow2(wide as nat) > 0,
        ;
        vstd::bits::lemma_u64_shl_is_mul(kept, wide);
        let unit: u64 = 1u64 << rest;
        assert(unit == low && mask == unit - 1) by {
            vstd::arithmetic::power2::lemma_pow2_strictly_increases(rest as nat, 64);
            vstd::bits::lemma_u64_shl_is_mul(1, rest);
        }
        assert(kept == value & mask);
        assert((value << wide) | (value >> rest) == (kept << wide) | (value >> rest))
            by (bit_vector)
            requires
                kept == value & mask,
                unit == 1u64 << rest,
                mask == unit - 1,
                0 < wide < 64,
                rest == 64 - wide,
        ;
        let high: u64 = kept << wide;
        let bottom: u64 = value >> rest;
        assert(high & bottom == 0) by (bit_vector)
            requires
                high == kept << wide,
                bottom == value >> rest,
                0 < wide < 64,
                rest == 64 - wide,
        ;
        assert(high | bottom == high + bottom) by (bit_vector)
            requires
                high & bottom == 0,
        ;
        assert(value << count == value << wide && value >> ((64 - count) as u32) == value >> rest)
            by (bit_vector)
            requires
                wide == count,
                rest == 64 - count,
                0 < count < 64,
        ;
    }
}

/// The number that eight bytes from `at` on add up to, each weighing 256 times the one before it.
pub open spec fn number_at(bytes: Seq<u8>, at: int) -> int {
    bytes[at] + 0x100 * bytes[at + 1] + 0x1_0000 * bytes[at + 2] + 0x100_0000 * bytes[at + 3]
        + 0x1_0000_0000 * bytes[at + 4] + 0x100_0000_0000 * bytes[at + 5] + 0x1_0000_0000_0000
        * bytes[at + 6] + 0x100_0000_0000_0000 * bytes[at + 7]
}

/// A word that is read from bytes is the number they add up to.
pub proof fn lemma_read_adds_up(bytes: Seq<u8>, at: int)
    ensures
        bits::spec_read_le(bytes, at) == number_at(bytes, at),
{
    let (b0, b1, b2, b3) = (bytes[at], bytes[at + 1], bytes[at + 2], bytes[at + 3]);
    let (b4, b5, b6, b7) = (bytes[at + 4], bytes[at + 5], bytes[at + 6], bytes[at + 7]);
    assert((b0 as u64) | ((b1 as u64) << 8) | ((b2 as u64) << 16) | ((b3 as u64) << 24) | ((
    b4 as u64) << 32) | ((b5 as u64) << 40) | ((b6 as u64) << 48) | ((b7 as u64) << 56) == b0
        + 0x100 * b1 + 0x1_0000 * b2 + 0x100_0000 * b3 + 0x1_0000_0000 * b4 + 0x100_0000_0000 * b5
        + 0x1_0000_0000_0000 * b6 + 0x100_0000_0000_0000 * b7) by (bit_vector);
}

/// The bytes of a word add up to it, and no other eight bytes do.
pub proof fn lemma_bytes_add_up(value: u64, bytes: Seq<u8>, at: int)
    requires
        0 <= at,
        at + 8 <= bytes.len(),
    ensures
        number_at(bits::le_bytes(value), 0) == value,
        number_at(bytes, at) == value <==> bytes.subrange(at, at + 8) == bits::le_bytes(value),
{
    bits::lemma_read_after_write(value);
    lemma_read_adds_up(bits::le_bytes(value), 0);
    lemma_read_adds_up(bytes, at);
    let part: Seq<u8> = bytes.subrange(at, at + 8);
    if number_at(bytes, at) == value {
        let (b0, b1, b2, b3) = (bytes[at], bytes[at + 1], bytes[at + 2], bytes[at + 3]);
        let (b4, b5, b6, b7) = (bytes[at + 4], bytes[at + 5], bytes[at + 6], bytes[at + 7]);
        assert((value >> 0) as u8 == b0 && (value >> 8) as u8 == b1 && (value >> 16) as u8 == b2
            && (value >> 24) as u8 == b3 && (value >> 32) as u8 == b4 && (value >> 40) as u8 == b5
            && (value >> 48) as u8 == b6 && (value >> 56) as u8 == b7) by (bit_vector)
            requires
                value == (b0 as u64) | ((b1 as u64) << 8) | ((b2 as u64) << 16) | ((b3 as u64)
                    << 24) | ((b4 as u64) << 32) | ((b5 as u64) << 40) | ((b6 as u64) << 48) | ((
                b7 as u64) << 56),
        ;
        assert(part =~= bits::le_bytes(value)) by {
            assert forall|i: int| 0 <= i < 8 implies #[trigger] part[i] == bits::byte_at(
                value,
                i,
            ) by {
                assert(i == 0 || i == 1 || i == 2 || i == 3 || i == 4 || i == 5 || i == 6 || i
                    == 7);
            }
        }
    } else if part == bits::le_bytes(value) {
        assert(forall|i: int| 0 <= i < 8 ==> bytes[at + i] == #[trigger] part[i]);
        assert(bytes[at] == part[0] && bytes[at + 1] == part[1] && bytes[at + 2] == part[2]
            && bytes[at + 3] == part[3] && bytes[at + 4] == part[4] && bytes[at + 5] == part[5]
            && bytes[at + 6] == part[6] && bytes[at + 7] == part[7]);
    }
}

/// The two's complement of a signed word is what it leaves modulo the word range.
pub proof fn lemma_two_complement(value: i64)
    ensures
        value as u64 == word(value as int),
        value as u64 == (if value < 0 {
            value + word_range()
        } else {
            value as int
        }),
{
    assert(value as u64 == if value < 0 {
        value + 0x1_0000_0000_0000_0000
    } else {
        value + 0
    }) by (bit_vector);
}

/// Wrapping sums and products are what the integers leave modulo the word range.
pub proof fn lemma_wrapping_is_modular(left: u64, right: u64)
    ensures
        left.wrapping_add(right) == word(left + right),
        left.wrapping_mul(right) == word(left * right),
{
}

/// A number that a 64-bit signed word can hold stays; any other gives way to the nearest end.
pub proof fn lemma_clamp_is_nearest(value: int)
    ensures
        i64::MIN <= value <= i64::MAX ==> bits::clamp_i64(value) == value,
        value > i64::MAX ==> bits::clamp_i64(value) == i64::MAX,
        value < i64::MIN ==> bits::clamp_i64(value) == i64::MIN,
{
}

} // verus!
