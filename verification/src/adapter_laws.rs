//! What the toy hash and the deterministic sampler compute, told from their inputs.

use vstd::prelude::*;

use crate::adapters;
use crate::adapters::{DeterministicSampler, ToyHash};
use crate::bits;
use crate::domain::digest;
use crate::domain::layout_laws;
use crate::domain::Digest;
use crate::ports::{HashPort, SamplingPort};
use crate::word_laws;

verus! {

/// Four lanes for every count of absorbed bytes: each byte is added into one lane in turn, with its
/// position above it; that lane is turned, raised by its neighbour and mixed, and the other lanes
/// stay.
pub open spec fn absorbs(bytes: Seq<u8>, lanes: Seq<Seq<u64>>) -> bool {
    &&& lanes.len() == bytes.len() + 1
    &&& lanes[0] == seq![
        0x243f_6a88_85a3_08d3u64,
        0x1319_8a2e_0370_7344u64,
        0xa409_3822_299f_31d0u64,
        0x082e_fa98_ec4e_6c89u64,
    ]
    &&& forall|i: int| 0 <= i < bytes.len() ==> #[trigger] absorbs_one(bytes, lanes, i)
}

/// The lanes behind the byte at `i` follow from those before it.
pub open spec fn absorbs_one(bytes: Seq<u8>, lanes: Seq<Seq<u64>>, i: int) -> bool {
    &&& lanes[i + 1].len() == 4
    &&& forall|j: int| 0 <= j < 4 && j != i % 4 ==> #[trigger] lanes[i + 1][j] == lanes[i][j]
    &&& word_laws::unmixed(lanes[i + 1][i % 4]) == word_laws::word(
        word_laws::turned(lanes[i][i % 4] ^ word_laws::word(bytes[i] + 0x100 * i), 13) + lanes[i][(i
            + 1) % 4],
    )
}

/// The words of the digest undo to the last lanes, crossed with the length and with each other.
pub open spec fn crosses(lanes: Seq<u64>, length: int, digest: Digest) -> bool {
    let first: u64 = word_laws::unmixed(word_laws::word(word_laws::number_at(digest@, 0)));
    let second: u64 = word_laws::unmixed(word_laws::word(word_laws::number_at(digest@, 8)));
    let third: u64 = word_laws::unmixed(word_laws::word(word_laws::number_at(digest@, 16)));
    let fourth: u64 = word_laws::unmixed(word_laws::word(word_laws::number_at(digest@, 24)));
    &&& first == lanes[0] ^ (length as u64)
    &&& second == lanes[1] ^ word_laws::turned(length as u64, 17)
    &&& third == lanes[2] ^ word_laws::word(first + second)
    &&& fourth == lanes[3] ^ word_laws::turned(third, 57)
}

/// A byte with its position above it.
proof fn lemma_placed_byte(byte: u8, index: u64)
    ensures
        (byte as u64).wrapping_add(index << 8) == word_laws::word(byte + 0x100 * index),
{
    let low: u64 = index & 0xff_ffff_ffff_ffff;
    let high: u64 = index >> 56;
    assert((index << 8) == low * 0x100) by (bit_vector)
        requires
            low == index & 0xff_ffff_ffff_ffff,
    ;
    assert(index == high * 0x100_0000_0000_0000 + low) by (bit_vector)
        requires
            low == index & 0xff_ffff_ffff_ffff,
            high == index >> 56,
    ;
    word_laws::lemma_wrapping_is_modular(byte as u64, index << 8);
    let range: int = word_laws::word_range();
    assert(byte + 0x100 * index == high * range + (byte + (index << 8)));
    vstd::arithmetic::div_mod::lemma_mod_multiples_vanish(
        high as int,
        byte + (index << 8),
        range,
    );
    assert(range * high == high * range) by (nonlinear_arith);
}

/// What absorbing one byte leaves in its lane undoes to what went in.
proof fn lemma_lane_absorbs(lanes: Seq<u64>, i: int, byte: u8)
    requires
        lanes.len() == 4,
        0 <= i <= u64::MAX,
    ensures
        adapters::absorb(lanes, i as nat, byte)[i % 4] == bits::spec_mix64(
            word_laws::word(
                word_laws::turned(lanes[i % 4] ^ word_laws::word(byte + 0x100 * i), 13) + lanes[(i
                    + 1) % 4],
            ),
        ),
{
    let lane: int = i % 4;
    let touched: u64 = lanes[lane] ^ (byte as u64).wrapping_add((i as u64) << 8);
    let next: u64 = lanes[(i + 1) % 4];
    lemma_placed_byte(byte, i as u64);
    word_laws::lemma_turning_moves_bits(touched, 13);
    assert((i + 1) % 4 == if lane == 3 {
        0
    } else {
        lane + 1
    });
    word_laws::lemma_wrapping_is_modular(word_laws::turned(touched, 13), next);
}

/// One more byte has been absorbed.
proof fn lemma_absorbed(bytes: Seq<u8>, lanes: Seq<Seq<u64>>, count: nat)
    requires
        absorbs(bytes, lanes),
        count <= bytes.len() <= u64::MAX,
    ensures
        adapters::absorbed(bytes, count) == lanes[count as int],
        lanes[count as int].len() == 4,
    decreases count,
{
    if count > 0 {
        let i: int = count - 1;
        lemma_absorbed(bytes, lanes, i as nat);
        assert(absorbs_one(bytes, lanes, i));
        lemma_absorb_step(lanes[i], lanes[i + 1], bytes, lanes, i);
    }
}

#[verifier::rlimit(50)]
proof fn lemma_absorb_step(
    before: Seq<u64>,
    after: Seq<u64>,
    bytes: Seq<u8>,
    lanes: Seq<Seq<u64>>,
    i: int,
)
    requires
        0 <= i < bytes.len() <= u64::MAX,
        before == lanes[i],
        after == lanes[i + 1],
        before.len() == 4,
        absorbs_one(bytes, lanes, i),
    ensures
        adapters::absorb(before, i as nat, bytes[i]) == after,
{
    let made: Seq<u64> = adapters::absorb(before, i as nat, bytes[i]);
    let lane: int = i % 4;
    lemma_lane_absorbs(before, i, bytes[i]);
    word_laws::lemma_mixing_reaches(after[lane]);
    assert(made[lane] == after[lane]);
    assert forall|j: int| 0 <= j < 4 implies made[j] == after[j] by {
        if j != lane {
            assert(after[j] == before[j]);
        }
    }
    assert(made =~= after);
}

/// The words of the toy hash.
proof fn lemma_toy_words(bytes: Seq<u8>, lanes: Seq<u64>)
    requires
        lanes == adapters::crossed(
            adapters::absorbed(bytes, bytes.len()),
            bytes.len() as u64,
        ),
    ensures
        ({
            let made: Seq<u8> = adapters::spec_toy_digest(bytes)@;
            &&& word_laws::number_at(made, 0) == bits::spec_mix64(lanes[0])
            &&& word_laws::number_at(made, 8) == bits::spec_mix64(lanes[1])
            &&& word_laws::number_at(made, 16) == bits::spec_mix64(lanes[2])
            &&& word_laws::number_at(made, 24) == bits::spec_mix64(lanes[3])
        }),
{
    let made: Seq<u8> = adapters::toy_bytes(bytes);
    Digest::lemma_of(made);
    assert forall|k: int| 0 <= k < 4 implies word_laws::number_at(made, 8 * k)
        == #[trigger] bits::spec_mix64(lanes[k]) by {
        let mixed: u64 = bits::spec_mix64(lanes[k]);
        let part: Seq<u8> = made.subrange(8 * k, 8 * k + 8);
        assert forall|j: int| 0 <= j < 8 implies #[trigger] part[j] == bits::le_bytes(
            mixed,
        )[j] by {
            assert((8 * k + j) / 8 == k && (8 * k + j) % 8 == j);
        }
        assert(part =~= bits::le_bytes(mixed));
        word_laws::lemma_bytes_add_up(mixed, made, 8 * k);
    }
    assert(word_laws::number_at(made, 8 * 0int) == bits::spec_mix64(lanes[0]));
    assert(word_laws::number_at(made, 8 * 1int) == bits::spec_mix64(lanes[1]));
    assert(word_laws::number_at(made, 8 * 2int) == bits::spec_mix64(lanes[2]));
    assert(word_laws::number_at(made, 8 * 3int) == bits::spec_mix64(lanes[3]));
}

/// A word that is mixed undoes to the lane it was mixed from.
proof fn lemma_lane_undone(number: int, lane: u64)
    requires
        number == bits::spec_mix64(lane),
    ensures
        word_laws::unmixed(word_laws::word(number)) == lane,
{
    word_laws::lemma_mixing_is_undone(lane);
    vstd::arithmetic::div_mod::lemma_small_mod(
        number as nat,
        word_laws::word_range() as nat,
    );
}

/// How lanes are crossed.
proof fn lemma_crossed_lanes(lanes: Seq<u64>, length: u64)
    ensures
        ({
            let made: Seq<u64> = adapters::crossed(lanes, length);
            &&& made[0] == lanes[0] ^ length
            &&& made[1] == lanes[1] ^ word_laws::turned(length, 17)
            &&& made[2] == lanes[2] ^ word_laws::word(made[0] + made[1])
            &&& made[3] == lanes[3] ^ word_laws::turned(made[2], 57)
        }),
{
    let made: Seq<u64> = adapters::crossed(lanes, length);
    word_laws::lemma_turning_moves_bits(length, 17);
    word_laws::lemma_turning_moves_bits(made[2], 57);
    word_laws::lemma_wrapping_is_modular(made[0], made[1]);
}

/// The toy hash of any bytes crosses the lanes that have absorbed all of them, one by one.
#[verifier::rlimit(50)]
pub proof fn lemma_toy_hash_absorbs_every_byte(bytes: Seq<u8>, lanes: Seq<Seq<u64>>)
    requires
        absorbs(bytes, lanes),
        bytes.len() <= u64::MAX,
    ensures
        crosses(lanes.last(), bytes.len() as int, ToyHash.spec_digest(bytes)),
{
    let last: Seq<u64> = lanes.last();
    let length: u64 = bytes.len() as u64;
    let made: Seq<u8> = adapters::spec_toy_digest(bytes)@;
    let crossed: Seq<u64> = adapters::crossed(last, length);
    assert(adapters::absorbed(bytes, bytes.len()) == last) by {
        lemma_absorbed(bytes, lanes, bytes.len());
    }
    lemma_crossed_lanes(last, length);
    lemma_toy_words(bytes, crossed);
    lemma_lane_undone(word_laws::number_at(made, 0), crossed[0]);
    lemma_lane_undone(word_laws::number_at(made, 8), crossed[1]);
    lemma_lane_undone(word_laws::number_at(made, 16), crossed[2]);
    lemma_lane_undone(word_laws::number_at(made, 24), crossed[3]);
}

/// The lanes that absorb the first bytes.
spec fn lanes_for(bytes: Seq<u8>, count: nat) -> Seq<Seq<u64>> {
    Seq::new(count + 1, |i: int| adapters::absorbed(bytes, i as nat))
}

proof fn lemma_four_lanes(bytes: Seq<u8>, count: nat)
    ensures
        adapters::absorbed(bytes, count).len() == 4,
    decreases count,
{
    if count > 0 {
        lemma_four_lanes(bytes, (count - 1) as nat);
    }
}

/// All bytes can be absorbed.
#[verifier::rlimit(50)]
pub proof fn lemma_bytes_can_be_absorbed(bytes: Seq<u8>) -> (lanes: Seq<Seq<u64>>)
    requires
        bytes.len() <= u64::MAX,
    ensures
        absorbs(bytes, lanes),
{
    let lanes: Seq<Seq<u64>> = lanes_for(bytes, bytes.len());
    assert(lanes[0] =~= seq![
        0x243f_6a88_85a3_08d3u64,
        0x1319_8a2e_0370_7344u64,
        0xa409_3822_299f_31d0u64,
        0x082e_fa98_ec4e_6c89u64,
    ]);
    assert forall|i: int| 0 <= i < bytes.len() implies #[trigger] absorbs_one(bytes, lanes, i) by {
        let before: Seq<u64> = lanes[i];
        let after: Seq<u64> = lanes[i + 1];
        let lane: int = i % 4;
        lemma_four_lanes(bytes, i as nat);
        lemma_four_lanes(bytes, (i + 1) as nat);
        assert(after == adapters::absorb(before, i as nat, bytes[i]));
        lemma_lane_absorbs(before, i, bytes[i]);
        word_laws::lemma_mixing_is_undone(
            word_laws::word(
                word_laws::turned(before[lane] ^ word_laws::word(bytes[i] + 0x100 * i), 13)
                    + before[(i + 1) % 4],
            ),
        );
    }
    lanes
}

/// Bytes that tell root, entropy and nonce of one draw.
pub open spec fn tells_draw(bytes: Seq<u8>, trace_root: Digest, entropy: u64, nonce: u64) -> bool {
    &&& bytes.len() == 67
    &&& layout_laws::begins_with(bytes, "chesscoin.sample.v1"@)
    &&& bytes.subrange(19, 51) == trace_root@
    &&& word_laws::number_at(bytes, 51) == entropy
    &&& word_laws::number_at(bytes, 59) == nonce
}

/// For every length of a trace: a nonce draws the index below that length that is congruent, modulo
/// that length, to the first word of the hash of root, entropy and nonce.
pub proof fn lemma_draw_is_congruent(
    trace_len: usize,
    trace_root: Digest,
    entropy: u64,
    nonce: u64,
    bytes: Seq<u8>,
)
    requires
        trace_len > 0,
        tells_draw(bytes, trace_root, entropy, nonce),
    ensures
        ({
            let drawn: usize = adapters::pick(trace_len, trace_root, entropy, nonce);
            let hashed: int = word_laws::number_at(ToyHash.spec_digest(bytes)@, 0);
            &&& drawn < trace_len
            &&& 0 <= hashed < word_laws::word_range()
            &&& (hashed as usize - drawn) % trace_len as int == 0
        }),
{
    broadcast use digest::lemma_digest_len;

    reveal_strlit("chesscoin.sample.v1");
    layout_laws::lemma_tag(bytes, "chesscoin.sample.v1"@);
    layout_laws::lemma_bytes_part(bytes, 19, trace_root@);
    layout_laws::lemma_word_part(bytes, 51, entropy);
    layout_laws::lemma_word_part(bytes, 59, nonce);
    assert(bytes.subrange(0, 67) =~= bytes);
    assert(adapters::pick_bytes(trace_root, entropy, nonce) == bytes);
    let made: Seq<u8> = adapters::toy_bytes(bytes);
    Digest::lemma_of(made);
    word_laws::lemma_read_adds_up(made, 0);
    let hashed: usize = word_laws::number_at(made, 0) as usize;
    let length: int = trace_len as int;
    let drawn: int = hashed as int % length;
    vstd::arithmetic::div_mod::lemma_fundamental_div_mod(hashed as int, length);
    vstd::arithmetic::div_mod::lemma_mod_multiples_basic(hashed as int / length, length);
    assert((hashed as int / length) * length == hashed - drawn) by (nonlinear_arith)
        requires
            hashed as int == length * (hashed as int / length) + drawn,
    ;
}

/// There are bytes that tell a given draw.
pub proof fn lemma_draw_can_be_told(trace_root: Digest, entropy: u64, nonce: u64) -> (bytes: Seq<
    u8,
>)
    ensures
        tells_draw(bytes, trace_root, entropy, nonce),
{
    broadcast use digest::lemma_digest_len;

    let bytes: Seq<u8> = adapters::pick_bytes(trace_root, entropy, nonce);
    reveal_strlit("chesscoin.sample.v1");
    vstd::utf8::is_ascii_chars_encode_utf8("chesscoin.sample.v1"@);
    assert(bytes.subrange(0, 19) =~= vstd::utf8::encode_utf8("chesscoin.sample.v1"@));
    layout_laws::lemma_spells_tag(bytes, "chesscoin.sample.v1"@);
    assert(bytes.subrange(19, 51) =~= trace_root@);
    assert(bytes.subrange(51, 59) =~= bits::le_bytes(entropy));
    layout_laws::lemma_word_reads_back(bytes, 51, entropy);
    assert(bytes.subrange(59, 67) =~= bits::le_bytes(nonce));
    layout_laws::lemma_word_reads_back(bytes, 59, nonce);
    bytes
}

/// What the nonces draw.
pub open spec fn draws(trace_len: usize, trace_root: Digest, entropy: u64) -> spec_fn(
    nat,
) -> usize {
    |nonce: nat| adapters::pick(trace_len, trace_root, entropy, nonce as u64)
}

/// What the first draws give.
pub open spec fn drawn_before(draw: spec_fn(nat) -> usize, tries: nat) -> Set<usize>
    decreases tries,
{
    if tries == 0 {
        Set::empty()
    } else {
        drawn_before(draw, (tries - 1) as nat).insert(draw((tries - 1) as nat))
    }
}

/// The index is drawn by a nonce before which fewer than `sample_count` indices had been drawn.
pub open spec fn is_drawn_early(
    draw: spec_fn(nat) -> usize,
    sample_count: usize,
    tries: nat,
    index: usize,
) -> bool {
    exists|nonce: nat|
        nonce < tries && draw(nonce) == index && (#[trigger] drawn_before(draw, nonce)).len()
            < sample_count
}

proof fn lemma_drawn_is_finite(draw: spec_fn(nat) -> usize, tries: nat)
    ensures
        drawn_before(draw, tries).finite(),
    decreases tries,
{
    if tries > 0 {
        lemma_drawn_is_finite(draw, (tries - 1) as nat);
    }
}

/// The distinct indices among the first draws, up to `sample_count` of them.
spec fn firsts(draw: spec_fn(nat) -> usize, sample_count: usize, tries: nat) -> Seq<usize>
    decreases tries,
{
    if tries == 0 {
        Seq::empty()
    } else {
        with_draw(
            firsts(draw, sample_count, (tries - 1) as nat),
            draw((tries - 1) as nat),
            sample_count,
        )
    }
}

/// One more draw.
spec fn with_draw(earlier: Seq<usize>, candidate: usize, sample_count: usize) -> Seq<usize> {
    if earlier.len() >= sample_count || earlier.contains(candidate) {
        earlier
    } else {
        earlier.push(candidate)
    }
}

proof fn lemma_picks_are_firsts(
    trace_len: usize,
    sample_count: usize,
    trace_root: Digest,
    entropy: u64,
    tries: nat,
)
    ensures
        adapters::picks(trace_len, sample_count, trace_root, entropy, tries) == firsts(
            draws(trace_len, trace_root, entropy),
            sample_count,
            tries,
        ),
    decreases tries,
{
    if tries > 0 {
        lemma_picks_are_firsts(trace_len, sample_count, trace_root, entropy, (tries - 1) as nat);
    }
}

/// The first draws are what was drawn early, and all that was drawn while there are too few.
#[verifier::rlimit(50)]
proof fn lemma_firsts_are_early(draw: spec_fn(nat) -> usize, sample_count: usize, tries: nat)
    ensures
        ({
            let picked: Seq<usize> = firsts(draw, sample_count, tries);
            let drawn: Set<usize> = drawn_before(draw, tries);
            &&& picked.no_duplicates()
            &&& picked.len() < sample_count ==> picked.to_set() == drawn && drawn.len()
                == picked.len()
            &&& picked.len() >= sample_count ==> drawn.len() >= sample_count
            &&& forall|index: usize| #[trigger]
                picked.contains(index) <==> is_drawn_early(draw, sample_count, tries, index)
        }),
    decreases tries,
{
    let picked: Seq<usize> = firsts(draw, sample_count, tries);
    if tries == 0 {
        assert(picked.to_set() =~= drawn_before(draw, tries));
    } else {
        let last: nat = (tries - 1) as nat;
        let earlier: Seq<usize> = firsts(draw, sample_count, last);
        let before: Set<usize> = drawn_before(draw, last);
        lemma_firsts_are_early(draw, sample_count, last);
        lemma_drawn_is_finite(draw, last);
        lemma_one_more_pick(earlier, before, draw(last), sample_count);
        assert forall|index: usize| #[trigger] picked.contains(index) <==> is_drawn_early(
            draw,
            sample_count,
            tries,
            index,
        ) by {
            assert(earlier.contains(index) <==> is_drawn_early(draw, sample_count, last, index));
            assert(picked.contains(index) <==> earlier.contains(index) || (index == draw(last)
                && earlier.len() < sample_count));
            assert(earlier.len() < sample_count <==> before.len() < sample_count);
            lemma_early_step(draw, sample_count, last, index);
        }
    }
}

/// What is drawn early with one more draw.
proof fn lemma_early_step(
    draw: spec_fn(nat) -> usize,
    sample_count: usize,
    last: nat,
    index: usize,
)
    ensures
        is_drawn_early(draw, sample_count, last + 1, index) <==> is_drawn_early(
            draw,
            sample_count,
            last,
            index,
        ) || (index == draw(last) && drawn_before(draw, last).len() < sample_count),
{
    if is_drawn_early(draw, sample_count, last, index) {
        let nonce: nat = choose|nonce: nat|
            nonce < last && draw(nonce) == index && (#[trigger] drawn_before(draw, nonce)).len()
                < sample_count;
        assert(nonce < last + 1);
    }
    if is_drawn_early(draw, sample_count, last + 1, index) {
        let nonce: nat = choose|nonce: nat|
            nonce < last + 1 && draw(nonce) == index && (#[trigger] drawn_before(
                draw,
                nonce,
            )).len() < sample_count;
        if nonce < last {
            assert(is_drawn_early(draw, sample_count, last, index));
        }
    }
}

/// What one more draw changes.
proof fn lemma_one_more_pick(
    earlier: Seq<usize>,
    before: Set<usize>,
    candidate: usize,
    sample_count: usize,
)
    requires
        earlier.no_duplicates(),
        before.finite(),
        earlier.len() < sample_count ==> earlier.to_set() == before && before.len()
            == earlier.len(),
        earlier.len() >= sample_count ==> before.len() >= sample_count,
    ensures
        ({
            let now: Seq<usize> = with_draw(earlier, candidate, sample_count);
            let drawn: Set<usize> = before.insert(candidate);
            &&& now.no_duplicates()
            &&& now.len() < sample_count ==> now.to_set() == drawn && drawn.len() == now.len()
            &&& now.len() >= sample_count ==> drawn.len() >= sample_count
            &&& forall|index: usize| #[trigger]
                now.contains(index) <==> earlier.contains(index) || (index == candidate
                    && earlier.len() < sample_count)
        }),
{
    let now: Seq<usize> = with_draw(earlier, candidate, sample_count);
    let drawn: Set<usize> = before.insert(candidate);
    assert forall|index: usize| #[trigger]
        now.contains(index) <==> earlier.contains(index) || (index == candidate && earlier.len()
            < sample_count) by {
        if earlier.contains(index) {
            let k: int = choose|k: int| 0 <= k < earlier.len() && earlier[k] == index;
            assert(now[k] == index);
        }
        if now.len() > earlier.len() {
            assert(now[earlier.len() as int] == candidate);
        }
        if now.contains(index) {
            let k: int = choose|k: int| 0 <= k < now.len() && now[k] == index;
            if k < earlier.len() {
                assert(earlier[k] == index);
            }
        }
    }
    if earlier.len() < sample_count {
        assert(before.contains(candidate) == earlier.contains(candidate));
        assert(now.to_set() =~= drawn);
        if now.len() > earlier.len() {
            assert forall|i: int, j: int| 0 <= i < j < now.len() implies now[i] != now[j] by {
                if j == earlier.len() {
                    assert(earlier.contains(earlier[i]));
                }
            }
        }
    }
}

/// A sample of fewer indices than there are steps holds, in increasing order, exactly the indices
/// drawn by nonces before which fewer than that many had been drawn: the first distinct ones.
pub proof fn lemma_sample_is_drawn_first(
    trace_len: usize,
    sample_count: usize,
    trace_root: Digest,
    entropy: u64,
)
    requires
        sample_count < trace_len,
    ensures
        ({
            let sample: Seq<usize> = DeterministicSampler.spec_sample_indices(
                trace_len,
                sample_count,
                trace_root,
                entropy,
            );
            &&& forall|i: int, j: int| 0 <= i < j < sample.len() ==> sample[i] < sample[j]
            &&& forall|index: usize| #[trigger]
                sample.contains(index) <==> is_drawn_early(
                    draws(trace_len, trace_root, entropy),
                    sample_count,
                    0x1_0000_0000_0000_0000,
                    index,
                )
        }),
{
    let sample: Seq<usize> = adapters::sampled(trace_len, sample_count, trace_root, entropy);
    let all: nat = 0x1_0000_0000_0000_0000;
    let chosen: Seq<usize> = adapters::picks(trace_len, sample_count, trace_root, entropy, all);
    adapters::lemma_sample_is_sound(trace_len, sample_count, trace_root, entropy);
    adapters::lemma_members_below(chosen, trace_len as nat);
    adapters::lemma_picks_distinct(trace_len, sample_count, trace_root, entropy, all);
    lemma_picks_are_firsts(trace_len, sample_count, trace_root, entropy, all);
    lemma_firsts_are_early(draws(trace_len, trace_root, entropy), sample_count, all);
}

/// A sample of at least as many indices as there are steps holds every step.
pub proof fn lemma_large_sample_is_everything(
    trace_len: usize,
    sample_count: usize,
    trace_root: Digest,
    entropy: u64,
)
    requires
        sample_count >= trace_len,
    ensures
        ({
            let sample: Seq<usize> = DeterministicSampler.spec_sample_indices(
                trace_len,
                sample_count,
                trace_root,
                entropy,
            );
            &&& sample.len() == trace_len
            &&& forall|i: int| 0 <= i < trace_len ==> #[trigger] sample[i] == i
        }),
{
}

/// Asking for more indices keeps those that fewer give.
pub proof fn lemma_larger_sample_holds_smaller(
    trace_len: usize,
    fewer: usize,
    more: usize,
    trace_root: Digest,
    entropy: u64,
    index: usize,
)
    requires
        fewer <= more,
        DeterministicSampler.spec_sample_indices(trace_len, fewer, trace_root, entropy).contains(
            index,
        ),
    ensures
        DeterministicSampler.spec_sample_indices(trace_len, more, trace_root, entropy).contains(
            index,
        ),
{
    adapters::lemma_sample_is_sound(trace_len, fewer, trace_root, entropy);
    if more < trace_len {
        lemma_sample_is_drawn_first(trace_len, fewer, trace_root, entropy);
        lemma_sample_is_drawn_first(trace_len, more, trace_root, entropy);
        let all: nat = 0x1_0000_0000_0000_0000;
        let draw: spec_fn(nat) -> usize = draws(trace_len, trace_root, entropy);
        assert(is_drawn_early(draw, fewer, all, index));
        let nonce: nat = choose|nonce: nat|
            nonce < all && draw(nonce) == index && (#[trigger] drawn_before(draw, nonce)).len()
                < fewer;
        assert(drawn_before(draw, nonce).len() < more);
        assert(is_drawn_early(draw, more, all, index));
    } else {
        let sample: Seq<usize> = DeterministicSampler.spec_sample_indices(
            trace_len,
            more,
            trace_root,
            entropy,
        );
        assert(sample[index as int] == index);
    }
}

} // verus!
