//! The research adapters: a toy 256-bit hash and a deterministic sampler.

use vstd::prelude::*;

use crate::bits;
use crate::domain::digest;
use crate::domain::Digest;
use crate::ports::{HashPort, SamplingPort};

verus! {

pub const LANE_0: u64 = 0x243f_6a88_85a3_08d3;

pub const LANE_1: u64 = 0x1319_8a2e_0370_7344;

pub const LANE_2: u64 = 0xa409_3822_299f_31d0;

pub const LANE_3: u64 = 0x082e_fa98_ec4e_6c89;

/// A toy hash for local research; it makes no security claim.
#[derive(Clone, Copy, Debug, Default)]
pub struct ToyHash;

/// The four lanes after one more byte, at position `index`, has been absorbed.
pub open spec fn absorb(lanes: Seq<u64>, index: nat, byte: u8) -> Seq<u64> {
    let lane: int = index as int % 4;
    let touched: u64 = lanes[lane] ^ (byte as u64).wrapping_add((index as u64) << 8);
    let next: u64 = if lane == 3 {
        lanes[0]
    } else {
        lanes[lane + 1]
    };
    lanes.update(
        lane,
        bits::spec_mix64(bits::spec_rotate_left(touched, 13).wrapping_add(next)),
    )
}

/// The four lanes after the first `count` bytes.
pub open spec fn absorbed(bytes: Seq<u8>, count: nat) -> Seq<u64>
    decreases count,
{
    if count == 0 {
        seq![LANE_0, LANE_1, LANE_2, LANE_3]
    } else {
        absorb(absorbed(bytes, (count - 1) as nat), (count - 1) as nat, bytes[count - 1])
    }
}

/// The four lanes after the length has been folded in and the lanes have been crossed.
pub open spec fn crossed(lanes: Seq<u64>, length: u64) -> Seq<u64> {
    let first: u64 = lanes[0] ^ length;
    let second: u64 = lanes[1] ^ bits::spec_rotate_left(length, 17);
    let third: u64 = lanes[2] ^ first.wrapping_add(second);
    let fourth: u64 = lanes[3] ^ bits::spec_rotate_left(third, 57);
    seq![first, second, third, fourth]
}

/// The 32 bytes of the toy hash of `bytes`.
pub open spec fn toy_bytes(bytes: Seq<u8>) -> Seq<u8> {
    let lanes: Seq<u64> = crossed(absorbed(bytes, bytes.len()), bytes.len() as u64);
    Seq::new(32, |i: int| bits::byte_at(bits::spec_mix64(lanes[i / 8]), i % 8))
}

/// The toy hash of `bytes`.
pub open spec fn spec_toy_digest(bytes: Seq<u8>) -> Digest {
    Digest::of(toy_bytes(bytes))
}

impl HashPort for ToyHash {
    open spec fn spec_digest(&self, bytes: Seq<u8>) -> Digest {
        spec_toy_digest(bytes)
    }

    fn digest(&self, bytes: &[u8]) -> (digest: Digest) {
        toy_digest(bytes)
    }
}

fn toy_digest(bytes: &[u8]) -> (result: Digest)
    ensures
        result == spec_toy_digest(bytes@),
        result@ == toy_bytes(bytes@),
{
    let mut lanes: [u64; 4] = [LANE_0, LANE_1, LANE_2, LANE_3];
    let mut index: usize = 0;
    assert(lanes@ =~= absorbed(bytes@, 0));
    while index < bytes.len()
        invariant
            index <= bytes@.len(),
            lanes@ == absorbed(bytes@, index as nat),
        decreases bytes@.len() - index,
    {
        let lane: usize = index % 4;
        let touched: u64 = lanes[lane] ^ (bytes[index] as u64).wrapping_add((index as u64) << 8);
        let next: u64 = if lane == 3 {
            lanes[0]
        } else {
            lanes[lane + 1]
        };
        lanes[lane] = bits::mix64(bits::rotate_left(touched, 13).wrapping_add(next));
        index += 1;
    }
    let length: u64 = bytes.len() as u64;
    let first: u64 = lanes[0] ^ length;
    let second: u64 = lanes[1] ^ bits::rotate_left(length, 17);
    let third: u64 = lanes[2] ^ first.wrapping_add(second);
    let fourth: u64 = lanes[3] ^ bits::rotate_left(third, 57);

    let mut out: Vec<u8> = Vec::with_capacity(32);
    bits::push_le_bytes(&mut out, bits::mix64(first));
    bits::push_le_bytes(&mut out, bits::mix64(second));
    bits::push_le_bytes(&mut out, bits::mix64(third));
    bits::push_le_bytes(&mut out, bits::mix64(fourth));
    assert(out@ =~= toy_bytes(bytes@));
    let mut block: [u8; 32] = [0;32];
    let mut at: usize = 0;
    while at < 32
        invariant
            at <= 32,
            out@.len() == 32,
            forall|j: int| 0 <= j < at ==> block@[j] == out@[j],
        decreases 32 - at,
    {
        block[at] = out[at];
        at += 1;
    }
    let result: Digest = Digest::from_bytes(block);
    proof {
        assert(result@ =~= toy_bytes(bytes@));
        Digest::lemma_of(toy_bytes(bytes@));
        digest::lemma_digest_ext(result, spec_toy_digest(bytes@));
    }
    result
}

/// Picks distinct trace indices from hashes of root, entropy and a running nonce.
#[derive(Clone, Copy, Debug, Default)]
pub struct DeterministicSampler;

/// The bytes hashed for one pick.
pub open spec fn pick_bytes(trace_root: Digest, entropy: u64, nonce: u64) -> Seq<u8> {
    vstd::utf8::encode_utf8("chesscoin.sample.v1"@) + trace_root@ + bits::le_bytes(entropy)
        + bits::le_bytes(nonce)
}

/// The index that one nonce points at.
pub open spec fn pick(trace_len: usize, trace_root: Digest, entropy: u64, nonce: u64) -> usize {
    ((bits::spec_read_le(toy_bytes(pick_bytes(trace_root, entropy, nonce)), 0) as usize)
        % trace_len) as usize
}

/// The distinct indices that the first `tries` nonces point at, in the order in which they come
/// up, up to `sample_count` of them.
pub open spec fn picks(
    trace_len: usize,
    sample_count: usize,
    trace_root: Digest,
    entropy: u64,
    tries: nat,
) -> Seq<usize>
    decreases tries,
{
    if tries == 0 {
        Seq::empty()
    } else {
        let earlier: Seq<usize> = picks(
            trace_len,
            sample_count,
            trace_root,
            entropy,
            (tries - 1) as nat,
        );
        let candidate: usize = pick(trace_len, trace_root, entropy, (tries - 1) as u64);
        if earlier.len() >= sample_count || earlier.contains(candidate) {
            earlier
        } else {
            earlier.push(candidate)
        }
    }
}

/// Every nonce once.
pub open spec fn all_nonces() -> nat {
    0x1_0000_0000_0000_0000
}

/// The members of `chosen` below `bound`, in increasing order.
pub open spec fn members_below(chosen: Seq<usize>, bound: nat) -> Seq<usize>
    decreases bound,
{
    if bound == 0 {
        Seq::empty()
    } else {
        let smaller: Seq<usize> = members_below(chosen, (bound - 1) as nat);
        if chosen.contains((bound - 1) as usize) {
            smaller.push((bound - 1) as usize)
        } else {
            smaller
        }
    }
}

/// The sampled indices in increasing order: all of them where as many are asked for as there are,
/// else the first distinct ones that the nonces point at.
pub open spec fn sampled(
    trace_len: usize,
    sample_count: usize,
    trace_root: Digest,
    entropy: u64,
) -> Seq<usize> {
    if sample_count >= trace_len {
        Seq::new(trace_len as nat, |i: int| i as usize)
    } else {
        members_below(
            picks(trace_len, sample_count, trace_root, entropy, all_nonces()),
            trace_len as nat,
        )
    }
}

pub open spec fn strictly_increasing(indices: Seq<usize>) -> bool {
    forall|i: int, j: int| 0 <= i < j < indices.len() ==> indices[i] < indices[j]
}

impl SamplingPort for DeterministicSampler {
    open spec fn spec_sample_indices(
        &self,
        trace_len: usize,
        sample_count: usize,
        trace_root: Digest,
        entropy: u64,
    ) -> Seq<usize> {
        sampled(trace_len, sample_count, trace_root, entropy)
    }

    fn sample_indices(
        &self,
        trace_len: usize,
        sample_count: usize,
        trace_root: Digest,
        entropy: u64,
    ) -> (indices: Vec<usize>) {
        if sample_count >= trace_len {
            return all_indices(trace_len);
        }
        let mut selected: Vec<usize> = Vec::new();
        let mut nonce: u64 = 0;
        let ghost mut tries: nat = 0;
        while selected.len() < sample_count
            invariant_except_break
                tries == nonce,
            invariant
                sample_count < trace_len,
                strictly_increasing(selected@),
                same_members(
                    selected@,
                    picks(trace_len, sample_count, trace_root, entropy, tries),
                ),
                tries <= all_nonces(),
            ensures
                selected@.len() >= sample_count || tries == all_nonces(),
            decreases u64::MAX - nonce,
        {
            let index: usize = pick_index(trace_len, trace_root, entropy, nonce);
            let ghost before: Seq<usize> = selected@;
            insert_sorted(&mut selected, index);
            proof {
                lemma_pick_step(
                    trace_len,
                    sample_count,
                    trace_root,
                    entropy,
                    tries,
                    before,
                    selected@,
                );
                tries = tries + 1;
            }
            if nonce == u64::MAX {
                break ;
            }
            nonce += 1;
        }
        proof {
            lemma_selection(trace_len, sample_count, trace_root, entropy, tries, selected@);
        }
        selected
    }
}

/// The members below a bound come in increasing order, and none is left out.
pub proof fn lemma_members_below(chosen: Seq<usize>, bound: nat)
    requires
        bound <= usize::MAX + 1,
    ensures
        strictly_increasing(members_below(chosen, bound)),
        forall|x: usize| #[trigger]
            members_below(chosen, bound).contains(x) <==> (chosen.contains(x) && x < bound),
    decreases bound,
{
    let now: Seq<usize> = members_below(chosen, bound);
    if bound > 0 {
        let value: usize = (bound - 1) as usize;
        let smaller: Seq<usize> = members_below(chosen, (bound - 1) as nat);
        lemma_members_below(chosen, (bound - 1) as nat);
        assert forall|j: int| 0 <= j < smaller.len() implies smaller[j] < value by {
            assert(smaller.contains(smaller[j]));
        }
        assert forall|x: usize| #[trigger] now.contains(x) <==> (chosen.contains(x) && x
            < bound) by {
            if now.contains(x) {
                let k: int = choose|k: int| 0 <= k < now.len() && now[k] == x;
                if k < smaller.len() {
                    assert(smaller[k] == x);
                    assert(smaller.contains(x));
                }
            }
            if chosen.contains(x) && x < bound {
                if x == value {
                    assert(now[smaller.len() as int] == x);
                } else {
                    assert(smaller.contains(x));
                    let k: int = choose|k: int| 0 <= k < smaller.len() && smaller[k] == x;
                    assert(now[k] == x);
                }
            }
        }
    }
}

/// A sample is a strictly increasing list of trace indices. It has as many of them as were asked
/// for, or all there are, unless the nonces point at fewer distinct ones.
pub proof fn lemma_sample_is_sound(
    trace_len: usize,
    sample_count: usize,
    trace_root: Digest,
    entropy: u64,
)
    ensures
        ({
            let sample: Seq<usize> = sampled(trace_len, sample_count, trace_root, entropy);
            &&& strictly_increasing(sample)
            &&& forall|i: int| 0 <= i < sample.len() ==> #[trigger] sample[i] < trace_len
            &&& sample_count >= trace_len ==> sample.len() == trace_len
            &&& sample_count < trace_len ==> sample.len() == picks(
                trace_len,
                sample_count,
                trace_root,
                entropy,
                all_nonces(),
            ).len() <= sample_count
        }),
{
    let sample: Seq<usize> = sampled(trace_len, sample_count, trace_root, entropy);
    if sample_count < trace_len {
        let chosen: Seq<usize> = picks(trace_len, sample_count, trace_root, entropy, all_nonces());
        lemma_members_below(chosen, trace_len as nat);
        lemma_picks_distinct(trace_len, sample_count, trace_root, entropy, all_nonces());
        assert forall|i: int| 0 <= i < sample.len() implies #[trigger] sample[i] < trace_len by {
            assert(sample.contains(sample[i]));
        }
        assert(sample.no_duplicates());
        sample.unique_seq_to_set();
        chosen.unique_seq_to_set();
        assert(sample.to_set() =~= chosen.to_set());
    }
}

/// Two sequences of the same length with the same members.
pub open spec fn same_members(left: Seq<usize>, right: Seq<usize>) -> bool {
    &&& left.len() == right.len()
    &&& forall|x: usize| #[trigger] left.contains(x) <==> right.contains(x)
}

fn pick_index(trace_len: usize, trace_root: Digest, entropy: u64, nonce: u64) -> (index: usize)
    requires
        trace_len > 0,
    ensures
        index == pick(trace_len, trace_root, entropy, nonce),
{
    let mut bytes: Vec<u8> = Vec::with_capacity(48);
    bytes.extend_from_slice("chesscoin.sample.v1".as_bytes());
    assert(bytes@ =~= vstd::utf8::encode_utf8("chesscoin.sample.v1"@));
    trace_root.append_to(&mut bytes);
    bits::push_le_bytes(&mut bytes, entropy);
    bits::push_le_bytes(&mut bytes, nonce);
    let hash: Digest = toy_digest(bytes.as_slice());
    let candidate: u64 = bits::read_le(hash.as_bytes().as_slice(), 0);
    (#[verifier::truncate] (candidate as usize)) % trace_len
}

/// One more pick, added to a sequence with the members of the picks so far.
proof fn lemma_pick_step(
    trace_len: usize,
    sample_count: usize,
    trace_root: Digest,
    entropy: u64,
    tries: nat,
    before: Seq<usize>,
    after: Seq<usize>,
)
    requires
        same_members(before, picks(trace_len, sample_count, trace_root, entropy, tries)),
        before.len() < sample_count,
        ({
            let candidate: usize = pick(trace_len, trace_root, entropy, tries as u64);
            &&& before.contains(candidate) ==> after == before
            &&& !before.contains(candidate) ==> after.len() == before.len() + 1
            &&& forall|x: usize| #[trigger]
                after.contains(x) <==> (before.contains(x) || x == candidate)
        }),
    ensures
        same_members(after, picks(trace_len, sample_count, trace_root, entropy, tries + 1)),
{
    let candidate: usize = pick(trace_len, trace_root, entropy, tries as u64);
    let earlier: Seq<usize> = picks(trace_len, sample_count, trace_root, entropy, tries);
    let now: Seq<usize> = picks(trace_len, sample_count, trace_root, entropy, tries + 1);
    if !before.contains(candidate) {
        assert(now == earlier.push(candidate));
        assert forall|x: usize| #[trigger] after.contains(x) <==> now.contains(x) by {
            if earlier.contains(x) {
                let k: int = choose|k: int| 0 <= k < earlier.len() && earlier[k] == x;
                assert(now[k] == x);
            }
            if x == candidate {
                assert(now[earlier.len() as int] == x);
            }
            if now.contains(x) {
                let k: int = choose|k: int| 0 <= k < now.len() && now[k] == x;
                if k < earlier.len() {
                    assert(earlier[k] == x);
                }
            }
        }
    }
}

fn all_indices(count: usize) -> (indices: Vec<usize>)
    ensures
        indices@ == Seq::new(count as nat, |i: int| i as usize),
{
    let mut indices: Vec<usize> = Vec::with_capacity(count);
    let mut index: usize = 0;
    while index < count
        invariant
            index <= count,
            indices@ == Seq::new(index as nat, |i: int| i as usize),
        decreases count - index,
    {
        indices.push(index);
        index += 1;
        assert(indices@ =~= Seq::new(index as nat, |i: int| i as usize));
    }
    indices
}

/// Adds `value` at its place, unless it is there already.
fn insert_sorted(values: &mut Vec<usize>, value: usize)
    requires
        strictly_increasing(old(values)@),
    ensures
        strictly_increasing(final(values)@),
        old(values)@.contains(value) ==> final(values)@ == old(values)@,
        !old(values)@.contains(value) ==> final(values)@.len() == old(values)@.len() + 1,
        forall|x: usize| #[trigger]
            final(values)@.contains(x) <==> (old(values)@.contains(x) || x == value),
{
    let mut at: usize = 0;
    while at < values.len() && values[at] < value
        invariant
            at <= values@.len(),
            values@ == old(values)@,
            forall|j: int| 0 <= j < at ==> values@[j] < value,
        decreases values@.len() - at,
    {
        at += 1;
    }
    if at < values.len() && values[at] == value {
        assert(values@.contains(values@[at as int]));
        return ;
    }
    let ghost before: Seq<usize> = values@;
    assert(!before.contains(value)) by {
        if before.contains(value) {
            let k: int = choose|k: int| 0 <= k < before.len() && before[k] == value;
            assert(at < before.len());
            assert(before[at as int] <= before[k]);
        }
    }
    values.insert(at, value);
    assert(values@ == before.insert(at as int, value));
    assert forall|x: usize| #[trigger] values@.contains(x) <==> (before.contains(x) || x
        == value) by {
        if before.contains(x) {
            let k: int = choose|k: int| 0 <= k < before.len() && before[k] == x;
            if k < at {
                assert(values@[k] == x);
            } else {
                assert(values@[k + 1] == x);
            }
        }
        if x == value {
            assert(values@[at as int] == x);
        }
        if values@.contains(x) {
            let k: int = choose|k: int| 0 <= k < values@.len() && values@[k] == x;
            if k < at {
                assert(before[k] == x);
            } else if k > at {
                assert(before[k - 1] == x);
            }
        }
    }
}

/// Once enough indices have been picked, further nonces change nothing.
proof fn lemma_picks_stable(
    trace_len: usize,
    sample_count: usize,
    trace_root: Digest,
    entropy: u64,
    early: nat,
    late: nat,
)
    requires
        early <= late,
        picks(trace_len, sample_count, trace_root, entropy, early).len() >= sample_count,
    ensures
        picks(trace_len, sample_count, trace_root, entropy, late) == picks(
            trace_len,
            sample_count,
            trace_root,
            entropy,
            early,
        ),
    decreases late,
{
    if early < late {
        lemma_picks_stable(
            trace_len,
            sample_count,
            trace_root,
            entropy,
            early,
            (late - 1) as nat,
        );
    }
}

/// The picks are distinct indices of the trace, and no more than asked for.
pub proof fn lemma_picks_distinct(
    trace_len: usize,
    sample_count: usize,
    trace_root: Digest,
    entropy: u64,
    tries: nat,
)
    requires
        trace_len > 0,
    ensures
        picks(trace_len, sample_count, trace_root, entropy, tries).no_duplicates(),
        picks(trace_len, sample_count, trace_root, entropy, tries).len() <= sample_count,
        forall|x: usize| #[trigger]
            picks(trace_len, sample_count, trace_root, entropy, tries).contains(x) ==> x
                < trace_len,
    decreases tries,
{
    if tries > 0 {
        lemma_picks_distinct(trace_len, sample_count, trace_root, entropy, (tries - 1) as nat);
        let earlier: Seq<usize> = picks(
            trace_len,
            sample_count,
            trace_root,
            entropy,
            (tries - 1) as nat,
        );
        let candidate: usize = pick(trace_len, trace_root, entropy, (tries - 1) as u64);
        assert forall|x: usize| #[trigger]
            picks(trace_len, sample_count, trace_root, entropy, tries).contains(x) implies x
            < trace_len by {
            if x != candidate {
                let now: Seq<usize> = picks(trace_len, sample_count, trace_root, entropy, tries);
                let k: int = choose|k: int| 0 <= k < now.len() && now[k] == x;
                assert(earlier[k] == x);
                assert(earlier.contains(x));
            }
        }
    }
}

/// A sorted selection of the picks, made until there were enough or no nonce was left, is the
/// sample.
proof fn lemma_selection(
    trace_len: usize,
    sample_count: usize,
    trace_root: Digest,
    entropy: u64,
    tries: nat,
    selected: Seq<usize>,
)
    requires
        sample_count < trace_len,
        strictly_increasing(selected),
        same_members(selected, picks(trace_len, sample_count, trace_root, entropy, tries)),
        tries <= all_nonces(),
        selected.len() >= sample_count || tries == all_nonces(),
    ensures
        selected == sampled(trace_len, sample_count, trace_root, entropy),
{
    let now: Seq<usize> = picks(trace_len, sample_count, trace_root, entropy, tries);
    let chosen: Seq<usize> = picks(trace_len, sample_count, trace_root, entropy, all_nonces());
    if selected.len() >= sample_count {
        lemma_picks_stable(trace_len, sample_count, trace_root, entropy, tries, all_nonces());
    }
    assert(now == chosen);
    lemma_picks_distinct(trace_len, sample_count, trace_root, entropy, all_nonces());
    assert forall|j: int| 0 <= j < selected.len() implies selected[j] < trace_len by {
        assert(selected.contains(selected[j]));
    }
    lemma_sorted_members(selected, chosen, trace_len as nat);
}

/// The number of leading values below `bound`, in an increasing sequence.
proof fn lemma_prefix_members(sorted: Seq<usize>, chosen: Seq<usize>, bound: nat) -> (count: int)
    requires
        strictly_increasing(sorted),
        forall|x: usize| #[trigger] sorted.contains(x) <==> chosen.contains(x),
        bound <= usize::MAX + 1,
    ensures
        0 <= count <= sorted.len(),
        forall|j: int| 0 <= j < count ==> sorted[j] < bound,
        forall|j: int| count <= j < sorted.len() ==> sorted[j] >= bound,
        members_below(chosen, bound) == sorted.take(count),
    decreases bound,
{
    if bound == 0 {
        assert(sorted.take(0) =~= Seq::<usize>::empty());
        0
    } else {
        let smaller: int = lemma_prefix_members(sorted, chosen, (bound - 1) as nat);
        let value: usize = (bound - 1) as usize;
        if chosen.contains(value) {
            assert(sorted.contains(value));
            let k: int = choose|k: int| 0 <= k < sorted.len() && sorted[k] == value;
            assert(k >= smaller);
            assert(k == smaller) by {
                if k > smaller {
                    assert(sorted[smaller] < sorted[k]);
                }
            }
            assert(sorted.take(smaller + 1) =~= sorted.take(smaller).push(value));
            assert forall|j: int| smaller + 1 <= j < sorted.len() implies sorted[j] >= bound by {
                assert(sorted[smaller] < sorted[j]);
            }
            smaller + 1
        } else {
            assert forall|j: int| smaller <= j < sorted.len() implies sorted[j] >= bound by {
                assert(sorted.contains(sorted[j]));
            }
            smaller
        }
    }
}

/// An increasing sequence with the members of `chosen`, all below `bound`, lists them in order.
proof fn lemma_sorted_members(sorted: Seq<usize>, chosen: Seq<usize>, bound: nat)
    requires
        strictly_increasing(sorted),
        forall|x: usize| #[trigger] sorted.contains(x) <==> chosen.contains(x),
        forall|j: int| 0 <= j < sorted.len() ==> sorted[j] < bound,
        bound <= usize::MAX + 1,
    ensures
        members_below(chosen, bound) == sorted,
{
    let count: int = lemma_prefix_members(sorted, chosen, bound);
    if count < sorted.len() {
        assert(sorted[count] >= bound);
    }
    assert(sorted.take(count) =~= sorted);
}

} // verus!
