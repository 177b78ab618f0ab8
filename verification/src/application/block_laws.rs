//! What an accepted block and a mined block are, told from their parts.

use vstd::prelude::*;

use crate::application::mining;
use crate::application::trace;
use crate::application::trace_laws;
use crate::application::validation;
use crate::application::validation::{ChainConfig, ParentContext};
use crate::domain::block;
use crate::domain::block::{BlockView, TraceView};
use crate::domain::digest;
use crate::domain::layout_laws;
use crate::domain::{BlockHeader, ModelState, TraceEntry, TrainingStep};
use crate::ports::{HashPort, SamplingPort};

verus! {

/// The bit at a position, counted from the upper bit of the first byte, is zero.
pub open spec fn is_zero_bit(bytes: Seq<u8>, at: int) -> bool {
    (bytes[at / 8] >> ((7 - at % 8) as u8)) & 1u8 == 0u8
}

/// The first `count` bits of the bytes are zero.
pub open spec fn starts_with_zero_bits(bytes: Seq<u8>, count: int) -> bool {
    &&& count <= 8 * bytes.len()
    &&& forall|i: int| 0 <= i < count ==> #[trigger] is_zero_bit(bytes, i)
}

/// The hash of a header is the digest of the bytes that tell every field of it.
pub proof fn lemma_hash_covers_header<H: HashPort>(
    hasher: H,
    header: BlockHeader,
    bytes: Seq<u8>,
)
    requires
        layout_laws::tells_header(bytes, header),
    ensures
        validation::header_hash(hasher, header) == hasher.spec_digest(bytes),
{
    layout_laws::lemma_header_encoding_tells_header(bytes, header);
}

/// A run of zero bits has no one bit, and one follows it unless the bytes end there.
proof fn lemma_zero_run(bytes: Seq<u8>, from: nat)
    requires
        from <= 8 * bytes.len(),
    ensures
        from + digest::zero_run(bytes, from) <= 8 * bytes.len(),
        forall|i: int|
            from <= i < from + digest::zero_run(bytes, from) ==> !#[trigger] digest::bit_at(
                bytes,
                i,
            ),
        from + digest::zero_run(bytes, from) < 8 * bytes.len() ==> digest::bit_at(
            bytes,
            (from + digest::zero_run(bytes, from)) as int,
        ),
    decreases 8 * bytes.len() - from,
{
    if from < 8 * bytes.len() && !digest::bit_at(bytes, from as int) {
        lemma_zero_run(bytes, from + 1);
    }
}

/// Bytes start with so many zero bits exactly where so many are counted.
pub proof fn lemma_zero_bits_are_counted(bytes: Seq<u8>, count: int)
    requires
        0 <= count,
    ensures
        starts_with_zero_bits(bytes, count) <==> digest::leading_zeros(bytes) >= count,
{
    let run: nat = digest::leading_zeros(bytes);
    lemma_zero_run(bytes, 0);
    if run >= count {
        assert forall|i: int| 0 <= i < count implies #[trigger] is_zero_bit(bytes, i) by {
            assert(!digest::bit_at(bytes, i));
            let byte: u8 = bytes[i / 8];
            let shift: u8 = (7 - i % 8) as u8;
            assert((byte >> shift) & 1u8 == 0u8 || (byte >> shift) & 1u8 == 1u8) by (bit_vector);
        }
    } else if starts_with_zero_bits(bytes, count) {
        assert(digest::bit_at(bytes, run as int));
        assert(is_zero_bit(bytes, run as int));
    }
}

/// The work of a header is enough exactly where its hash starts with so many zero bits.
pub proof fn lemma_work_is_zero_bits<H: HashPort>(hasher: H, header: BlockHeader, difficulty: u32)
    ensures
        validation::work_of(hasher, header) >= difficulty <==> starts_with_zero_bits(
            validation::header_hash(hasher, header)@,
            difficulty as int,
        ),
{
    lemma_zero_bits_are_counted(validation::header_hash(hasher, header)@, difficulty as int);
}

/// Each entry follows the commitment before it, and its commitment is that of its step.
pub open spec fn is_committed<H: HashPort>(hasher: H, entries: Seq<TraceEntry>) -> bool {
    forall|i: int|
        #![trigger entries[i]]
        0 <= i < entries.len() ==> entries[i].previous_commitment
            == trace_laws::commitment_before(entries, i) && entries[i].commitment
            == trace::spec_commit(
            hasher,
            trace_laws::commitment_before(entries, i),
            entries[i].step,
        )
}

/// Each step starts from the model that the one before it left.
pub open spec fn is_connected(initial: ModelState, entries: Seq<TraceEntry>) -> bool {
    forall|i: int|
        #![trigger entries[i]]
        0 <= i < entries.len() ==> entries[i].step.state_before == trace_laws::model_before(
            initial,
            entries,
            i,
        )
}

/// The step at a sampled position is the honest one in every field.
pub open spec fn is_honest_at(seed: u64, entries: Seq<TraceEntry>, index: usize) -> bool {
    let step: TrainingStep = entries[index as int].step;
    &&& index < entries.len()
    &&& step.index as usize == index
    &&& trace_laws::same_step(
        step,
        TrainingStep::spec_deterministic(seed, step.index, step.state_before),
    )
}

/// The indices that the sampler draws for a block.
pub open spec fn drawn_for<S: SamplingPort>(sampler: S, block: BlockView) -> Seq<usize> {
    sampler.spec_sample_indices(
        block.trace.entries.len() as usize,
        block.header.sample_count,
        block.trace.root,
        block.header.sampling_entropy,
    )
}

/// Everything that an accepted block has to show, at every height and after every parent.
pub open spec fn is_acceptable<H: HashPort, S: SamplingPort>(
    config: ChainConfig,
    hasher: H,
    sampler: S,
    parent: ParentContext,
    block: BlockView,
) -> bool {
    let entries: Seq<TraceEntry> = block.trace.entries;
    let count: int = entries.len() as int;
    &&& block.header.height == parent.height
    &&& block.header.previous_block == parent.hash
    &&& block.header.model_before == parent.model
    &&& block.trace.initial_model == parent.model
    &&& block.trace.candidate_model == block.header.model_after
    &&& count == config.steps_per_block
    &&& block.header.sample_count == config.samples_per_block
    &&& block.trace.root == block.header.trace_root
    &&& block.trace.root == trace_laws::commitment_before(entries, count)
    &&& is_committed(hasher, entries)
    &&& is_connected(parent.model, entries)
    &&& block.header.model_after == trace_laws::model_before(parent.model, entries, count)
    &&& starts_with_zero_bits(
        validation::header_hash(hasher, block.header)@,
        config.difficulty_zero_bits as int,
    )
    &&& forall|i: int|
        0 <= i < drawn_for(sampler, block).len() ==> is_honest_at(
            block.header.training_seed,
            entries,
            #[trigger] drawn_for(sampler, block)[i],
        )
}

/// The model and the commitment behind the first entries of a run are those of the last of them.
pub proof fn lemma_ends(initial: ModelState, entries: Seq<TraceEntry>, at: int)
    requires
        0 <= at <= entries.len(),
    ensures
        trace::last_state(initial, entries.take(at)) == trace_laws::model_before(
            initial,
            entries,
            at,
        ),
        trace::last_commitment(entries.take(at)) == trace_laws::commitment_before(entries, at),
{
    if at > 0 {
        assert(entries.take(at).last() == entries[at - 1]);
    }
}

/// The commitments of a block hold exactly where each entry follows the one before it up to the
/// root.
pub proof fn lemma_commitments<H: HashPort>(hasher: H, block: BlockView)
    ensures
        validation::commitments_hold(hasher, block) <==> is_committed(hasher, block.trace.entries)
            && block.trace.root == trace_laws::commitment_before(
            block.trace.entries,
            block.trace.entries.len() as int,
        ),
{
    let entries: Seq<TraceEntry> = block.trace.entries;
    lemma_ends(block.trace.initial_model, entries, entries.len() as int);
    assert(entries.take(entries.len() as int) =~= entries);
    if validation::commitments_hold(hasher, block) {
        assert forall|i: int|
            #![trigger entries[i]]
            0 <= i < entries.len() implies entries[i].previous_commitment
            == trace_laws::commitment_before(entries, i) && entries[i].commitment
            == trace::spec_commit(
            hasher,
            trace_laws::commitment_before(entries, i),
            entries[i].step,
        ) by {
            lemma_ends(block.trace.initial_model, entries, i);
            assert(trace::entry_is_bound(hasher, entries, i));
        }
    }
    if is_committed(hasher, entries) {
        assert forall|i: int| 0 <= i < entries.len() implies #[trigger] trace::entry_is_bound(
            hasher,
            entries,
            i,
        ) by {
            lemma_ends(block.trace.initial_model, entries, i);
            assert(entries[i].previous_commitment == trace_laws::commitment_before(entries, i));
        }
    }
}

/// The steps of a run connect exactly where each starts from what the one before it left.
pub proof fn lemma_connections(initial: ModelState, entries: Seq<TraceEntry>)
    ensures
        is_connected(initial, entries) <==> (forall|i: int|
            0 <= i < entries.len() ==> #[trigger] trace::entry_continues(initial, entries, i)),
{
    assert forall|i: int| 0 <= i < entries.len() implies trace::entry_continues(
        initial,
        entries,
        i,
    ) == (#[trigger] entries[i].step.state_before == trace_laws::model_before(
        initial,
        entries,
        i,
    )) by {
        lemma_ends(initial, entries, i);
    }
    if is_connected(initial, entries) {
        assert forall|i: int| 0 <= i < entries.len() implies #[trigger] trace::entry_continues(
            initial,
            entries,
            i,
        ) by {
            assert(entries[i].step.state_before == trace_laws::model_before(initial, entries, i));
        }
    }
    if forall|i: int|
        0 <= i < entries.len() ==> #[trigger] trace::entry_continues(initial, entries, i) {
        assert forall|i: int|
            #![trigger entries[i]]
            0 <= i < entries.len() implies entries[i].step.state_before
            == trace_laws::model_before(initial, entries, i) by {
            assert(trace::entry_continues(initial, entries, i));
            assert(trace::entry_continues(initial, entries, i) == (entries[i].step.state_before
                == trace_laws::model_before(initial, entries, i)));
        }
    }
}

/// A sampled position of a committed block passes exactly where its step is honest.
pub proof fn lemma_sampled<H: HashPort>(hasher: H, block: BlockView, index: usize)
    requires
        is_committed(hasher, block.trace.entries),
    ensures
        validation::sample_holds(hasher, block, index) <==> is_honest_at(
            block.header.training_seed,
            block.trace.entries,
            index,
        ),
{
    let entries: Seq<TraceEntry> = block.trace.entries;
    if index < entries.len() {
        let entry: TraceEntry = entries[index as int];
        assert(entry.commitment == trace::spec_commit(
            hasher,
            entry.previous_commitment,
            entry.step,
        ));
        trace_laws::lemma_check_is_exact(hasher, block.header.training_seed, index, entry, entry);
    }
}

/// At every height and after every parent, a block is accepted exactly where it shows everything
/// that it has to: the links and models, a committed and connected trace, enough zero bits at the
/// start of its hash, and an honest step, in every field, at each sampled position.
pub proof fn lemma_accepted_block_is_acceptable<H: HashPort, S: SamplingPort>(
    config: ChainConfig,
    hasher: H,
    sampler: S,
    parent: ParentContext,
    block: BlockView,
)
    ensures
        validation::spec_validate(config, hasher, sampler, parent, block) is Ok <==> is_acceptable(
            config,
            hasher,
            sampler,
            parent,
            block,
        ),
{
    let entries: Seq<TraceEntry> = block.trace.entries;
    validation::lemma_accepted_iff_rules(config, hasher, sampler, parent, block);
    lemma_commitments(hasher, block);
    lemma_connections(parent.model, entries);
    lemma_ends(parent.model, entries, entries.len() as int);
    assert(entries.take(entries.len() as int) =~= entries);
    lemma_work_is_zero_bits(hasher, block.header, config.difficulty_zero_bits);
    assert(drawn_for(sampler, block) == validation::block_samples(sampler, block));
    if is_committed(hasher, entries) {
        assert forall|index: usize|
            validation::sample_holds(hasher, block, index) == #[trigger] is_honest_at(
                block.header.training_seed,
                entries,
                index,
            ) by {
            lemma_sampled(hasher, block, index);
        }
        if validation::spec_validate(config, hasher, sampler, parent, block) is Ok {
            assert forall|i: int| 0 <= i < drawn_for(sampler, block).len() implies is_honest_at(
                block.header.training_seed,
                entries,
                #[trigger] drawn_for(sampler, block)[i],
            ) by {
                let index: usize = validation::block_samples(sampler, block)[i];
                assert(validation::sample_holds(hasher, block, index));
            }
        }
        if is_acceptable(config, hasher, sampler, parent, block) {
            assert forall|i: int|
                0 <= i < validation::block_samples(
                    sampler,
                    block,
                ).len() implies validation::sample_holds(
                hasher,
                block,
                #[trigger] validation::block_samples(sampler, block)[i],
            ) by {
                let index: usize = drawn_for(sampler, block)[i];
                assert(is_honest_at(block.header.training_seed, entries, index));
            }
        }
    }
}

/// The hash of an accepted block starts with as many zero bits as the difficulty asks for, at every
/// height and after every parent.
pub proof fn lemma_accepted_hash_has_zero_bits<H: HashPort, S: SamplingPort>(
    config: ChainConfig,
    hasher: H,
    sampler: S,
    parent: ParentContext,
    block: BlockView,
)
    requires
        validation::spec_validate(config, hasher, sampler, parent, block) is Ok,
    ensures
        starts_with_zero_bits(
            hasher.spec_digest(block::header_bytes(block.header) + block.header.trace_root@)@,
            config.difficulty_zero_bits as int,
        ),
{
    lemma_accepted_block_is_acceptable(config, hasher, sampler, parent, block);
}

/// A block with a sampled step that differs from the honest one in any field is refused.
pub proof fn lemma_forged_sample_is_refused<H: HashPort, S: SamplingPort>(
    config: ChainConfig,
    hasher: H,
    sampler: S,
    parent: ParentContext,
    block: BlockView,
    at: int,
)
    requires
        0 <= at < drawn_for(sampler, block).len(),
        ({
            let index: usize = drawn_for(sampler, block)[at];
            let step: TrainingStep = block.trace.entries[index as int].step;
            index < block.trace.entries.len() && !trace_laws::same_step(
                step,
                TrainingStep::spec_deterministic(
                    block.header.training_seed,
                    step.index,
                    step.state_before,
                ),
            )
        }),
    ensures
        validation::spec_validate(config, hasher, sampler, parent, block) is Err,
{
    lemma_accepted_block_is_acceptable(config, hasher, sampler, parent, block);
}

/// The header under another nonce.
pub open spec fn renonced(header: BlockHeader, nonce: u64) -> BlockHeader {
    BlockHeader {
        height: header.height,
        previous_block: header.previous_block,
        model_before: header.model_before,
        model_after: header.model_after,
        trace_root: header.trace_root,
        training_seed: header.training_seed,
        sampling_entropy: header.sampling_entropy,
        sample_count: header.sample_count,
        nonce,
    }
}

/// Everything that a mined block shows: its place after the parent, the honest trace of the
/// configured length, the smallest nonce whose hash starts with enough zero bits.
pub open spec fn shows_mining<H: HashPort>(
    hasher: H,
    config: ChainConfig,
    parent: ParentContext,
    training_seed: u64,
    sampling_entropy: u64,
    block: BlockView,
) -> bool {
    let entries: Seq<TraceEntry> = block.trace.entries;
    let header: BlockHeader = block.header;
    let difficulty: int = config.difficulty_zero_bits as int;
    &&& header.height == parent.height
    &&& header.previous_block == parent.hash
    &&& header.model_before == parent.model
    &&& header.training_seed == training_seed
    &&& header.sampling_entropy == sampling_entropy
    &&& header.sample_count == config.samples_per_block
    &&& header.trace_root == block.trace.root
    &&& header.model_after == block.trace.candidate_model
    &&& block.trace.initial_model == parent.model
    &&& entries.len() == config.steps_per_block
    &&& trace_laws::is_honest_run(hasher, parent.model, training_seed, entries)
    &&& block.trace.candidate_model == trace_laws::model_before(
        parent.model,
        entries,
        entries.len() as int,
    )
    &&& block.trace.root == trace_laws::commitment_before(entries, entries.len() as int)
    &&& starts_with_zero_bits(validation::header_hash(hasher, header)@, difficulty)
    &&& forall|nonce: u64|
        nonce < header.nonce ==> !starts_with_zero_bits(
            validation::header_hash(hasher, #[trigger] renonced(header, nonce))@,
            difficulty,
        )
}

/// At every height and after every parent, a mined block shows everything that mining it took.
pub proof fn lemma_mined_block_shows_mining<H: HashPort>(
    hasher: H,
    config: ChainConfig,
    parent: ParentContext,
    training_seed: u64,
    sampling_entropy: u64,
    block: BlockView,
)
    requires
        mining::is_mined_block(hasher, config, parent, training_seed, sampling_entropy, block),
    ensures
        shows_mining(hasher, config, parent, training_seed, sampling_entropy, block),
{
    let header: BlockHeader = mining::next_header(
        hasher,
        config,
        parent,
        training_seed,
        sampling_entropy,
    );
    let difficulty: u32 = config.difficulty_zero_bits;
    trace_laws::lemma_trace_is_honest_throughout(
        hasher,
        parent.model,
        training_seed,
        config.steps_per_block,
    );
    assert(mining::nonce_works(hasher, header, difficulty, block.header.nonce));
    lemma_work_is_zero_bits(hasher, block.header, difficulty);
    assert forall|nonce: u64| nonce < block.header.nonce implies !starts_with_zero_bits(
        validation::header_hash(hasher, #[trigger] renonced(block.header, nonce))@,
        difficulty as int,
    ) by {
        assert(!mining::nonce_works(hasher, header, difficulty, nonce));
        let tried: BlockHeader = renonced(block.header, nonce);
        assert(mining::with_nonce(header, nonce) == tried);
        lemma_work_is_zero_bits(hasher, tried, difficulty);
    }
}

/// Steps and commitments that are determined one by one leave one trace.
proof fn lemma_honest_run_is_unique<H: HashPort>(
    hasher: H,
    initial: ModelState,
    seed: u64,
    left: Seq<TraceEntry>,
    right: Seq<TraceEntry>,
    count: int,
)
    requires
        0 <= count <= left.len(),
        left.len() == right.len(),
        trace_laws::is_honest_run(hasher, initial, seed, left),
        trace_laws::is_honest_run(hasher, initial, seed, right),
    ensures
        left.take(count) == right.take(count),
    decreases count,
{
    if count > 0 {
        let last: int = count - 1;
        lemma_honest_run_is_unique(hasher, initial, seed, left, right, last);
        if last > 0 {
            assert(left.take(last)[last - 1] == right.take(last)[last - 1]);
        }
        assert(left[last] == right[last]) by {
            assert(left[last].step == right[last].step);
            assert(left[last].commitment == right[last].commitment);
            assert(left[last].previous_commitment == right[last].previous_commitment);
        }
        assert(left.take(count) =~= left.take(last).push(left[last]));
        assert(right.take(count) =~= right.take(last).push(right[last]));
    } else {
        assert(left.take(0) =~= right.take(0));
    }
}

/// The header of a block that shows its mining is the next header under the block's nonce.
pub proof fn lemma_shown_header_is_next<H: HashPort>(
    hasher: H,
    config: ChainConfig,
    parent: ParentContext,
    training_seed: u64,
    sampling_entropy: u64,
    block: BlockView,
)
    requires
        shows_mining(hasher, config, parent, training_seed, sampling_entropy, block),
    ensures
        ({
            let header: BlockHeader = mining::next_header(
                hasher,
                config,
                parent,
                training_seed,
                sampling_entropy,
            );
            &&& block.header == renonced(header, block.header.nonce)
            &&& mining::nonce_works(
                hasher,
                header,
                config.difficulty_zero_bits,
                block.header.nonce,
            )
        }),
{
    let header: BlockHeader = mining::next_header(
        hasher,
        config,
        parent,
        training_seed,
        sampling_entropy,
    );
    let made: TraceView = mining::next_trace(hasher, config, parent, training_seed);
    let count: int = made.entries.len() as int;
    trace_laws::lemma_trace_is_honest_throughout(
        hasher,
        parent.model,
        training_seed,
        config.steps_per_block,
    );
    lemma_honest_run_is_unique(
        hasher,
        parent.model,
        training_seed,
        made.entries,
        block.trace.entries,
        count,
    );
    assert(made.entries.take(count) =~= made.entries);
    assert(block.trace.entries.take(count) =~= block.trace.entries);
    assert(mining::with_nonce(header, block.header.nonce) == block.header);
    lemma_work_is_zero_bits(hasher, block.header, config.difficulty_zero_bits);
}

/// Mining finds nothing only where no nonce gives a hash with enough zero bits.
pub proof fn lemma_unminable_has_no_nonce<H: HashPort>(
    hasher: H,
    header: BlockHeader,
    difficulty: u32,
    nonce: u64,
)
    requires
        !mining::is_minable(hasher, header, difficulty),
    ensures
        !starts_with_zero_bits(
            validation::header_hash(hasher, renonced(header, nonce))@,
            difficulty as int,
        ),
{
    assert(!mining::nonce_works(hasher, header, difficulty, nonce));
    lemma_work_is_zero_bits(hasher, mining::with_nonce(header, nonce), difficulty);
}

} // verus!
