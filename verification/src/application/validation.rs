//! The rules that a block must meet to follow a given parent.

use vstd::prelude::*;

use crate::application::trace;
use crate::domain::block;
use crate::domain::block::BlockView;
use crate::domain::digest;
use crate::domain::{Block, BlockHeader, Digest, ModelState, TraceEntry, VerificationSample};
use crate::ports::{HashPort, SamplingPort};

verus! {

/// The parameters that all blocks of a chain share.
#[derive(Clone, Copy, Debug, PartialEq, Eq)]
pub struct ChainConfig {
    pub steps_per_block: usize,
    pub samples_per_block: usize,
    pub difficulty_zero_bits: u32,
}

impl Default for ChainConfig {
    fn default() -> (config: Self)
        ensures
            config == (ChainConfig {
                steps_per_block: 16,
                samples_per_block: 6,
                difficulty_zero_bits: 8,
            }),
    {
        ChainConfig { steps_per_block: 16, samples_per_block: 6, difficulty_zero_bits: 8 }
    }
}

/// Why a block was refused.
#[allow(inconsistent_fields)]
#[derive(Clone, Copy, Debug, PartialEq, Eq)]
pub enum BlockValidationError {
    WrongHeight { expected: u64, actual: u64 },
    WrongPreviousBlock,
    WrongModelBefore,
    WrongModelAfter,
    WrongTraceLength { expected: usize, actual: usize },
    WrongSampleCount { expected: usize, actual: usize },
    WrongTraceContinuity { index: usize },
    WrongTraceRoot,
    InvalidSample { index: usize },
    InsufficientWork { required_zero_bits: u32, actual_zero_bits: u32 },
}

/// What a block builds on: how many blocks come before it, the hash of the last of them, and the
/// model they reached.
#[derive(Clone, Copy, Debug, PartialEq, Eq)]
pub struct ParentContext {
    pub height: u64,
    pub hash: Digest,
    pub model: ModelState,
}

impl ParentContext {
    /// The context of a first block.
    pub open spec fn spec_genesis() -> ParentContext {
        ParentContext {
            height: 0,
            hash: Digest::spec_zero(),
            model: ModelState::spec_genesis(),
        }
    }

    /// The context of a first block.
    pub fn genesis() -> (context: Self)
        ensures
            context == ParentContext::spec_genesis(),
    {
        ParentContext { height: 0, hash: Digest::zero(), model: ModelState::genesis() }
    }

    /// The height that the next block must declare.
    pub fn next_height(&self) -> (height: u64)
        ensures
            height == self.height,
    {
        self.height
    }
}

/// The hash of a header: over its bytes, followed by the trace root once more.
pub open spec fn header_hash<H: HashPort>(hasher: H, header: BlockHeader) -> Digest {
    hasher.spec_digest(block::header_bytes(header) + header.trace_root@)
}

/// The zero bits at the start of a header's hash.
pub open spec fn work_of<H: HashPort>(hasher: H, header: BlockHeader) -> nat {
    digest::leading_zeros(header_hash(hasher, header)@)
}

/// The first position below `count` at which `ok` does not hold.
pub open spec fn first_failure(ok: spec_fn(int) -> bool, count: nat) -> Option<int>
    decreases count,
{
    if count == 0 {
        None
    } else {
        match first_failure(ok, (count - 1) as nat) {
            Some(at) => Some(at),
            None => if ok(count - 1) {
                None
            } else {
                Some(count - 1)
            },
        }
    }
}

/// What the first failure says about the positions around it.
pub proof fn lemma_first_failure(ok: spec_fn(int) -> bool, count: nat)
    ensures
        match first_failure(ok, count) {
            Some(at) => 0 <= at < count && !ok(at) && forall|i: int| 0 <= i < at ==> #[trigger] ok(
                i,
            ),
            None => forall|i: int| 0 <= i < count ==> #[trigger] ok(i),
        },
    decreases count,
{
    if count > 0 {
        lemma_first_failure(ok, (count - 1) as nat);
    }
}

/// A position at which `ok` fails, and before which it holds, is the first failure.
proof fn lemma_failure_at(ok: spec_fn(int) -> bool, count: nat, at: int)
    requires
        0 <= at < count,
        !ok(at),
        forall|i: int| 0 <= i < at ==> #[trigger] ok(i),
    ensures
        first_failure(ok, count) == Some(at),
{
    lemma_first_failure(ok, count);
}

/// Every entry is bound to the one before it, and the last commitment is the root.
pub open spec fn commitments_hold<H: HashPort>(hasher: H, block: BlockView) -> bool {
    let entries: Seq<TraceEntry> = block.trace.entries;
    &&& forall|i: int|
        0 <= i < entries.len() ==> #[trigger] trace::entry_is_bound(hasher, entries, i)
    &&& trace::last_commitment(entries) == block.trace.root
}

/// Where the models of a trace fail to connect: at the first step that does not start where the
/// one before it ended, or behind the last step.
pub open spec fn continuity_break(block: BlockView) -> Option<int> {
    let entries: Seq<TraceEntry> = block.trace.entries;
    let initial: ModelState = block.trace.initial_model;
    match first_failure(|i: int| trace::entry_continues(initial, entries, i), entries.len()) {
        Some(at) => Some(at),
        None => if block.trace.candidate_model == trace::last_state(initial, entries) {
            None
        } else {
            Some(entries.len() as int)
        },
    }
}

/// The indices that are sampled for a block.
pub open spec fn block_samples<S: SamplingPort>(sampler: S, block: BlockView) -> Seq<usize> {
    sampler.spec_sample_indices(
        block.trace.entries.len() as usize,
        block.header.sample_count,
        block.trace.root,
        block.header.sampling_entropy,
    )
}

/// A sampled index names a step of the trace, and that step passes its check.
pub open spec fn sample_holds<H: HashPort>(hasher: H, block: BlockView, index: usize) -> bool {
    let entries: Seq<TraceEntry> = block.trace.entries;
    &&& index < entries.len()
    &&& trace::spec_verify(
        hasher,
        block.header.training_seed,
        index,
        entries[index as int],
        entries[index as int],
    ).spec_accepted()
}

/// The first sampled index that does not hold.
pub open spec fn bad_sample<H: HashPort, S: SamplingPort>(
    hasher: H,
    sampler: S,
    block: BlockView,
) -> Option<usize> {
    let indices: Seq<usize> = block_samples(sampler, block);
    match first_failure(|i: int| sample_holds(hasher, block, indices[i]), indices.len()) {
        Some(at) => Some(indices[at]),
        None => None,
    }
}

/// The verdict on a block that claims to follow `parent`: the first rule that it breaks.
pub open spec fn spec_validate<H: HashPort, S: SamplingPort>(
    config: ChainConfig,
    hasher: H,
    sampler: S,
    parent: ParentContext,
    block: BlockView,
) -> Result<(), BlockValidationError> {
    if block.header.height != parent.height {
        Err(
            BlockValidationError::WrongHeight {
                expected: parent.height,
                actual: block.header.height,
            },
        )
    } else if block.header.previous_block != parent.hash {
        Err(BlockValidationError::WrongPreviousBlock)
    } else if block.header.model_before != parent.model || block.trace.initial_model
        != block.header.model_before {
        Err(BlockValidationError::WrongModelBefore)
    } else if block.trace.candidate_model != block.header.model_after {
        Err(BlockValidationError::WrongModelAfter)
    } else if block.trace.entries.len() != config.steps_per_block {
        Err(
            BlockValidationError::WrongTraceLength {
                expected: config.steps_per_block,
                actual: block.trace.entries.len() as usize,
            },
        )
    } else if block.header.sample_count != config.samples_per_block {
        Err(
            BlockValidationError::WrongSampleCount {
                expected: config.samples_per_block,
                actual: block.header.sample_count,
            },
        )
    } else if block.trace.root != block.header.trace_root || !commitments_hold(hasher, block) {
        Err(BlockValidationError::WrongTraceRoot)
    } else if let Some(at) = continuity_break(block) {
        Err(BlockValidationError::WrongTraceContinuity { index: at as usize })
    } else if work_of(hasher, block.header) < config.difficulty_zero_bits {
        Err(
            BlockValidationError::InsufficientWork {
                required_zero_bits: config.difficulty_zero_bits,
                actual_zero_bits: work_of(hasher, block.header) as u32,
            },
        )
    } else if let Some(index) = bad_sample(hasher, sampler, block) {
        Err(BlockValidationError::InvalidSample { index })
    } else {
        Ok(())
    }
}

/// All the rules that a block must meet to follow `parent`.
pub open spec fn meets_rules<H: HashPort, S: SamplingPort>(
    config: ChainConfig,
    hasher: H,
    sampler: S,
    parent: ParentContext,
    block: BlockView,
) -> bool {
    let entries: Seq<TraceEntry> = block.trace.entries;
    &&& block.header.height == parent.height
    &&& block.header.previous_block == parent.hash
    &&& block.header.model_before == parent.model
    &&& block.trace.initial_model == block.header.model_before
    &&& block.trace.candidate_model == block.header.model_after
    &&& entries.len() == config.steps_per_block
    &&& block.header.sample_count == config.samples_per_block
    &&& block.trace.root == block.header.trace_root
    &&& commitments_hold(hasher, block)
    &&& forall|i: int|
        0 <= i < entries.len() ==> #[trigger] trace::entry_continues(
            block.header.model_before,
            entries,
            i,
        )
    &&& block.header.model_after == trace::last_state(block.header.model_before, entries)
    &&& work_of(hasher, block.header) >= config.difficulty_zero_bits
    &&& forall|i: int|
        0 <= i < block_samples(sampler, block).len() ==> sample_holds(
            hasher,
            block,
            #[trigger] block_samples(sampler, block)[i],
        )
}

/// A block is accepted exactly where it meets every rule: height, previous block, models at both
/// ends, trace length, sample count, root, commitments, continuity, work and sampled steps.
pub proof fn lemma_accepted_iff_rules<H: HashPort, S: SamplingPort>(
    config: ChainConfig,
    hasher: H,
    sampler: S,
    parent: ParentContext,
    block: BlockView,
)
    ensures
        spec_validate(config, hasher, sampler, parent, block) is Ok <==> meets_rules(
            config,
            hasher,
            sampler,
            parent,
            block,
        ),
{
    let entries: Seq<TraceEntry> = block.trace.entries;
    let initial: ModelState = block.trace.initial_model;
    let continues = |i: int| trace::entry_continues(initial, entries, i);
    lemma_first_failure(continues, entries.len());
    let indices: Seq<usize> = block_samples(sampler, block);
    let holds = |i: int| sample_holds(hasher, block, indices[i]);
    lemma_first_failure(holds, indices.len());
    if spec_validate(config, hasher, sampler, parent, block) is Ok {
        assert forall|i: int| 0 <= i < entries.len() implies #[trigger] trace::entry_continues(
            block.header.model_before,
            entries,
            i,
        ) by {
            assert(continues(i));
        }
        assert forall|i: int| 0 <= i < indices.len() implies sample_holds(
            hasher,
            block,
            #[trigger] indices[i],
        ) by {
            assert(holds(i));
        }
    }
    if meets_rules(config, hasher, sampler, parent, block) {
        assert(first_failure(continues, entries.len()) is None);
        assert(first_failure(holds, indices.len()) is None);
    }
}

/// Checks a block that claims to follow `parent`.
pub fn validate_block_after<H, S>(
    config: &ChainConfig,
    hasher: &H,
    sampler: &S,
    parent: &ParentContext,
    block: &Block,
) -> (verdict: Result<(), BlockValidationError>) where H: HashPort, S: SamplingPort
    ensures
        verdict == spec_validate(*config, *hasher, *sampler, *parent, block@),
{
    if block.header.height != parent.next_height() {
        return Err(
            BlockValidationError::WrongHeight {
                expected: parent.next_height(),
                actual: block.header.height,
            },
        );
    }
    if block.header.previous_block != parent.hash {
        return Err(BlockValidationError::WrongPreviousBlock);
    }
    if block.header.model_before != parent.model || block.trace.initial_model
        != block.header.model_before {
        return Err(BlockValidationError::WrongModelBefore);
    }
    if block.trace.candidate_model != block.header.model_after {
        return Err(BlockValidationError::WrongModelAfter);
    }
    if block.trace.entries.len() != config.steps_per_block {
        return Err(
            BlockValidationError::WrongTraceLength {
                expected: config.steps_per_block,
                actual: block.trace.entries.len(),
            },
        );
    }
    if block.header.sample_count != config.samples_per_block {
        return Err(
            BlockValidationError::WrongSampleCount {
                expected: config.samples_per_block,
                actual: block.header.sample_count,
            },
        );
    }
    if block.trace.root != block.header.trace_root {
        return Err(BlockValidationError::WrongTraceRoot);
    }
    match validate_commitment_chain(hasher, block) {
        Ok(()) => {},
        Err(error) => return Err(error),
    }
    match validate_trace_continuity(block) {
        Ok(()) => {},
        Err(error) => return Err(error),
    }
    let actual_work: u32 = block_hash(hasher, block).leading_zero_bits();
    if actual_work < config.difficulty_zero_bits {
        return Err(
            BlockValidationError::InsufficientWork {
                required_zero_bits: config.difficulty_zero_bits,
                actual_zero_bits: actual_work,
            },
        );
    }
    validate_samples(hasher, sampler, block)
}

/// Checks the sampled steps of a block.
fn validate_samples<H, S>(hasher: &H, sampler: &S, block: &Block) -> (verdict: Result<
    (),
    BlockValidationError,
>) where H: HashPort, S: SamplingPort
    ensures
        verdict == (match bad_sample(*hasher, *sampler, block@) {
            Some(index) => Err::<(), BlockValidationError>(
                BlockValidationError::InvalidSample { index },
            ),
            None => Ok(()),
        }),
{
    let sampled_indices: Vec<usize> = sampler.sample_indices(
        block.trace.entries.len(),
        block.header.sample_count,
        block.trace.root,
        block.header.sampling_entropy,
    );
    let ghost holds = |i: int| sample_holds(*hasher, block@, sampled_indices@[i]);
    let mut at: usize = 0;
    while at < sampled_indices.len()
        invariant
            at <= sampled_indices@.len(),
            sampled_indices@ == block_samples(*sampler, block@),
            holds == (|i: int| sample_holds(*hasher, block@, sampled_indices@[i])),
            forall|i: int| 0 <= i < at ==> #[trigger] holds(i),
        decreases sampled_indices@.len() - at,
    {
        let index: usize = sampled_indices[at];
        if index >= block.trace.entries.len() {
            proof {
                lemma_failure_at(holds, sampled_indices@.len(), at as int);
            }
            return Err(BlockValidationError::InvalidSample { index });
        }
        let entry: &TraceEntry = &block.trace.entries[index];
        let sample: VerificationSample = trace::verify(
            hasher,
            block.header.training_seed,
            index,
            entry,
            entry,
        );
        if !sample.accepted() {
            proof {
                lemma_failure_at(holds, sampled_indices@.len(), at as int);
            }
            return Err(BlockValidationError::InvalidSample { index });
        }
        assert(holds(at as int));
        at += 1;
    }
    proof {
        lemma_first_failure(holds, sampled_indices@.len());
    }
    Ok(())
}

/// Checks that each step starts from the model that the one before it left.
fn validate_trace_continuity(block: &Block) -> (verdict: Result<(), BlockValidationError>)
    ensures
        verdict == (match continuity_break(block@) {
            Some(at) => Err::<(), BlockValidationError>(
                BlockValidationError::WrongTraceContinuity { index: at as usize },
            ),
            None => Ok(()),
        }),
{
    let ghost entries: Seq<TraceEntry> = block.trace.entries@;
    let ghost initial: ModelState = block.trace.initial_model;
    let ghost continues = |i: int| trace::entry_continues(initial, entries, i);
    let mut expected_state: ModelState = block.trace.initial_model;
    let mut index: usize = 0;
    while index < block.trace.entries.len()
        invariant
            index <= entries.len(),
            entries == block.trace.entries@,
            initial == block.trace.initial_model,
            continues == (|i: int| trace::entry_continues(initial, entries, i)),
            expected_state == trace::last_state(initial, entries.take(index as int)),
            forall|i: int| 0 <= i < index ==> #[trigger] continues(i),
        decreases entries.len() - index,
    {
        let entry: &TraceEntry = &block.trace.entries[index];
        if entry.step.state_before != expected_state {
            proof {
                lemma_failure_at(continues, entries.len(), index as int);
            }
            return Err(BlockValidationError::WrongTraceContinuity { index });
        }
        assert(continues(index as int));
        expected_state = entry.step.state_after;
        index += 1;
    }
    proof {
        lemma_first_failure(continues, entries.len());
        assert(entries.take(index as int) =~= entries);
    }
    if block.trace.candidate_model != expected_state {
        return Err(
            BlockValidationError::WrongTraceContinuity { index: block.trace.entries.len() },
        );
    }
    Ok(())
}

/// Checks that the commitments form one chain that ends in the trace root.
fn validate_commitment_chain<H: HashPort>(hasher: &H, block: &Block) -> (verdict: Result<
    (),
    BlockValidationError,
>)
    ensures
        verdict == (if commitments_hold(*hasher, block@) {
            Ok::<(), BlockValidationError>(())
        } else {
            Err(BlockValidationError::WrongTraceRoot)
        }),
{
    let ghost entries: Seq<TraceEntry> = block.trace.entries@;
    let mut previous_commitment: Digest = Digest::zero();
    let mut index: usize = 0;
    while index < block.trace.entries.len()
        invariant
            index <= entries.len(),
            entries == block.trace.entries@,
            previous_commitment == trace::last_commitment(entries.take(index as int)),
            forall|i: int|
                0 <= i < index ==> #[trigger] trace::entry_is_bound(*hasher, entries, i),
        decreases entries.len() - index,
    {
        let entry: &TraceEntry = &block.trace.entries[index];
        if entry.previous_commitment != previous_commitment {
            assert(!trace::entry_is_bound(*hasher, entries, index as int));
            return Err(BlockValidationError::WrongTraceRoot);
        }
        let expected_commitment: Digest = trace::commit(hasher, previous_commitment, &entry.step);
        if entry.commitment != expected_commitment {
            assert(!trace::entry_is_bound(*hasher, entries, index as int));
            return Err(BlockValidationError::WrongTraceRoot);
        }
        previous_commitment = entry.commitment;
        index += 1;
    }
    assert(entries.take(index as int) =~= entries);
    if previous_commitment != block.trace.root {
        return Err(BlockValidationError::WrongTraceRoot);
    }
    Ok(())
}

/// The hash of a block is the hash of its header.
pub fn block_hash<H: HashPort>(hasher: &H, block: &Block) -> (hash: Digest)
    ensures
        hash == header_hash(*hasher, block.header),
{
    block_header_hash(hasher, &block.header)
}

/// The hash of a header.
pub fn block_header_hash<H: HashPort>(hasher: &H, header: &BlockHeader) -> (hash: Digest)
    ensures
        hash == header_hash(*hasher, *header),
{
    let mut bytes: Vec<u8> = header.encode();
    header.trace_root.append_to(&mut bytes);
    hasher.digest(bytes.as_slice())
}

} // verus!
