//! Which error a block is refused with, told from its parts.

use vstd::prelude::*;

use crate::application::block_laws;
use crate::application::mining;
use crate::application::trace;
use crate::application::trace_laws;
use crate::application::validation;
use crate::application::validation::{BlockValidationError, ChainConfig, ParentContext};
use crate::domain::block::BlockView;
use crate::domain::digest;
use crate::domain::{BlockHeader, ModelState, TraceEntry};
use crate::ports::{HashPort, SamplingPort};

verus! {

/// The block has the height that its parent asks for.
pub open spec fn has_height(parent: ParentContext, block: BlockView) -> bool {
    block.header.height == parent.height
}

/// The block names its parent.
pub open spec fn has_link(parent: ParentContext, block: BlockView) -> bool {
    has_height(parent, block) && block.header.previous_block == parent.hash
}

/// The block starts from the model of its parent, in its header and in its trace.
pub open spec fn has_start(parent: ParentContext, block: BlockView) -> bool {
    has_link(parent, block) && block.header.model_before == parent.model
        && block.trace.initial_model == parent.model
}

/// The header names the model that the trace names as its last.
pub open spec fn has_end(parent: ParentContext, block: BlockView) -> bool {
    has_start(parent, block) && block.header.model_after == block.trace.candidate_model
}

/// The trace has the configured length.
pub open spec fn has_length(config: ChainConfig, parent: ParentContext, block: BlockView) -> bool {
    has_end(parent, block) && block.trace.entries.len() == config.steps_per_block
}

/// The header asks for the configured number of samples.
pub open spec fn has_samples(config: ChainConfig, parent: ParentContext, block: BlockView) -> bool {
    has_length(config, parent, block) && block.header.sample_count == config.samples_per_block
}

/// Every step is committed to, and the last commitment is the root in header and trace.
pub open spec fn has_root<H: HashPort>(
    config: ChainConfig,
    hasher: H,
    parent: ParentContext,
    block: BlockView,
) -> bool {
    let entries: Seq<TraceEntry> = block.trace.entries;
    &&& has_samples(config, parent, block)
    &&& block.header.trace_root == block.trace.root
    &&& block.trace.root == trace_laws::commitment_before(entries, entries.len() as int)
    &&& block_laws::is_committed(hasher, entries)
}

/// The models connect up to `at` and break there: at a step that does not start where the one
/// before it ended, or behind the last step, where the trace names another model.
pub open spec fn breaks_at(
    initial: ModelState,
    candidate: ModelState,
    entries: Seq<TraceEntry>,
    at: int,
) -> bool {
    &&& 0 <= at <= entries.len()
    &&& forall|i: int|
        #![trigger entries[i]]
        0 <= i < at ==> entries[i].step.state_before == trace_laws::model_before(
            initial,
            entries,
            i,
        )
    &&& if at < entries.len() {
        entries[at].step.state_before != trace_laws::model_before(initial, entries, at)
    } else {
        candidate != trace_laws::model_before(initial, entries, at)
    }
}

/// The models connect from the first step to the last.
pub open spec fn has_continuity<H: HashPort>(
    config: ChainConfig,
    hasher: H,
    parent: ParentContext,
    block: BlockView,
) -> bool {
    let entries: Seq<TraceEntry> = block.trace.entries;
    &&& has_root(config, hasher, parent, block)
    &&& block_laws::is_connected(parent.model, entries)
    &&& block.trace.candidate_model == trace_laws::model_before(
        parent.model,
        entries,
        entries.len() as int,
    )
}

/// The hash starts with as many zero bits as the difficulty asks for.
pub open spec fn has_work<H: HashPort>(
    config: ChainConfig,
    hasher: H,
    parent: ParentContext,
    block: BlockView,
) -> bool {
    &&& has_continuity(config, hasher, parent, block)
    &&& block_laws::starts_with_zero_bits(
        validation::header_hash(hasher, block.header)@,
        config.difficulty_zero_bits as int,
    )
}

/// The first sampled position, in the order of the sample, at which the step is not the honest one.
pub open spec fn fails_first_at<S: SamplingPort>(sampler: S, block: BlockView, at: int) -> bool {
    let drawn: Seq<usize> = block_laws::drawn_for(sampler, block);
    let seed: u64 = block.header.training_seed;
    &&& 0 <= at < drawn.len()
    &&& !block_laws::is_honest_at(seed, block.trace.entries, drawn[at])
    &&& forall|i: int|
        0 <= i < at ==> block_laws::is_honest_at(seed, block.trace.entries, #[trigger] drawn[i])
}

/// Which error a block is refused with, up to its root: the first of height, parent, model before,
/// model after, length, sample count and root that is wrong, with what was expected and what was
/// found.
pub proof fn lemma_early_errors_are_exact<H: HashPort, S: SamplingPort>(
    config: ChainConfig,
    hasher: H,
    sampler: S,
    parent: ParentContext,
    block: BlockView,
    expected: u64,
    actual: u64,
    steps: usize,
    found: usize,
)
    ensures
        ({
            let verdict: Result<(), BlockValidationError> = validation::spec_validate(
                config,
                hasher,
                sampler,
                parent,
                block,
            );
            &&& verdict == Err::<(), BlockValidationError>(
                BlockValidationError::WrongHeight { expected, actual },
            ) <==> !has_height(parent, block) && expected == parent.height && actual
                == block.header.height
            &&& verdict == Err::<(), BlockValidationError>(BlockValidationError::WrongPreviousBlock)
                <==> has_height(parent, block) && !has_link(parent, block)
            &&& verdict == Err::<(), BlockValidationError>(BlockValidationError::WrongModelBefore)
                <==> has_link(parent, block) && !has_start(parent, block)
            &&& verdict == Err::<(), BlockValidationError>(BlockValidationError::WrongModelAfter)
                <==> has_start(parent, block) && !has_end(parent, block)
            &&& verdict == Err::<(), BlockValidationError>(
                BlockValidationError::WrongTraceLength { expected: steps, actual: found },
            ) <==> has_end(parent, block) && !has_length(config, parent, block) && steps
                == config.steps_per_block && found == block.trace.entries.len() as usize
            &&& verdict == Err::<(), BlockValidationError>(
                BlockValidationError::WrongSampleCount { expected: steps, actual: found },
            ) <==> has_length(config, parent, block) && !has_samples(config, parent, block)
                && steps == config.samples_per_block && found == block.header.sample_count
            &&& verdict == Err::<(), BlockValidationError>(BlockValidationError::WrongTraceRoot)
                <==> has_samples(config, parent, block) && !has_root(config, hasher, parent, block)
        }),
{
    block_laws::lemma_commitments(hasher, block);
}

/// The first break of continuity is where the models break.
proof fn lemma_break_is_exact(block: BlockView, at: int)
    ensures
        validation::continuity_break(block) == Some(at) <==> breaks_at(
            block.trace.initial_model,
            block.trace.candidate_model,
            block.trace.entries,
            at,
        ),
{
    let entries: Seq<TraceEntry> = block.trace.entries;
    let initial: ModelState = block.trace.initial_model;
    let count: int = entries.len() as int;
    let continues = |i: int| trace::entry_continues(initial, entries, i);
    validation::lemma_first_failure(continues, entries.len());
    block_laws::lemma_ends(initial, entries, count);
    assert(entries.take(count) =~= entries);
    assert forall|i: int| 0 <= i < count implies #[trigger] continues(i) == (
    entries[i].step.state_before == trace_laws::model_before(initial, entries, i)) by {
        block_laws::lemma_ends(initial, entries, i);
    }
    let broken: Option<int> = validation::continuity_break(block);
    if breaks_at(initial, block.trace.candidate_model, entries, at) {
        assert forall|i: int| 0 <= i < at implies #[trigger] continues(i) by {
            assert(entries[i].step.state_before == trace_laws::model_before(initial, entries, i));
        }
        if at < count {
            assert(!continues(at));
        }
        match validation::first_failure(continues, entries.len()) {
            Some(first) => {
                if first < at {
                    assert(continues(first));
                } else if at < first {
                    assert(continues(at));
                }
            },
            None => {
                if at < count {
                    assert(continues(at));
                }
            },
        }
    }
    if broken == Some(at) {
        assert forall|i: int|
            #![trigger entries[i]]
            0 <= i < at implies entries[i].step.state_before == trace_laws::model_before(
            initial,
            entries,
            i,
        ) by {
            assert(continues(i));
        }
    }
}

/// Which error a block with the right root is refused with: the place where the models break, the
/// exact number of zero bits where that is too small, or the first sampled index whose step is not
/// the honest one.
pub proof fn lemma_late_errors_are_exact<H: HashPort, S: SamplingPort>(
    config: ChainConfig,
    hasher: H,
    sampler: S,
    parent: ParentContext,
    block: BlockView,
    index: usize,
    required: u32,
    actual: u32,
)
    ensures
        ({
            let verdict: Result<(), BlockValidationError> = validation::spec_validate(
                config,
                hasher,
                sampler,
                parent,
                block,
            );
            let hash: Seq<u8> = validation::header_hash(hasher, block.header)@;
            &&& verdict == Err::<(), BlockValidationError>(
                BlockValidationError::WrongTraceContinuity { index },
            ) <==> has_root(config, hasher, parent, block) && breaks_at(
                parent.model,
                block.trace.candidate_model,
                block.trace.entries,
                index as int,
            )
            &&& verdict == Err::<(), BlockValidationError>(
                BlockValidationError::InsufficientWork {
                    required_zero_bits: required,
                    actual_zero_bits: actual,
                },
            ) <==> has_continuity(config, hasher, parent, block) && required
                == config.difficulty_zero_bits && actual < required
                && block_laws::starts_with_zero_bits(hash, actual as int)
                && !block_laws::starts_with_zero_bits(hash, actual + 1)
            &&& verdict == Err::<(), BlockValidationError>(
                BlockValidationError::InvalidSample { index },
            ) <==> has_work(config, hasher, parent, block) && exists|at: int| #[trigger]
                fails_first_at(sampler, block, at) && block_laws::drawn_for(sampler, block)[at]
                    == index
        }),
{
    let entries: Seq<TraceEntry> = block.trace.entries;
    let broken: Option<int> = validation::continuity_break(block);
    block_laws::lemma_commitments(hasher, block);
    if has_root(config, hasher, parent, block) {
        lemma_break_is_exact(block, index as int);
        if broken is Some {
            let at: int = broken->0;
            lemma_break_is_exact(block, at);
            assert(breaks_at(parent.model, block.trace.candidate_model, entries, at));
            assert(0 <= at <= config.steps_per_block);
            if has_continuity(config, hasher, parent, block) {
                assert(at < entries.len() ==> entries[at].step.state_before
                    == trace_laws::model_before(parent.model, entries, at));
            }
        } else {
            lemma_unbroken_is_connected(block);
        }
        lemma_work_is_counted(hasher, block.header, actual);
        block_laws::lemma_work_is_zero_bits(hasher, block.header, config.difficulty_zero_bits);
        digest::lemma_leading_zeros_bound(validation::header_hash(hasher, block.header));
        lemma_bad_sample_is_exact(hasher, sampler, block, index);
    }
}

proof fn lemma_unbroken_is_connected(block: BlockView)
    requires
        validation::continuity_break(block) is None,
    ensures
        block_laws::is_connected(block.trace.initial_model, block.trace.entries),
        block.trace.candidate_model == trace_laws::model_before(
            block.trace.initial_model,
            block.trace.entries,
            block.trace.entries.len() as int,
        ),
{
    let entries: Seq<TraceEntry> = block.trace.entries;
    let initial: ModelState = block.trace.initial_model;
    let continues = |i: int| trace::entry_continues(initial, entries, i);
    validation::lemma_first_failure(continues, entries.len());
    assert forall|i: int| 0 <= i < entries.len() implies #[trigger] trace::entry_continues(
        initial,
        entries,
        i,
    ) by {
        assert(continues(i));
    }
    block_laws::lemma_connections(initial, entries);
    block_laws::lemma_ends(initial, entries, entries.len() as int);
    assert(entries.take(entries.len() as int) =~= entries);
}

/// The work of a header is the exact number of zero bits at the start of its hash.
proof fn lemma_work_is_counted<H: HashPort>(hasher: H, header: BlockHeader, actual: u32)
    ensures
        ({
            let hash: Seq<u8> = validation::header_hash(hasher, header)@;
            validation::work_of(hasher, header) == actual <==> block_laws::starts_with_zero_bits(
                hash,
                actual as int,
            ) && !block_laws::starts_with_zero_bits(hash, actual + 1)
        }),
{
    let hash: Seq<u8> = validation::header_hash(hasher, header)@;
    block_laws::lemma_zero_bits_are_counted(hash, actual as int);
    block_laws::lemma_zero_bits_are_counted(hash, actual + 1);
}

proof fn lemma_bad_sample_is_exact<H: HashPort, S: SamplingPort>(
    hasher: H,
    sampler: S,
    block: BlockView,
    index: usize,
)
    requires
        block_laws::is_committed(hasher, block.trace.entries),
    ensures
        validation::bad_sample(hasher, sampler, block) == Some(index) <==> exists|at: int|
            #[trigger] fails_first_at(sampler, block, at) && block_laws::drawn_for(
                sampler,
                block,
            )[at] == index,
{
    let drawn: Seq<usize> = block_laws::drawn_for(sampler, block);
    let seed: u64 = block.header.training_seed;
    let entries: Seq<TraceEntry> = block.trace.entries;
    assert(validation::block_samples(sampler, block) == drawn);
    let holds = |i: int| validation::sample_holds(hasher, block, drawn[i]);
    validation::lemma_first_failure(holds, drawn.len());
    assert forall|i: int| 0 <= i < drawn.len() implies #[trigger] holds(i)
        == block_laws::is_honest_at(seed, entries, drawn[i]) by {
        block_laws::lemma_sampled(hasher, block, drawn[i]);
    }
    let first: Option<int> = validation::first_failure(holds, drawn.len());
    if first is Some {
        let at: int = first->0;
        assert forall|i: int| 0 <= i < at implies block_laws::is_honest_at(
            seed,
            entries,
            #[trigger] drawn[i],
        ) by {
            assert(holds(i));
        }
        assert(fails_first_at(sampler, block, at));
        assert forall|other: int| #[trigger] fails_first_at(sampler, block, other) implies other
            == at by {
            assert(!holds(other));
            if other > at {
                assert(block_laws::is_honest_at(seed, entries, drawn[at]));
            } else if other < at {
                assert(holds(other));
            }
        }
    } else {
        assert forall|other: int| !#[trigger] fails_first_at(sampler, block, other) by {
            if 0 <= other < drawn.len() {
                assert(holds(other));
            }
        }
    }
}

/// A first nonce is one whose hash starts with enough zero bits, with none below it.
pub proof fn lemma_first_nonce_is_exact<H: HashPort>(
    hasher: H,
    header: BlockHeader,
    difficulty: u32,
    nonce: u64,
)
    ensures
        mining::is_first_nonce(hasher, header, difficulty, nonce) <==> {
            &&& block_laws::starts_with_zero_bits(
                validation::header_hash(hasher, block_laws::renonced(header, nonce))@,
                difficulty as int,
            )
            &&& forall|smaller: u64|
                smaller < nonce ==> !block_laws::starts_with_zero_bits(
                    validation::header_hash(
                        hasher,
                        #[trigger] block_laws::renonced(header, smaller),
                    )@,
                    difficulty as int,
                )
        },
{
    assert forall|other: u64| #[trigger]
        mining::nonce_works(hasher, header, difficulty, other)
            == block_laws::starts_with_zero_bits(
            validation::header_hash(hasher, block_laws::renonced(header, other))@,
            difficulty as int,
        ) by {
        assert(mining::with_nonce(header, other) == block_laws::renonced(header, other));
        block_laws::lemma_work_is_zero_bits(
            hasher,
            block_laws::renonced(header, other),
            difficulty,
        );
    }
    assert forall|other: u64| block_laws::starts_with_zero_bits(
        validation::header_hash(hasher, #[trigger] block_laws::renonced(header, other))@,
        difficulty as int,
    ) == mining::nonce_works(hasher, header, difficulty, other) by {}
}

} // verus!
