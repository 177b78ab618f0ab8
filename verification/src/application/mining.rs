//! Making the next block: an honest trace under a header with enough work.

use vstd::prelude::*;

use crate::application::trace;
use crate::application::validation;
use crate::application::validation::{ChainConfig, ParentContext};
use crate::domain::block::{BlockView, TraceView};
use crate::domain::digest;
use crate::domain::{Block, BlockHeader, ModelState, TraceEntry, TrainingTrace};
use crate::ports::{HashPort, SamplingPort};

verus! {

/// The header with the given nonce.
pub open spec fn with_nonce(header: BlockHeader, nonce: u64) -> BlockHeader {
    BlockHeader { nonce, ..header }
}

/// The header, under this nonce, has at least `difficulty` bits of work.
pub open spec fn nonce_works<H: HashPort>(
    hasher: H,
    header: BlockHeader,
    difficulty: u32,
    nonce: u64,
) -> bool {
    validation::work_of(hasher, with_nonce(header, nonce)) >= difficulty
}

/// Some nonce gives the header enough work.
pub open spec fn is_minable<H: HashPort>(hasher: H, header: BlockHeader, difficulty: u32) -> bool {
    exists|nonce: u64| #[trigger] nonce_works(hasher, header, difficulty, nonce)
}

/// The smallest nonce that gives the header enough work.
pub open spec fn is_first_nonce<H: HashPort>(
    hasher: H,
    header: BlockHeader,
    difficulty: u32,
    nonce: u64,
) -> bool {
    &&& nonce_works(hasher, header, difficulty, nonce)
    &&& forall|smaller: u64|
        smaller < nonce ==> !#[trigger] nonce_works(hasher, header, difficulty, smaller)
}

/// The honest trace of the next block after `parent`.
pub open spec fn next_trace<H: HashPort>(
    hasher: H,
    config: ChainConfig,
    parent: ParentContext,
    training_seed: u64,
) -> TraceView {
    trace::honest_trace(hasher, parent.model, training_seed, config.steps_per_block as nat)
}

/// The header of the next block after `parent`, before any work.
pub open spec fn next_header<H: HashPort>(
    hasher: H,
    config: ChainConfig,
    parent: ParentContext,
    training_seed: u64,
    sampling_entropy: u64,
) -> BlockHeader {
    let next: TraceView = next_trace(hasher, config, parent, training_seed);
    BlockHeader {
        height: parent.height,
        previous_block: parent.hash,
        model_before: next.initial_model,
        model_after: next.candidate_model,
        trace_root: next.root,
        training_seed,
        sampling_entropy,
        sample_count: config.samples_per_block,
        nonce: 0,
    }
}

/// The block that mining after `parent` gives: the honest trace under the first nonce that works.
pub open spec fn is_mined_block<H: HashPort>(
    hasher: H,
    config: ChainConfig,
    parent: ParentContext,
    training_seed: u64,
    sampling_entropy: u64,
    block: BlockView,
) -> bool {
    let header: BlockHeader = next_header(hasher, config, parent, training_seed, sampling_entropy);
    &&& block.trace == next_trace(hasher, config, parent, training_seed)
    &&& block.header == with_nonce(header, block.header.nonce)
    &&& is_first_nonce(hasher, header, config.difficulty_zero_bits, block.header.nonce)
}

/// The smallest nonce that gives the header enough work, where there is one.
pub fn find_nonce<H: HashPort>(hasher: &H, header: &BlockHeader, difficulty: u32) -> (found: Option<
    u64,
>)
    ensures
        match found {
            Some(nonce) => is_first_nonce(*hasher, *header, difficulty, nonce),
            None => !is_minable(*hasher, *header, difficulty),
        },
{
    let mut candidate: BlockHeader = *header;
    candidate.nonce = 0;
    loop
        invariant
            candidate == with_nonce(*header, candidate.nonce),
            forall|smaller: u64|
                smaller < candidate.nonce ==> !#[trigger] nonce_works(
                    *hasher,
                    *header,
                    difficulty,
                    smaller,
                ),
        decreases u64::MAX - candidate.nonce,
    {
        let work: u32 = validation::block_header_hash(hasher, &candidate).leading_zero_bits();
        if work >= difficulty {
            assert(nonce_works(*hasher, *header, difficulty, candidate.nonce));
            return Some(candidate.nonce);
        }
        assert(!nonce_works(*hasher, *header, difficulty, candidate.nonce));
        if candidate.nonce == u64::MAX {
            return None;
        }
        candidate.nonce = candidate.nonce + 1;
    }
}

/// Mines the next block after `parent`, where some nonce gives it enough work.
pub fn mine_after<H: HashPort>(
    config: &ChainConfig,
    hasher: &H,
    parent: &ParentContext,
    training_seed: u64,
    sampling_entropy: u64,
) -> (mined: Option<Block>)
    ensures
        match mined {
            Some(block) => is_mined_block(
                *hasher,
                *config,
                *parent,
                training_seed,
                sampling_entropy,
                block@,
            ),
            None => !is_minable(
                *hasher,
                next_header(*hasher, *config, *parent, training_seed, sampling_entropy),
                config.difficulty_zero_bits,
            ),
        },
{
    let trace: TrainingTrace = trace::build(
        hasher,
        parent.model,
        training_seed,
        config.steps_per_block,
    );
    let mut header: BlockHeader = BlockHeader {
        height: parent.height,
        previous_block: parent.hash,
        model_before: trace.initial_model,
        model_after: trace.candidate_model,
        trace_root: trace.root,
        training_seed,
        sampling_entropy,
        sample_count: config.samples_per_block,
        nonce: 0,
    };
    match find_nonce(hasher, &header, config.difficulty_zero_bits) {
        Some(nonce) => {
            header.nonce = nonce;
            Some(Block { header, trace })
        },
        None => None,
    }
}

/// Without a difficulty every header is minable, at once.
pub proof fn lemma_no_difficulty_is_minable<H: HashPort>(hasher: H, header: BlockHeader)
    ensures
        is_minable(hasher, header, 0),
        is_first_nonce(hasher, header, 0, 0),
{
    assert(nonce_works(hasher, header, 0, 0));
}

/// No hash has more than 256 zero bits, so no header is minable beyond that difficulty.
pub proof fn lemma_difficulty_beyond_hash_is_unminable<H: HashPort>(
    hasher: H,
    header: BlockHeader,
    difficulty: u32,
)
    requires
        difficulty > 256,
    ensures
        !is_minable(hasher, header, difficulty),
{
    assert forall|nonce: u64| !#[trigger] nonce_works(hasher, header, difficulty, nonce) by {
        digest::lemma_leading_zeros_bound(
            validation::header_hash(hasher, with_nonce(header, nonce)),
        );
    }
}

/// A mined block is accepted after the parent it was mined for, as long as the sampler names
/// steps of the trace.
pub proof fn lemma_mined_block_is_accepted<H: HashPort, S: SamplingPort>(
    config: ChainConfig,
    hasher: H,
    sampler: S,
    parent: ParentContext,
    training_seed: u64,
    sampling_entropy: u64,
    block: BlockView,
)
    requires
        is_mined_block(hasher, config, parent, training_seed, sampling_entropy, block),
        forall|i: int|
            0 <= i < validation::block_samples(sampler, block).len()
                ==> #[trigger] validation::block_samples(sampler, block)[i]
                < config.steps_per_block,
    ensures
        validation::spec_validate(config, hasher, sampler, parent, block) is Ok,
{
    let entries: Seq<TraceEntry> = block.trace.entries;
    let steps: usize = config.steps_per_block;
    let initial: ModelState = parent.model;
    trace::lemma_honest_prefix(hasher, initial, training_seed, steps as nat, steps as nat);
    assert(validation::commitments_hold(hasher, block)) by {
        assert forall|i: int| 0 <= i < entries.len() implies #[trigger] trace::entry_is_bound(
            hasher,
            entries,
            i,
        ) by {
            trace::lemma_honest_entry_is_accepted(
                hasher,
                initial,
                training_seed,
                steps,
                i as usize,
            );
        }
    }
    assert forall|i: int| 0 <= i < entries.len() implies #[trigger] trace::entry_continues(
        initial,
        entries,
        i,
    ) by {
        trace::lemma_honest_entry_is_accepted(hasher, initial, training_seed, steps, i as usize);
    }
    let indices: Seq<usize> = validation::block_samples(sampler, block);
    assert forall|i: int| 0 <= i < indices.len() implies validation::sample_holds(
        hasher,
        block,
        #[trigger] indices[i],
    ) by {
        trace::lemma_honest_entry_is_accepted(hasher, initial, training_seed, steps, indices[i]);
    }
    assert(validation::meets_rules(config, hasher, sampler, parent, block));
    validation::lemma_accepted_iff_rules(config, hasher, sampler, parent, block);
}

} // verus!
