//! A single chain of accepted blocks.

use vstd::prelude::*;

use crate::application::mining;
use crate::application::validation;
use crate::application::validation::{
    block_hash, validate_block_after, BlockValidationError, ChainConfig, ParentContext,
};
use crate::domain::block::BlockView;
use crate::domain::{Block, Digest, ModelState};
use crate::ports::{HashPort, SamplingPort};

verus! {

/// The blocks of a list.
pub open spec fn block_views(blocks: Seq<Block>) -> Seq<BlockView> {
    blocks.map_values(|block: Block| block@)
}

/// What the next block after `blocks` builds on.
pub open spec fn context_after<H: HashPort>(hasher: H, blocks: Seq<BlockView>) -> ParentContext {
    if blocks.len() == 0 {
        ParentContext::spec_genesis()
    } else {
        ParentContext {
            height: blocks.len() as u64,
            hash: validation::header_hash(hasher, blocks.last().header),
            model: blocks.last().header.model_after,
        }
    }
}

/// Every block of the list is accepted after the ones before it.
pub open spec fn is_valid_chain<H: HashPort, S: SamplingPort>(
    config: ChainConfig,
    hasher: H,
    sampler: S,
    blocks: Seq<BlockView>,
) -> bool {
    forall|i: int|
        #![trigger blocks[i]]
        0 <= i < blocks.len() ==> validation::spec_validate(
            config,
            hasher,
            sampler,
            context_after(hasher, blocks.take(i)),
            blocks[i],
        ) is Ok
}

/// A chain that grows by accepted blocks.
#[derive(Debug)]
pub struct ChainState {
    config: ChainConfig,
    blocks: Vec<Block>,
}

/// What a chain holds.
#[verifier::ext_equal]
pub struct ChainView {
    pub config: ChainConfig,
    pub blocks: Seq<BlockView>,
}

impl View for ChainState {
    type V = ChainView;

    closed spec fn view(&self) -> ChainView {
        ChainView { config: self.config, blocks: block_views(self.blocks@) }
    }
}

impl Clone for ChainState {
    fn clone(&self) -> (copy: Self)
        ensures
            copy@ == self@,
    {
        ChainState { config: self.config, blocks: copy_blocks(self.blocks.as_slice()) }
    }
}

/// Copies the blocks of a list.
pub fn copy_blocks(blocks: &[Block]) -> (copy: Vec<Block>)
    ensures
        block_views(copy@) == block_views(blocks@),
        copy@.len() == blocks@.len(),
{
    let mut copy: Vec<Block> = Vec::new();
    let mut index: usize = 0;
    while index < blocks.len()
        invariant
            index <= blocks@.len(),
            copy@.len() == index,
            block_views(copy@) == block_views(blocks@).take(index as int),
        decreases blocks@.len() - index,
    {
        let ghost before: Seq<Block> = copy@;
        copy.push(blocks[index].clone());
        index += 1;
        assert(block_views(copy@) =~= block_views(before).push(blocks@[index - 1]@));
        assert(block_views(blocks@).take(index as int) =~= block_views(blocks@).take(
            index - 1,
        ).push(blocks@[index - 1]@));
    }
    assert(block_views(blocks@).take(index as int) =~= block_views(blocks@));
    copy
}

impl ChainState {
    /// The empty chain.
    pub fn new(config: ChainConfig) -> (chain: Self)
        ensures
            chain@ == (ChainView { config, blocks: Seq::empty() }),
    {
        let chain: ChainState = ChainState { config, blocks: Vec::new() };
        assert(chain@.blocks =~= Seq::<BlockView>::empty());
        chain
    }

    pub fn config(&self) -> (config: &ChainConfig)
        ensures
            *config == self@.config,
    {
        &self.config
    }

    /// The number of blocks.
    pub fn height(&self) -> (height: u64)
        ensures
            height == self@.blocks.len(),
    {
        self.blocks.len() as u64
    }

    /// The blocks, oldest first.
    pub fn blocks(&self) -> (blocks: &[Block])
        ensures
            block_views(blocks@) == self@.blocks,
    {
        self.blocks.as_slice()
    }

    /// The model that the chain has reached.
    pub fn current_model(&self) -> (model: ModelState)
        ensures
            model == (if self@.blocks.len() == 0 {
                ModelState::spec_genesis()
            } else {
                self@.blocks.last().header.model_after
            }),
    {
        let count: usize = self.blocks.len();
        if count == 0 {
            ModelState::genesis()
        } else {
            self.blocks[count - 1].header.model_after
        }
    }

    /// The hash of the last block; zero where there is none.
    pub fn head_hash<H: HashPort>(&self, hasher: &H) -> (hash: Digest)
        ensures
            hash == (if self@.blocks.len() == 0 {
                Digest::spec_zero()
            } else {
                validation::header_hash(*hasher, self@.blocks.last().header)
            }),
    {
        let count: usize = self.blocks.len();
        if count == 0 {
            Digest::zero()
        } else {
            block_hash(hasher, &self.blocks[count - 1])
        }
    }

    /// What the next block builds on.
    fn head_context<H: HashPort>(&self, hasher: &H) -> (context: ParentContext)
        ensures
            context == context_after(*hasher, self@.blocks),
    {
        ParentContext {
            height: self.height(),
            hash: self.head_hash(hasher),
            model: self.current_model(),
        }
    }

    /// Mines the next block, where some nonce gives it enough work.
    pub fn try_mine_next_block<H, S>(
        &self,
        hasher: &H,
        sampler: &S,
        training_seed: u64,
        sampling_entropy: u64,
    ) -> (mined: Option<Block>) where H: HashPort, S: SamplingPort
        ensures
            match mined {
                Some(block) => mining::is_mined_block(
                    *hasher,
                    self@.config,
                    context_after(*hasher, self@.blocks),
                    training_seed,
                    sampling_entropy,
                    block@,
                ),
                None => !mining::is_minable(
                    *hasher,
                    mining::next_header(
                        *hasher,
                        self@.config,
                        context_after(*hasher, self@.blocks),
                        training_seed,
                        sampling_entropy,
                    ),
                    self@.config.difficulty_zero_bits,
                ),
            },
    {
        let parent: ParentContext = self.head_context(hasher);
        mining::mine_after(&self.config, hasher, &parent, training_seed, sampling_entropy)
    }

    /// Mines the next block. Some nonce must give it enough work: the search does not end
    /// otherwise.
    pub fn mine_next_block<H, S>(
        &self,
        hasher: &H,
        sampler: &S,
        training_seed: u64,
        sampling_entropy: u64,
    ) -> (block: Block) where H: HashPort, S: SamplingPort
        requires
            mining::is_minable(
                *hasher,
                mining::next_header(
                    *hasher,
                    self@.config,
                    context_after(*hasher, self@.blocks),
                    training_seed,
                    sampling_entropy,
                ),
                self@.config.difficulty_zero_bits,
            ),
        ensures
            mining::is_mined_block(
                *hasher,
                self@.config,
                context_after(*hasher, self@.blocks),
                training_seed,
                sampling_entropy,
                block@,
            ),
    {
        self.try_mine_next_block(hasher, sampler, training_seed, sampling_entropy).unwrap()
    }

    /// Checks a block that is to follow the last one.
    pub fn validate_next_block<H, S>(&self, hasher: &H, sampler: &S, block: &Block) -> (verdict:
        Result<(), BlockValidationError>) where H: HashPort, S: SamplingPort
        ensures
            verdict == validation::spec_validate(
                self@.config,
                *hasher,
                *sampler,
                context_after(*hasher, self@.blocks),
                block@,
            ),
    {
        let parent: ParentContext = self.head_context(hasher);
        validate_block_after(&self.config, hasher, sampler, &parent, block)
    }

    /// Appends a block that is accepted and gives its hash; leaves the chain alone otherwise.
    pub fn apply_block<H, S>(&mut self, hasher: &H, sampler: &S, block: Block) -> (result: Result<
        Digest,
        BlockValidationError,
    >) where H: HashPort, S: SamplingPort
        ensures
            final(self)@.config == old(self)@.config,
            match validation::spec_validate(
                old(self)@.config,
                *hasher,
                *sampler,
                context_after(*hasher, old(self)@.blocks),
                block@,
            ) {
                Ok(()) => result == Ok::<Digest, BlockValidationError>(
                    validation::header_hash(*hasher, block.header),
                ) && final(self)@.blocks == old(self)@.blocks.push(block@),
                Err(error) => result == Err::<Digest, BlockValidationError>(error)
                    && final(self)@.blocks == old(self)@.blocks,
            },
    {
        match self.validate_next_block(hasher, sampler, &block) {
            Ok(()) => {},
            Err(error) => return Err(error),
        }
        let hash: Digest = block_hash(hasher, &block);
        self.blocks.push(block);
        assert(self@.blocks =~= old(self)@.blocks.push(block@));
        Ok(hash)
    }
}

/// The empty chain is valid, and a valid chain stays valid when an accepted block is appended.
pub proof fn lemma_valid_chain_grows<H: HashPort, S: SamplingPort>(
    config: ChainConfig,
    hasher: H,
    sampler: S,
    blocks: Seq<BlockView>,
    block: BlockView,
)
    requires
        is_valid_chain(config, hasher, sampler, blocks),
        validation::spec_validate(
            config,
            hasher,
            sampler,
            context_after(hasher, blocks),
            block,
        ) is Ok,
    ensures
        is_valid_chain(config, hasher, sampler, Seq::empty()),
        is_valid_chain(config, hasher, sampler, blocks.push(block)),
{
    let longer: Seq<BlockView> = blocks.push(block);
    assert forall|i: int|
        #![trigger longer[i]]
        0 <= i < longer.len() implies validation::spec_validate(
        config,
        hasher,
        sampler,
        context_after(hasher, longer.take(i)),
        longer[i],
    ) is Ok by {
        if i < blocks.len() {
            assert(longer.take(i) =~= blocks.take(i));
            assert(longer[i] == blocks[i]);
        } else {
            assert(longer.take(i) =~= blocks);
        }
    }
}

} // verus!
