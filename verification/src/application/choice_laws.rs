//! How a chain is linked and how fork choice takes in blocks, told from the blocks and the tips.

use vstd::prelude::*;

use crate::application::block_laws;
use crate::application::chain;
use crate::application::fork_choice;
use crate::application::fork_choice::{ForkChoiceError, ForkView, NodeView};
use crate::application::fork_laws;
use crate::application::simulator_laws;
use crate::application::validation;
use crate::application::validation::{ChainConfig, ParentContext};
use crate::domain::block::BlockView;
use crate::domain::digest;
use crate::domain::model;
use crate::domain::{Digest, ModelState};
use crate::ports::{HashPort, SamplingPort};

verus! {

/// A digest of zero bytes only.
pub open spec fn is_zero(held: Digest) -> bool {
    forall|i: int| 0 <= i < 32 ==> #[trigger] held@[i] == 0
}

/// The zero digest is the one with zero bytes only.
pub proof fn lemma_zero_is_zero_bytes(held: Digest)
    ensures
        held == Digest::spec_zero() <==> is_zero(held),
{
    broadcast use digest::lemma_digest_len;

    simulator_laws::lemma_genesis_values();
    if is_zero(held) {
        assert(held@ =~= Digest::spec_zero()@);
        digest::lemma_digest_ext(held, Digest::spec_zero());
    }
}

/// What builds on blocks: their number, the hash of the last and the model it reached; of none,
/// zero and the eight genesis weights.
pub open spec fn is_context<H: HashPort>(
    hasher: H,
    blocks: Seq<BlockView>,
    context: ParentContext,
) -> bool {
    &&& context.height == blocks.len()
    &&& if blocks.len() == 0 {
        &&& is_zero(context.hash)
        &&& context.model@ == seq![120i64, -80i64, 45i64, 210i64, -135i64, 65i64, 15i64, -30i64]
    } else {
        &&& context.hash == validation::header_hash(hasher, blocks[blocks.len() - 1].header)
        &&& context.model == blocks[blocks.len() - 1].header.model_after
    }
}

/// A chain of any length hands its number of blocks, its last hash and its last model on.
pub proof fn lemma_context_follows_chain<H: HashPort>(hasher: H, blocks: Seq<BlockView>)
    requires
        blocks.len() <= u64::MAX,
    ensures
        is_context(hasher, blocks, chain::context_after(hasher, blocks)),
{
    simulator_laws::lemma_genesis_values();
}

/// A chain is valid exactly where every block, from the first to the last, shows all that it has to
/// after the blocks before it.
pub proof fn lemma_valid_chain_is_acceptable<H: HashPort, S: SamplingPort>(
    config: ChainConfig,
    hasher: H,
    sampler: S,
    blocks: Seq<BlockView>,
)
    ensures
        chain::is_valid_chain(config, hasher, sampler, blocks) <==> forall|i: int|
            #![trigger blocks[i]]
            0 <= i < blocks.len() ==> block_laws::is_acceptable(
                config,
                hasher,
                sampler,
                chain::context_after(hasher, blocks.take(i)),
                blocks[i],
            ),
{
    assert forall|i: int| 0 <= i < blocks.len() implies validation::spec_validate(
        config,
        hasher,
        sampler,
        chain::context_after(hasher, blocks.take(i)),
        #[trigger] blocks[i],
    ) is Ok == block_laws::is_acceptable(
        config,
        hasher,
        sampler,
        chain::context_after(hasher, blocks.take(i)),
        blocks[i],
    ) by {
        block_laws::lemma_accepted_block_is_acceptable(
            config,
            hasher,
            sampler,
            chain::context_after(hasher, blocks.take(i)),
            blocks[i],
        );
    }
}

/// In a valid chain every block declares its position, names the hash of the block before it and
/// starts from the model that one reached; the first starts from zero and the genesis weights.
pub proof fn lemma_valid_chain_is_linked<H: HashPort, S: SamplingPort>(
    config: ChainConfig,
    hasher: H,
    sampler: S,
    blocks: Seq<BlockView>,
    at: int,
)
    requires
        chain::is_valid_chain(config, hasher, sampler, blocks),
        0 <= at < blocks.len() <= u64::MAX,
    ensures
        blocks[at].header.height == at,
        at > 0 ==> blocks[at].header.previous_block == validation::header_hash(
            hasher,
            blocks[at - 1].header,
        ) && blocks[at].header.model_before == blocks[at - 1].header.model_after,
        at == 0 ==> is_zero(blocks[at].header.previous_block) && blocks[at].header.model_before@
            == seq![120i64, -80i64, 45i64, 210i64, -135i64, 65i64, 15i64, -30i64],
{
    let before: Seq<BlockView> = blocks.take(at);
    let context: ParentContext = chain::context_after(hasher, before);
    lemma_context_follows_chain(hasher, before);
    assert(validation::spec_validate(config, hasher, sampler, context, blocks[at]) is Ok);
    block_laws::lemma_accepted_block_is_acceptable(config, hasher, sampler, context, blocks[at]);
    if at > 0 {
        assert(before[at - 1] == blocks[at - 1]);
    }
}

/// One bit more of difficulty doubles the work that a block stands for, from one up to 120 bits;
/// beyond that it stays.
pub proof fn lemma_difficulty_doubles_work(bits: u32)
    ensures
        fork_choice::block_work(0) == 1,
        bits < 120 ==> fork_choice::block_work((bits + 1) as u32) == 2 * fork_choice::block_work(
            bits,
        ),
        bits >= 120 ==> fork_choice::block_work(bits) == fork_choice::block_work(120),
{
    vstd::arithmetic::power2::lemma2_to64();
    if bits < 120 {
        vstd::arithmetic::power2::lemma_pow2_unfold((bits + 1) as nat);
    }
}

/// The bytes of the left hash are greater at the first place where the two differ.
pub open spec fn is_greater_at(left: Digest, right: Digest, at: int) -> bool {
    &&& 0 <= at < 32
    &&& left@[at] > right@[at]
    &&& forall|i: int| 0 <= i < at ==> left@[i] == right@[i]
}

/// More work wins; with equal work the greater height; with equal height too the greater hash.
pub open spec fn beats(candidate: NodeView, best: NodeView) -> bool {
    ||| candidate.work_score > best.work_score
    ||| candidate.work_score == best.work_score && candidate.next_height > best.next_height
    ||| candidate.work_score == best.work_score && candidate.next_height == best.next_height
        && exists|at: int| #[trigger] is_greater_at(candidate.hash, best.hash, at)
}

proof fn lemma_greater_from(left: Digest, right: Digest, from: nat)
    requires
        from <= 32,
        forall|i: int| 0 <= i < from ==> left@[i] == right@[i],
    ensures
        fork_choice::bytes_greater_from(left@, right@, from) <==> exists|at: int| #[trigger]
            is_greater_at(left, right, at),
    decreases 32 - from,
{
    broadcast use digest::lemma_digest_len;

    if from < 32 {
        if left@[from as int] == right@[from as int] {
            lemma_greater_from(left, right, from + 1);
        } else if left@[from as int] > right@[from as int] {
            assert(is_greater_at(left, right, from as int));
        } else {
            assert forall|at: int| !#[trigger] is_greater_at(left, right, at) by {
                if at > from {
                    assert(left@[from as int] != right@[from as int]);
                }
            }
        }
    } else {
        assert forall|at: int| !#[trigger] is_greater_at(left, right, at) by {}
    }
}

/// The better of two tips is the one that beats the other.
pub proof fn lemma_better_tip_beats(candidate: NodeView, best: NodeView)
    ensures
        fork_choice::spec_is_better(candidate, best) <==> beats(candidate, best),
{
    lemma_greater_from(candidate.hash, best.hash, 0);
}

/// What a block on top of a known one builds on.
pub open spec fn is_context_on(state: ForkView, previous: Digest, context: ParentContext) -> bool {
    if is_zero(previous) {
        &&& context.height == 0
        &&& is_zero(context.hash)
        &&& context.model@ == seq![120i64, -80i64, 45i64, 210i64, -135i64, 65i64, 15i64, -30i64]
    } else {
        &&& context.height == state.nodes[previous].next_height
        &&& context.hash == state.nodes[previous].hash
        &&& context.model == state.nodes[previous].block.header.model_after
    }
}

/// The work of the branch that a block extends.
pub open spec fn work_before(state: ForkView, previous: Digest) -> int {
    if is_zero(previous) {
        0
    } else {
        state.nodes[previous].work_score as int
    }
}

/// A block is new, and its parent is known or marks the start of a branch.
pub open spec fn is_placeable<H: HashPort>(hasher: H, state: ForkView, block: BlockView) -> bool {
    &&& !state.nodes.contains_key(validation::header_hash(hasher, block.header))
    &&& is_zero(block.header.previous_block) || state.nodes.contains_key(
        block.header.previous_block,
    )
}

/// What an arriving block is answered: its hash where it is known already; that its parent is not
/// known; what it breaks on top of its parent; or its hash.
pub proof fn lemma_insert_answer_is_exact<H: HashPort, S: SamplingPort>(
    state: ForkView,
    hasher: H,
    sampler: S,
    block: BlockView,
    context: ParentContext,
)
    requires
        is_context_on(state, block.header.previous_block, context),
    ensures
        ({
            let hash: Digest = validation::header_hash(hasher, block.header);
            let previous: Digest = block.header.previous_block;
            let answer: Result<Digest, ForkChoiceError> = fork_choice::spec_insert(
                state,
                hasher,
                sampler,
                block,
            );
            &&& state.nodes.contains_key(hash) ==> answer == Ok::<Digest, ForkChoiceError>(hash)
            &&& !state.nodes.contains_key(hash) && !is_placeable(hasher, state, block) ==> answer
                == Err::<Digest, ForkChoiceError>(
                ForkChoiceError::UnknownParent { previous_block: previous },
            )
            &&& is_placeable(hasher, state, block) ==> answer == match validation::spec_validate(
                state.config,
                hasher,
                sampler,
                context,
                block,
            ) {
                Ok(()) => Ok::<Digest, ForkChoiceError>(hash),
                Err(error) => Err::<Digest, ForkChoiceError>(ForkChoiceError::InvalidBlock(error)),
            }
        }),
{
    let previous: Digest = block.header.previous_block;
    lemma_zero_is_zero_bytes(previous);
    lemma_context_on_is_told(state, previous, context);
}

/// A told context is the one that validation uses.
pub proof fn lemma_context_on_is_told(state: ForkView, previous: Digest, context: ParentContext)
    ensures
        is_context_on(state, previous, context) <==> context == fork_choice::context_on(
            state.nodes,
            previous,
        ),
{
    let used: ParentContext = fork_choice::context_on(state.nodes, previous);
    simulator_laws::lemma_genesis_values();
    lemma_zero_is_zero_bytes(previous);
    lemma_zero_is_zero_bytes(context.hash);
    lemma_zero_is_zero_bytes(Digest::spec_zero());
    if context.model@ == ModelState::spec_genesis()@ {
        model::lemma_model_ext(context.model, ModelState::spec_genesis());
    }
}

/// The state with one more known block: its place follows from the block and its parent, everything
/// else that was known stays, and it is the best tip where it beats the one before.
pub open spec fn has_one_more(
    before: ForkView,
    after: ForkView,
    hash: Digest,
    block: BlockView,
) -> bool {
    let node: NodeView = after.nodes[hash];
    &&& after.config == before.config
    &&& forall|known: Digest| #[trigger]
        after.nodes.contains_key(known) <==> known == hash || before.nodes.contains_key(known)
    &&& forall|known: Digest|
        known != hash && before.nodes.contains_key(known) ==> #[trigger] after.nodes[known]
            == before.nodes[known]
    &&& node.hash == hash
    &&& node.parent == block.header.previous_block
    &&& node.block == block
    &&& node.next_height == block.header.height + 1
    &&& node.work_score == work_before(before, block.header.previous_block)
        + fork_choice::block_work(before.config.difficulty_zero_bits)
    &&& after.best_tip == if before.best_tip is None || beats(
        node,
        before.nodes[before.best_tip->0],
    ) {
        Some(hash)
    } else {
        before.best_tip
    }
}

/// An arriving block changes what is known exactly where it is new and accepted, and then by itself
/// alone.
pub proof fn lemma_insert_change_is_exact<H: HashPort, S: SamplingPort>(
    state: ForkView,
    hasher: H,
    sampler: S,
    block: BlockView,
)
    requires
        fork_choice::has_room_for(state, hasher, sampler, block),
    ensures
        ({
            let hash: Digest = validation::header_hash(hasher, block.header);
            let after: ForkView = fork_choice::spec_after_insert(state, hasher, sampler, block);
            if !state.nodes.contains_key(hash) && fork_choice::spec_insert(
                state,
                hasher,
                sampler,
                block,
            ) is Ok {
                has_one_more(state, after, hash, block)
            } else {
                after == state
            }
        }),
{
    let hash: Digest = validation::header_hash(hasher, block.header);
    let previous: Digest = block.header.previous_block;
    let after: ForkView = fork_choice::spec_after_insert(state, hasher, sampler, block);
    if fork_choice::is_taken_in(state, hasher, sampler, block) {
        let node: NodeView = state.node_for(hash, block);
        lemma_zero_is_zero_bytes(previous);
        block_laws::lemma_accepted_block_is_acceptable(
            state.config,
            hasher,
            sampler,
            fork_choice::context_on(state.nodes, previous),
            block,
        );
        if state.best_tip is Some {
            lemma_better_tip_beats(node, state.nodes[state.best_tip->0]);
        }
        assert(after.nodes[hash] == node);
    }
}

/// An arriving block finds no answer exactly where it is new and accepted and its height or its
/// work does not fit; then nothing changes. Else the answer and the change are those of taking it
/// in.
pub proof fn lemma_missing_room_is_exact<H: HashPort, S: SamplingPort>(
    state: ForkView,
    hasher: H,
    sampler: S,
    block: BlockView,
)
    ensures
        ({
            let hash: Digest = validation::header_hash(hasher, block.header);
            let previous: Digest = block.header.previous_block;
            let answer: Option<Result<Digest, ForkChoiceError>> = fork_choice::spec_try_insert(
                state,
                hasher,
                sampler,
                block,
            );
            let after: ForkView = fork_choice::spec_after_try(state, hasher, sampler, block);
            let full: bool = block.header.height == u64::MAX || work_before(state, previous)
                + fork_choice::block_work(state.config.difficulty_zero_bits) > u128::MAX;
            &&& answer is None <==> !state.nodes.contains_key(hash) && fork_choice::spec_insert(
                state,
                hasher,
                sampler,
                block,
            ) is Ok && full
            &&& answer is None ==> after == state
            &&& answer is Some ==> answer->0 == fork_choice::spec_insert(
                state,
                hasher,
                sampler,
                block,
            ) && after == fork_choice::spec_after_insert(state, hasher, sampler, block)
                && fork_choice::has_room_for(state, hasher, sampler, block)
        }),
{
    let previous: Digest = block.header.previous_block;
    lemma_zero_is_zero_bytes(previous);
    if fork_choice::is_taken_in(state, hasher, sampler, block) {
        block_laws::lemma_accepted_block_is_acceptable(
            state.config,
            hasher,
            sampler,
            fork_choice::context_on(state.nodes, previous),
            block,
        );
    }
}

/// A fork choice that has taken in nothing knows nothing and builds on zero and the genesis
/// weights; any other builds on its best tip.
pub proof fn lemma_best_is_told(state: ForkView, config: ChainConfig)
    ensures
        ({
            let fresh: ForkView = fork_choice::nothing_known(config);
            &&& fresh.config == config
            &&& fresh.best_tip is None
            &&& forall|hash: Digest| !#[trigger] fresh.nodes.contains_key(hash)
        }),
        state.best_tip is None ==> {
            &&& state.spec_best_height() == 0
            &&& is_zero(state.spec_best_hash())
            &&& state.spec_best_model()@ == seq![
                120i64,
                -80i64,
                45i64,
                210i64,
                -135i64,
                65i64,
                15i64,
                -30i64,
            ]
            &&& state.spec_best_chain().len() == 0
        },
        state.best_tip matches Some(best) ==> {
            &&& state.spec_best_height() == state.nodes[best].next_height
            &&& state.spec_best_hash() == best
            &&& state.spec_best_model() == state.nodes[best].block.header.model_after
        },
        state.best_context().height == state.spec_best_height(),
        state.best_context().hash == state.spec_best_hash(),
        state.best_context().model == state.spec_best_model(),
{
    simulator_laws::lemma_genesis_values();
}

/// The best branch has as many blocks as its tip counts, ends in the block of the tip, starts from
/// zero, and leads from each block to the known block that it names as its parent. No known block
/// beats the tip.
pub proof fn lemma_best_chain_leads_to_best(state: ForkView, best: Digest, other: Digest)
    requires
        state.is_consistent(),
        state.best_tip == Some(best),
    ensures
        ({
            let blocks: Seq<BlockView> = state.spec_best_chain();
            &&& blocks.len() == state.nodes[best].next_height
            &&& blocks.len() > 0
            &&& blocks[blocks.len() - 1] == state.nodes[best].block
            &&& is_zero(blocks[0].header.previous_block)
            &&& forall|i: int|
                0 <= i < blocks.len() ==> (#[trigger] blocks[i]).header.height == i
            &&& forall|i: int|
                #![trigger blocks[i]]
                0 < i < blocks.len() ==> state.nodes.contains_key(blocks[i].header.previous_block)
                    && state.nodes[blocks[i].header.previous_block].block == blocks[i - 1]
        }),
        state.nodes.contains_key(best),
        state.nodes.contains_key(other) && other != best ==> beats(
            state.nodes[best],
            state.nodes[other],
        ),
{
    fork_laws::lemma_branch_is_linked(state, best);
    assert(fork_choice::node_is_consistent(state.config, state.nodes, best));
    simulator_laws::lemma_genesis_values();
    if state.nodes.contains_key(other) && other != best {
        lemma_better_tip_beats(state.nodes[best], state.nodes[other]);
    }
}

} // verus!
