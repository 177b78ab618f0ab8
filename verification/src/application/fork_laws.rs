//! What holds of fork choice as a whole: branches, validity, the choice of the best tip.

use vstd::prelude::*;

use crate::adapters;
use crate::adapters::DeterministicSampler;
use crate::application::chain;
use crate::application::fork_choice;
use crate::application::fork_choice::{ForkView, NodeView};
use crate::application::mining;
use crate::application::validation;
use crate::application::validation::ParentContext;
use crate::domain::block::BlockView;
use crate::domain::Digest;
use crate::ports::{HashPort, SamplingPort};

verus! {

/// A branch is linked from its first block to its tip: it has as many blocks as the tip counts,
/// each declares its position, and each but the first names the one before it.
pub proof fn lemma_branch_is_linked(state: ForkView, tip: Digest)
    requires
        state.is_consistent(),
        state.nodes.contains_key(tip),
    ensures
        ({
            let branch: Seq<BlockView> = fork_choice::chain_to(state.nodes, tip);
            &&& branch.len() == state.nodes[tip].next_height
            &&& branch.last() == state.nodes[tip].block
            &&& branch[0].header.previous_block == Digest::spec_zero()
            &&& forall|i: int|
                0 <= i < branch.len() ==> (#[trigger] branch[i]).header.height == i
            &&& forall|i: int|
                #![trigger branch[i]]
                0 < i < branch.len() ==> state.nodes.contains_key(branch[i].header.previous_block)
                    && state.nodes[branch[i].header.previous_block].block == branch[i - 1]
        }),
    decreases state.nodes[tip].next_height,
{
    let node: NodeView = state.nodes[tip];
    assert(fork_choice::node_is_consistent(state.config, state.nodes, tip));
    if node.parent != Digest::spec_zero() {
        assert(fork_choice::node_is_consistent(state.config, state.nodes, node.parent));
        lemma_branch_is_linked(state, node.parent);
        let shorter: Seq<BlockView> = fork_choice::chain_to(state.nodes, node.parent);
        let branch: Seq<BlockView> = fork_choice::chain_to(state.nodes, tip);
        assert(branch == shorter.push(node.block));
        assert forall|i: int| 0 <= i < branch.len() implies (#[trigger] branch[i]).header.height
            == i by {
            if i < shorter.len() {
                assert(branch[i] == shorter[i]);
            }
        }
        assert forall|i: int|
            #![trigger branch[i]]
            0 < i < branch.len() implies state.nodes.contains_key(branch[i].header.previous_block)
            && state.nodes[branch[i].header.previous_block].block == branch[i - 1] by {
            if i < shorter.len() {
                assert(branch[i] == shorter[i]);
                assert(branch[i - 1] == shorter[i - 1]);
            }
        }
    }
}

/// Every known block was accepted after its parent, under its own hash.
pub open spec fn all_accepted<H: HashPort, S: SamplingPort>(
    state: ForkView,
    hasher: H,
    sampler: S,
) -> bool {
    forall|hash: Digest| #[trigger]
        state.nodes.contains_key(hash) ==> is_accepted(state, hasher, sampler, hash)
}

/// A known block was accepted after its parent, under its own hash.
pub open spec fn is_accepted<H: HashPort, S: SamplingPort>(
    state: ForkView,
    hasher: H,
    sampler: S,
    hash: Digest,
) -> bool {
    let node: NodeView = state.nodes[hash];
    &&& validation::header_hash(hasher, node.block.header) == hash
    &&& validation::spec_validate(
        state.config,
        hasher,
        sampler,
        fork_choice::context_on(state.nodes, node.parent),
        node.block,
    ) is Ok
}

/// Taking in blocks, accepted or refused, keeps every known block an accepted one.
pub proof fn lemma_insert_keeps_blocks_accepted<H: HashPort, S: SamplingPort>(
    state: ForkView,
    hasher: H,
    sampler: S,
    block: BlockView,
)
    requires
        state.is_consistent(),
        all_accepted(state, hasher, sampler),
    ensures
        all_accepted(
            fork_choice::spec_after_insert(state, hasher, sampler, block),
            hasher,
            sampler,
        ),
{
    let after: ForkView = fork_choice::spec_after_insert(state, hasher, sampler, block);
    let hash: Digest = validation::header_hash(hasher, block.header);
    assert forall|known: Digest| #[trigger] after.nodes.contains_key(known) implies is_accepted(
        after,
        hasher,
        sampler,
        known,
    ) by {
        if after != state {
            let parent: Digest = after.nodes[known].parent;
            if known != hash {
                assert(state.nodes.contains_key(known));
                assert(is_accepted(state, hasher, sampler, known));
                assert(fork_choice::node_is_consistent(state.config, state.nodes, known));
            }
            assert(fork_choice::context_on(after.nodes, parent) == fork_choice::context_on(
                state.nodes,
                parent,
            ));
        }
    }
}

/// Every branch of accepted blocks is a valid chain, so one that a chain accepts block by block.
pub proof fn lemma_branch_is_valid<H: HashPort, S: SamplingPort>(
    state: ForkView,
    hasher: H,
    sampler: S,
    tip: Digest,
)
    requires
        state.is_consistent(),
        all_accepted(state, hasher, sampler),
        state.nodes.contains_key(tip),
    ensures
        chain::is_valid_chain(
            state.config,
            hasher,
            sampler,
            fork_choice::chain_to(state.nodes, tip),
        ),
    decreases state.nodes[tip].next_height,
{
    let node: NodeView = state.nodes[tip];
    assert(fork_choice::node_is_consistent(state.config, state.nodes, tip));
    assert(is_accepted(state, hasher, sampler, tip));
    let empty: Seq<BlockView> = Seq::empty();
    if node.parent == Digest::spec_zero() {
        assert(chain::is_valid_chain(state.config, hasher, sampler, empty));
        chain::lemma_valid_chain_grows(state.config, hasher, sampler, empty, node.block);
        assert(empty.push(node.block) =~= fork_choice::chain_to(state.nodes, tip));
    } else {
        let shorter: Seq<BlockView> = fork_choice::chain_to(state.nodes, node.parent);
        assert(fork_choice::node_is_consistent(state.config, state.nodes, node.parent));
        assert(is_accepted(state, hasher, sampler, node.parent));
        lemma_branch_is_linked(state, node.parent);
        lemma_branch_is_valid(state, hasher, sampler, node.parent);
        assert(chain::context_after(hasher, shorter) == fork_choice::context_on(
            state.nodes,
            node.parent,
        ));
        chain::lemma_valid_chain_grows(state.config, hasher, sampler, shorter, node.block);
    }
}

/// What a chain of the best branch's blocks builds on is what fork choice builds on.
pub proof fn lemma_best_chain_reaches_best<H: HashPort, S: SamplingPort>(
    state: ForkView,
    hasher: H,
    sampler: S,
)
    requires
        state.is_consistent(),
        all_accepted(state, hasher, sampler),
    ensures
        chain::is_valid_chain(state.config, hasher, sampler, state.spec_best_chain()),
        state.spec_best_chain().len() == state.spec_best_height(),
        chain::context_after(hasher, state.spec_best_chain()) == state.best_context(),
{
    match state.best_tip {
        Some(best) => {
            assert(fork_choice::node_is_consistent(state.config, state.nodes, best));
            assert(is_accepted(state, hasher, sampler, best));
            lemma_branch_is_linked(state, best);
            lemma_branch_is_valid(state, hasher, sampler, best);
        },
        None => {},
    }
}

/// The known blocks alone determine the best tip.
pub proof fn lemma_best_is_determined(left: ForkView, right: ForkView)
    requires
        left.is_consistent(),
        right.is_consistent(),
        left.nodes == right.nodes,
    ensures
        left.best_tip == right.best_tip,
{
    if let (Some(first), Some(second)) = (left.best_tip, right.best_tip) {
        assert(left.nodes.contains_key(second));
        assert(right.nodes.contains_key(first));
        fork_choice::lemma_tips_are_ordered(
            left.nodes[first],
            left.nodes[second],
            left.nodes[second],
        );
    }
    if let Some(first) = left.best_tip {
        assert(right.nodes.contains_key(first));
    }
    if let Some(second) = right.best_tip {
        assert(left.nodes.contains_key(second));
    }
}

/// A state stays consistent whatever block arrives, as long as there is room for it.
pub proof fn lemma_insert_keeps_consistency<H: HashPort, S: SamplingPort>(
    state: ForkView,
    hasher: H,
    sampler: S,
    block: BlockView,
)
    requires
        state.is_consistent(),
        fork_choice::has_room_for(state, hasher, sampler, block),
    ensures
        fork_choice::spec_after_insert(state, hasher, sampler, block).is_consistent(),
{
    if fork_choice::is_taken_in(state, hasher, sampler, block) {
        let hash: Digest = validation::header_hash(hasher, block.header);
        fork_choice::lemma_with_block(state, hash, block);
    }
}

/// Two blocks that are both acceptable now may arrive in either order: the same blocks are known
/// afterwards, and the same tip is the best.
pub proof fn lemma_arrival_order_does_not_matter<H: HashPort, S: SamplingPort>(
    state: ForkView,
    hasher: H,
    sampler: S,
    first: BlockView,
    second: BlockView,
)
    requires
        state.is_consistent(),
        fork_choice::spec_insert(state, hasher, sampler, first) is Ok,
        fork_choice::spec_insert(state, hasher, sampler, second) is Ok,
        fork_choice::has_room_for(state, hasher, sampler, first),
        fork_choice::has_room_for(state, hasher, sampler, second),
        validation::header_hash(hasher, first.header) == validation::header_hash(
            hasher,
            second.header,
        ) ==> first == second,
    ensures
        ({
            let one: ForkView = fork_choice::spec_after_insert(
                fork_choice::spec_after_insert(state, hasher, sampler, first),
                hasher,
                sampler,
                second,
            );
            let other: ForkView = fork_choice::spec_after_insert(
                fork_choice::spec_after_insert(state, hasher, sampler, second),
                hasher,
                sampler,
                first,
            );
            one == other
        }),
{
    let with_first: ForkView = fork_choice::spec_after_insert(state, hasher, sampler, first);
    let with_second: ForkView = fork_choice::spec_after_insert(state, hasher, sampler, second);
    let one: ForkView = fork_choice::spec_after_insert(with_first, hasher, sampler, second);
    let other: ForkView = fork_choice::spec_after_insert(with_second, hasher, sampler, first);
    let a: Digest = validation::header_hash(hasher, first.header);
    let b: Digest = validation::header_hash(hasher, second.header);
    if !state.nodes.contains_key(a) && !state.nodes.contains_key(b) && a != b {
        lemma_insert_keeps_consistency(state, hasher, sampler, first);
        lemma_insert_keeps_consistency(state, hasher, sampler, second);
        lemma_unrelated_insert(state, hasher, sampler, first, second);
        lemma_unrelated_insert(state, hasher, sampler, second, first);
        lemma_insert_keeps_consistency(with_first, hasher, sampler, second);
        lemma_insert_keeps_consistency(with_second, hasher, sampler, first);
        assert(one.nodes =~= other.nodes);
        lemma_best_is_determined(one, other);
    }
}

/// What an insert gives does not change when another acceptable block has come before it.
proof fn lemma_unrelated_insert<H: HashPort, S: SamplingPort>(
    state: ForkView,
    hasher: H,
    sampler: S,
    earlier: BlockView,
    block: BlockView,
)
    requires
        state.is_consistent(),
        fork_choice::spec_insert(state, hasher, sampler, earlier) is Ok,
        fork_choice::spec_insert(state, hasher, sampler, block) is Ok,
        !state.nodes.contains_key(validation::header_hash(hasher, earlier.header)),
        !state.nodes.contains_key(validation::header_hash(hasher, block.header)),
        validation::header_hash(hasher, earlier.header) != validation::header_hash(
            hasher,
            block.header,
        ),
        state.has_room_on(block.header.previous_block),
    ensures
        ({
            let between: ForkView = fork_choice::spec_after_insert(
                state,
                hasher,
                sampler,
                earlier,
            );
            let hash: Digest = validation::header_hash(hasher, block.header);
            &&& fork_choice::spec_insert(between, hasher, sampler, block) is Ok
            &&& between.knows(block.header.previous_block)
            &&& between.has_room_on(block.header.previous_block)
            &&& between.node_for(hash, block) == state.node_for(hash, block)
            &&& fork_choice::spec_after_insert(between, hasher, sampler, block).nodes
                == between.nodes.insert(hash, state.node_for(hash, block))
        }),
{
    let between: ForkView = fork_choice::spec_after_insert(state, hasher, sampler, earlier);
    let previous: Digest = block.header.previous_block;
    assert(fork_choice::context_on(between.nodes, previous) == fork_choice::context_on(
        state.nodes,
        previous,
    ));
    assert(fork_choice::work_on(between.nodes, previous) == fork_choice::work_on(
        state.nodes,
        previous,
    ));
}

/// A block that was taken in is known, and taking it in again changes nothing.
pub proof fn lemma_insert_again_changes_nothing<H: HashPort, S: SamplingPort>(
    state: ForkView,
    hasher: H,
    sampler: S,
    block: BlockView,
)
    requires
        fork_choice::spec_insert(state, hasher, sampler, block) is Ok,
    ensures
        ({
            let after: ForkView = fork_choice::spec_after_insert(state, hasher, sampler, block);
            let hash: Digest = validation::header_hash(hasher, block.header);
            &&& after.nodes.contains_key(hash)
            &&& fork_choice::spec_insert(after, hasher, sampler, block) == fork_choice::spec_insert(
                state,
                hasher,
                sampler,
                block,
            )
            &&& fork_choice::spec_after_insert(after, hasher, sampler, block) == after
        }),
{
}

/// Known blocks stay known as they are, and the best tip only gives way to a better one.
pub proof fn lemma_best_never_worsens<H: HashPort, S: SamplingPort>(
    state: ForkView,
    hasher: H,
    sampler: S,
    block: BlockView,
)
    requires
        state.is_consistent(),
    ensures
        ({
            let after: ForkView = fork_choice::spec_after_insert(state, hasher, sampler, block);
            &&& forall|hash: Digest| #[trigger]
                state.nodes.contains_key(hash) ==> after.nodes.contains_key(hash)
                    && after.nodes[hash] == state.nodes[hash]
            &&& state.best_tip matches Some(best) ==> (after.best_tip matches Some(next) && (next
                == best || fork_choice::spec_is_better(after.nodes[next], state.nodes[best])))
        }),
{
}

/// The work of a branch counts its blocks.
pub proof fn lemma_work_counts_blocks(state: ForkView, tip: Digest)
    requires
        state.is_consistent(),
        state.nodes.contains_key(tip),
    ensures
        state.nodes[tip].work_score == state.nodes[tip].next_height * fork_choice::block_work(
            state.config.difficulty_zero_bits,
        ),
    decreases state.nodes[tip].next_height,
{
    let node: NodeView = state.nodes[tip];
    let unit: nat = fork_choice::block_work(state.config.difficulty_zero_bits);
    assert(fork_choice::node_is_consistent(state.config, state.nodes, tip));
    if node.parent != Digest::spec_zero() {
        assert(fork_choice::node_is_consistent(state.config, state.nodes, node.parent));
        lemma_work_counts_blocks(state, node.parent);
        let before: int = state.nodes[node.parent].next_height as int;
        assert((before + 1) * unit == before * unit + unit) by (nonlinear_arith);
    }
}

/// No known branch is longer than the best one.
pub proof fn lemma_best_is_longest(state: ForkView, tip: Digest)
    requires
        state.is_consistent(),
        state.nodes.contains_key(tip),
    ensures
        state.nodes[tip].next_height <= state.spec_best_height(),
{
    let best: Digest = state.best_tip->0;
    let unit: nat = fork_choice::block_work(state.config.difficulty_zero_bits);
    lemma_work_counts_blocks(state, tip);
    lemma_work_counts_blocks(state, best);
    fork_choice::lemma_block_work(state.config.difficulty_zero_bits);
    if state.nodes[tip].next_height > state.nodes[best].next_height {
        let longer: int = state.nodes[tip].next_height as int;
        let shorter: int = state.nodes[best].next_height as int;
        assert(longer * unit > shorter * unit) by (nonlinear_arith)
            requires
                longer > shorter,
                unit >= 1,
        ;
    }
}

/// A block mined on the best tip is taken in, and is the best tip from then on. The best tip must
/// not hash to zero, which marks the start of a branch, and the sampler must name steps of the
/// trace.
pub proof fn lemma_mined_block_becomes_best<H: HashPort, S: SamplingPort>(
    state: ForkView,
    hasher: H,
    sampler: S,
    training_seed: u64,
    sampling_entropy: u64,
    block: BlockView,
)
    requires
        state.is_consistent(),
        state.best_tip != Some(Digest::spec_zero()),
        state.has_room_on(state.spec_best_hash()),
        mining::is_mined_block(
            hasher,
            state.config,
            state.best_context(),
            training_seed,
            sampling_entropy,
            block,
        ),
        forall|i: int|
            0 <= i < validation::block_samples(sampler, block).len()
                ==> #[trigger] validation::block_samples(sampler, block)[i]
                < state.config.steps_per_block,
        !state.nodes.contains_key(validation::header_hash(hasher, block.header)),
    ensures
        ({
            let hash: Digest = validation::header_hash(hasher, block.header);
            let after: ForkView = fork_choice::spec_after_insert(state, hasher, sampler, block);
            &&& fork_choice::spec_insert(state, hasher, sampler, block) is Ok
            &&& after.best_tip == Some(hash)
            &&& after.spec_best_height() == state.spec_best_height() + 1
            &&& after.nodes == state.nodes.insert(hash, after.nodes[hash])
        }),
{
    let context: ParentContext = state.best_context();
    let previous: Digest = block.header.previous_block;
    if let Some(best) = state.best_tip {
        assert(fork_choice::node_is_consistent(state.config, state.nodes, best));
    }
    assert(fork_choice::context_on(state.nodes, previous) == context);
    mining::lemma_mined_block_is_accepted(
        state.config,
        hasher,
        sampler,
        context,
        training_seed,
        sampling_entropy,
        block,
    );
    fork_choice::lemma_block_work(state.config.difficulty_zero_bits);
}

/// The deterministic sampler names steps of the trace only.
pub proof fn lemma_deterministic_samples_are_in_range(
    sampler: DeterministicSampler,
    block: BlockView,
    steps: usize,
)
    requires
        block.trace.entries.len() == steps,
    ensures
        forall|i: int|
            0 <= i < validation::block_samples(sampler, block).len()
                ==> #[trigger] validation::block_samples(sampler, block)[i] < steps,
{
    adapters::lemma_sample_is_sound(
        steps,
        block.header.sample_count,
        block.trace.root,
        block.header.sampling_entropy,
    );
}

/// A new block leaves every branch as it was.
pub proof fn lemma_branch_survives(state: ForkView, hash: Digest, block: BlockView, tip: Digest)
    requires
        state.is_consistent(),
        !state.nodes.contains_key(hash),
        state.nodes.contains_key(tip),
    ensures
        fork_choice::chain_to(state.with_block(hash, block).nodes, tip) == fork_choice::chain_to(
            state.nodes,
            tip,
        ),
    decreases state.nodes[tip].next_height,
{
    let parent: Digest = state.nodes[tip].parent;
    assert(fork_choice::node_is_consistent(state.config, state.nodes, tip));
    if parent != Digest::spec_zero() {
        lemma_branch_survives(state, hash, block, parent);
    }
}

} // verus!
