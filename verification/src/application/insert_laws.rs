//! What holds of lists of blocks that are taken in one after the other.

use vstd::prelude::*;

use crate::application::chain;
use crate::application::fork_choice;
use crate::application::fork_choice::{ForkView, NodeView};
use crate::application::fork_laws;
use crate::application::validation;
use crate::application::validation::{ChainConfig, ParentContext};
use crate::domain::block::BlockView;
use crate::domain::Digest;
use crate::ports::{HashPort, SamplingPort};

verus! {

/// The state after taking in the blocks one after the other; none where one of them is refused or
/// finds no room.
pub open spec fn after_inserts<H: HashPort, S: SamplingPort>(
    state: ForkView,
    hasher: H,
    sampler: S,
    blocks: Seq<BlockView>,
) -> Option<ForkView>
    decreases blocks.len(),
{
    if blocks.len() == 0 {
        Some(state)
    } else {
        match after_inserts(state, hasher, sampler, blocks.drop_last()) {
            Some(before) => match fork_choice::spec_try_insert(
                before,
                hasher,
                sampler,
                blocks.last(),
            ) {
                Some(Ok(_)) => Some(
                    fork_choice::spec_after_insert(before, hasher, sampler, blocks.last()),
                ),
                _ => None,
            },
            None => None,
        }
    }
}

/// The hash of the block at a position of a list.
pub open spec fn hash_at<H: HashPort>(hasher: H, blocks: Seq<BlockView>, at: int) -> Digest {
    validation::header_hash(hasher, blocks[at].header)
}

/// A known block is one of the list.
pub open spec fn is_from<H: HashPort>(
    hasher: H,
    blocks: Seq<BlockView>,
    state: ForkView,
    hash: Digest,
) -> bool {
    exists|i: int|
        0 <= i < blocks.len() && #[trigger] hash_at(hasher, blocks, i) == hash
            && state.nodes[hash].block == blocks[i]
}

/// A state that holds the blocks of a list and nothing else.
pub open spec fn holds_blocks<H: HashPort>(
    hasher: H,
    blocks: Seq<BlockView>,
    state: ForkView,
) -> bool {
    &&& state.is_consistent()
    &&& forall|i: int|
        0 <= i < blocks.len() ==> state.nodes.contains_key(#[trigger] hash_at(hasher, blocks, i))
    &&& forall|hash: Digest| #[trigger]
        state.nodes.contains_key(hash) ==> is_from(hasher, blocks, state, hash)
}

/// What an accepted block leaves: itself as one more known block, or the state as it was.
proof fn lemma_accepted_block<H: HashPort, S: SamplingPort>(
    before: ForkView,
    hasher: H,
    sampler: S,
    block: BlockView,
)
    requires
        before.is_consistent(),
        fork_choice::spec_try_insert(before, hasher, sampler, block) matches Some(Ok(_)),
    ensures
        ({
            let hash: Digest = validation::header_hash(hasher, block.header);
            let after: ForkView = fork_choice::spec_after_insert(before, hasher, sampler, block);
            &&& after.is_consistent()
            &&& after.config == before.config
            &&& before.nodes.contains_key(hash) ==> after == before
            &&& !before.nodes.contains_key(hash) ==> after == before.with_block(hash, block)
        }),
{
    fork_laws::lemma_insert_keeps_consistency(before, hasher, sampler, block);
}

/// What one more block changes about the blocks that a state holds.
proof fn lemma_one_more_block<H: HashPort>(
    before: ForkView,
    after: ForkView,
    hasher: H,
    blocks: Seq<BlockView>,
)
    requires
        blocks.len() > 0,
        holds_blocks(hasher, blocks.drop_last(), before),
        after.is_consistent(),
        ({
            let hash: Digest = validation::header_hash(hasher, blocks.last().header);
            &&& before.nodes.contains_key(hash) ==> after == before
            &&& !before.nodes.contains_key(hash) ==> after == before.with_block(
                hash,
                blocks.last(),
            )
        }),
    ensures
        holds_blocks(hasher, blocks, after),
{
    let fewer: Seq<BlockView> = blocks.drop_last();
    let block: BlockView = blocks.last();
    let last: int = blocks.len() - 1;
    let hash: Digest = validation::header_hash(hasher, block.header);
    assert(hash_at(hasher, blocks, last) == hash);
    assert forall|i: int| 0 <= i < blocks.len() implies after.nodes.contains_key(
        #[trigger] hash_at(hasher, blocks, i),
    ) by {
        if i < last {
            assert(hash_at(hasher, fewer, i) == hash_at(hasher, blocks, i));
        }
    }
    assert forall|known: Digest| #[trigger] after.nodes.contains_key(known) implies is_from(
        hasher,
        blocks,
        after,
        known,
    ) by {
        if before.nodes.contains_key(known) {
            assert(is_from(hasher, fewer, before, known));
            let i: int = choose|i: int|
                0 <= i < fewer.len() && #[trigger] hash_at(hasher, fewer, i) == known
                    && before.nodes[known].block == fewer[i];
            assert(hash_at(hasher, blocks, i) == known);
        }
    }
}

/// Blocks that are taken in one after the other are known afterwards, and nothing else is.
pub proof fn lemma_inserted_blocks_are_known<H: HashPort, S: SamplingPort>(
    config: ChainConfig,
    hasher: H,
    sampler: S,
    blocks: Seq<BlockView>,
)
    requires
        after_inserts(fork_choice::nothing_known(config), hasher, sampler, blocks) is Some,
    ensures
        ({
            let state: ForkView = after_inserts(
                fork_choice::nothing_known(config),
                hasher,
                sampler,
                blocks,
            )->0;
            &&& holds_blocks(hasher, blocks, state)
            &&& state.config == config
        }),
    decreases blocks.len(),
{
    if blocks.len() > 0 {
        lemma_inserted_blocks_are_known(config, hasher, sampler, blocks.drop_last());
        let before: ForkView = after_inserts(
            fork_choice::nothing_known(config),
            hasher,
            sampler,
            blocks.drop_last(),
        )->0;
        let after: ForkView = fork_choice::spec_after_insert(
            before,
            hasher,
            sampler,
            blocks.last(),
        );
        lemma_accepted_block(before, hasher, sampler, blocks.last());
        lemma_one_more_block(before, after, hasher, blocks);
    }
}

/// Two lists hold the same blocks, whatever their order and however often.
pub open spec fn same_blocks(left: Seq<BlockView>, right: Seq<BlockView>) -> bool {
    forall|block: BlockView| #[trigger] left.contains(block) <==> right.contains(block)
}

/// Blocks of a list that share a hash share their height.
pub open spec fn hash_fixes_height<H: HashPort>(hasher: H, blocks: Seq<BlockView>) -> bool {
    forall|i: int, j: int|
        0 <= i < blocks.len() && 0 <= j < blocks.len() && #[trigger] hash_at(hasher, blocks, i)
            == #[trigger] hash_at(hasher, blocks, j) ==> blocks[i].header.height
            == blocks[j].header.height
}

/// Blocks of a list that share a hash are the same block.
pub open spec fn hash_fixes_block<H: HashPort>(hasher: H, blocks: Seq<BlockView>) -> bool {
    forall|i: int, j: int|
        0 <= i < blocks.len() && 0 <= j < blocks.len() && #[trigger] hash_at(hasher, blocks, i)
            == #[trigger] hash_at(hasher, blocks, j) ==> blocks[i] == blocks[j]
}

/// Where two states hold the same blocks, what the first knows the second knows too, at the same
/// height and with the same work.
proof fn lemma_known_in_both<H: HashPort>(
    hasher: H,
    left: Seq<BlockView>,
    right: Seq<BlockView>,
    one: ForkView,
    other: ForkView,
    hash: Digest,
)
    requires
        holds_blocks(hasher, left, one),
        holds_blocks(hasher, right, other),
        one.config == other.config,
        same_blocks(left, right),
        hash_fixes_height(hasher, left),
        one.nodes.contains_key(hash),
    ensures
        other.nodes.contains_key(hash),
        one.nodes[hash].hash == hash,
        other.nodes[hash].hash == hash,
        one.nodes[hash].next_height == other.nodes[hash].next_height,
        one.nodes[hash].work_score == other.nodes[hash].work_score,
        hash_fixes_block(hasher, left) ==> one.nodes[hash] == other.nodes[hash],
{
    assert(is_from(hasher, left, one, hash));
    let i: int = choose|i: int|
        0 <= i < left.len() && #[trigger] hash_at(hasher, left, i) == hash
            && one.nodes[hash].block == left[i];
    assert(right.contains(left[i])) by {
        assert(left.contains(left[i]));
    }
    let j: int = choose|j: int| 0 <= j < right.len() && right[j] == left[i];
    assert(hash_at(hasher, right, j) == hash);
    assert(is_from(hasher, right, other, hash));
    let k: int = choose|k: int|
        0 <= k < right.len() && #[trigger] hash_at(hasher, right, k) == hash
            && other.nodes[hash].block == right[k];
    assert(left.contains(right[k])) by {
        assert(right.contains(right[k]));
    }
    let l: int = choose|l: int| 0 <= l < left.len() && left[l] == right[k];
    assert(hash_at(hasher, left, l) == hash);
    assert(left[i].header.height == left[l].header.height);
    assert(fork_choice::node_is_consistent(one.config, one.nodes, hash));
    assert(fork_choice::node_is_consistent(other.config, other.nodes, hash));
    fork_laws::lemma_work_counts_blocks(one, hash);
    fork_laws::lemma_work_counts_blocks(other, hash);
    if hash_fixes_block(hasher, left) {
        assert(left[i] == left[l]);
        assert(one.nodes[hash] =~= other.nodes[hash]);
    }
}

/// The same blocks, taken in from nothing in any two orders in which each of them is accepted,
/// leave the same best tip. Blocks that share a hash must share their height; where they are the
/// same block, the whole state is the same.
pub proof fn lemma_insertion_order_does_not_matter<H: HashPort, S: SamplingPort>(
    config: ChainConfig,
    hasher: H,
    sampler: S,
    left: Seq<BlockView>,
    right: Seq<BlockView>,
)
    requires
        same_blocks(left, right),
        hash_fixes_height(hasher, left),
        after_inserts(fork_choice::nothing_known(config), hasher, sampler, left) is Some,
        after_inserts(fork_choice::nothing_known(config), hasher, sampler, right) is Some,
    ensures
        ({
            let start: ForkView = fork_choice::nothing_known(config);
            let one: ForkView = after_inserts(start, hasher, sampler, left)->0;
            let other: ForkView = after_inserts(start, hasher, sampler, right)->0;
            &&& one.best_tip == other.best_tip
            &&& one.spec_best_hash() == other.spec_best_hash()
            &&& one.spec_best_height() == other.spec_best_height()
            &&& one.nodes.dom() == other.nodes.dom()
            &&& hash_fixes_block(hasher, left) ==> one == other
        }),
{
    let start: ForkView = fork_choice::nothing_known(config);
    let one: ForkView = after_inserts(start, hasher, sampler, left)->0;
    let other: ForkView = after_inserts(start, hasher, sampler, right)->0;
    lemma_inserted_blocks_are_known(config, hasher, sampler, left);
    lemma_inserted_blocks_are_known(config, hasher, sampler, right);
    lemma_same_blocks_turned(hasher, left, right);
    assert forall|hash: Digest| one.nodes.contains_key(hash) == other.nodes.contains_key(hash) by {
        if one.nodes.contains_key(hash) {
            lemma_known_in_both(hasher, left, right, one, other, hash);
        }
        if other.nodes.contains_key(hash) {
            lemma_known_in_both(hasher, right, left, other, one, hash);
        }
    }
    assert(one.nodes.dom() =~= other.nodes.dom());
    if let (Some(first), Some(second)) = (one.best_tip, other.best_tip) {
        assert(one.nodes.contains_key(first) && one.nodes.contains_key(second));
        lemma_known_in_both(hasher, left, right, one, other, first);
        lemma_known_in_both(hasher, left, right, one, other, second);
        fork_choice::lemma_tips_are_ordered(
            one.nodes[first],
            one.nodes[second],
            one.nodes[second],
        );
    }
    if let Some(first) = one.best_tip {
        assert(other.nodes.contains_key(first));
    }
    if let Some(second) = other.best_tip {
        assert(one.nodes.contains_key(second));
    }
    if hash_fixes_block(hasher, left) {
        assert forall|hash: Digest| one.nodes.contains_key(hash) implies one.nodes[hash]
            == other.nodes[hash] by {
            lemma_known_in_both(hasher, left, right, one, other, hash);
        }
        assert(one.nodes =~= other.nodes);
    }
}

/// What a hash fixes in one list it fixes in every list of the same blocks.
proof fn lemma_same_blocks_turned<H: HashPort>(
    hasher: H,
    left: Seq<BlockView>,
    right: Seq<BlockView>,
)
    requires
        same_blocks(left, right),
        hash_fixes_height(hasher, left),
    ensures
        same_blocks(right, left),
        hash_fixes_height(hasher, right),
{
    assert forall|i: int, j: int|
        0 <= i < right.len() && 0 <= j < right.len() && #[trigger] hash_at(hasher, right, i)
            == #[trigger] hash_at(hasher, right, j) implies right[i].header.height
        == right[j].header.height by {
        assert(right.contains(right[i]) && right.contains(right[j]));
        assert(left.contains(right[i]) && left.contains(right[j]));
        let k: int = choose|k: int| 0 <= k < left.len() && left[k] == right[i];
        let l: int = choose|l: int| 0 <= l < left.len() && left[l] == right[j];
        assert(hash_at(hasher, left, k) == hash_at(hasher, left, l));
    }
}

/// A known block that every other known one yields to: by height, then by the bytes of the hash.
pub open spec fn is_highest(state: ForkView, best: Digest) -> bool {
    &&& state.nodes.contains_key(best)
    &&& forall|hash: Digest| #[trigger]
        state.nodes.contains_key(hash) && hash != best ==> {
            ||| state.nodes[hash].block.header.height < state.nodes[best].block.header.height
            ||| state.nodes[hash].block.header.height == state.nodes[best].block.header.height
                && fork_choice::bytes_greater_from(best@, hash@, 0)
        }
}

/// The best hash is zero where nothing is known. Otherwise it is that of the highest known block,
/// and among several of that height of the one with the greatest hash; no known block is better.
pub proof fn lemma_best_is_highest(state: ForkView)
    requires
        state.is_consistent(),
    ensures
        match state.best_tip {
            Some(best) => {
                &&& state.spec_best_hash() == best
                &&& is_highest(state, best)
                &&& forall|hash: Digest| #[trigger]
                    state.nodes.contains_key(hash) ==> !fork_choice::spec_is_better(
                        state.nodes[hash],
                        state.nodes[best],
                    )
            },
            None => state.spec_best_hash() == Digest::spec_zero() && state.nodes.dom()
                =~= Set::empty(),
        },
{
    if let Some(best) = state.best_tip {
        assert(fork_choice::node_is_consistent(state.config, state.nodes, best));
        fork_laws::lemma_work_counts_blocks(state, best);
        assert forall|hash: Digest| #[trigger] state.nodes.contains_key(hash) implies (hash != best
            ==> state.nodes[hash].block.header.height < state.nodes[best].block.header.height || (
        state.nodes[hash].block.header.height == state.nodes[best].block.header.height
            && fork_choice::bytes_greater_from(best@, hash@, 0)))
            && !fork_choice::spec_is_better(state.nodes[hash], state.nodes[best]) by {
            assert(fork_choice::node_is_consistent(state.config, state.nodes, hash));
            fork_laws::lemma_work_counts_blocks(state, hash);
            fork_laws::lemma_best_is_longest(state, hash);
            fork_choice::lemma_tips_are_ordered(
                state.nodes[best],
                state.nodes[hash],
                state.nodes[hash],
            );
        }
    } else {
        assert forall|hash: Digest| !state.nodes.dom().contains(hash) by {
            assert(!state.nodes.contains_key(hash));
        }
    }
}

/// A block of the list has this hash, and every other one yields to it: by height, then by the
/// bytes of the hash.
pub open spec fn is_highest_of<H: HashPort>(
    hasher: H,
    blocks: Seq<BlockView>,
    best: Digest,
) -> bool {
    &&& exists|i: int| 0 <= i < blocks.len() && #[trigger] hash_at(hasher, blocks, i) == best
    &&& forall|i: int, j: int|
        #![trigger hash_at(hasher, blocks, i), hash_at(hasher, blocks, j)]
        0 <= i < blocks.len() && 0 <= j < blocks.len() && hash_at(hasher, blocks, i) == best
            && hash_at(hasher, blocks, j) != best ==> {
            ||| blocks[j].header.height < blocks[i].header.height
            ||| blocks[j].header.height == blocks[i].header.height
                && fork_choice::bytes_greater_from(best@, hash_at(hasher, blocks, j)@, 0)
        }
}

/// Once blocks have been taken in from nothing, in whatever order, the best hash is zero where
/// there were none, and otherwise that of the highest of them: among several of that height, the
/// one with the greatest hash. Blocks that share a hash must share their height.
pub proof fn lemma_best_of_inserted<H: HashPort, S: SamplingPort>(
    config: ChainConfig,
    hasher: H,
    sampler: S,
    blocks: Seq<BlockView>,
)
    requires
        hash_fixes_height(hasher, blocks),
        after_inserts(fork_choice::nothing_known(config), hasher, sampler, blocks) is Some,
    ensures
        ({
            let best: Digest = after_inserts(
                fork_choice::nothing_known(config),
                hasher,
                sampler,
                blocks,
            )->0.spec_best_hash();
            &&& blocks.len() == 0 ==> best == Digest::spec_zero()
            &&& blocks.len() > 0 ==> is_highest_of(hasher, blocks, best)
        }),
{
    let start: ForkView = fork_choice::nothing_known(config);
    let state: ForkView = after_inserts(start, hasher, sampler, blocks)->0;
    lemma_inserted_blocks_are_known(config, hasher, sampler, blocks);
    if blocks.len() > 0 {
        assert(state.nodes.contains_key(hash_at(hasher, blocks, 0)));
        let best: Digest = state.best_tip->0;
        assert(state.nodes.contains_key(best));
        assert(is_from(hasher, blocks, state, best));
        lemma_best_is_highest(state);
        assert forall|i: int| 0 <= i < blocks.len() implies blocks[i].header.height
            == state.nodes[#[trigger] hash_at(hasher, blocks, i)].block.header.height by {
            let hash: Digest = hash_at(hasher, blocks, i);
            assert(is_from(hasher, blocks, state, hash));
            let k: int = choose|k: int|
                0 <= k < blocks.len() && #[trigger] hash_at(hasher, blocks, k) == hash
                    && state.nodes[hash].block == blocks[k];
            assert(blocks[i].header.height == blocks[k].header.height);
        }
    }
}

/// No two blocks of the list share a hash.
pub open spec fn hashes_differ<H: HashPort>(hasher: H, blocks: Seq<BlockView>) -> bool {
    forall|i: int, j: int|
        0 <= i < j < blocks.len() ==> #[trigger] hash_at(hasher, blocks, i) != #[trigger] hash_at(
            hasher,
            blocks,
            j,
        )
}

/// No block that another one follows hashes to zero, which marks the start of a branch.
pub open spec fn parents_are_not_zero<H: HashPort>(hasher: H, blocks: Seq<BlockView>) -> bool {
    forall|i: int|
        0 <= i < blocks.len() - 1 ==> #[trigger] hash_at(hasher, blocks, i) != Digest::spec_zero()
}

/// So many blocks still have heights and a work score within the word sizes.
pub open spec fn chain_fits(config: ChainConfig, count: nat) -> bool {
    &&& count <= u64::MAX
    &&& count * fork_choice::block_work(config.difficulty_zero_bits) <= u128::MAX
}

/// A state that holds the first blocks of a chain as its best branch, and nothing else.
pub open spec fn follows_chain<H: HashPort>(
    hasher: H,
    blocks: Seq<BlockView>,
    state: ForkView,
) -> bool {
    &&& holds_blocks(hasher, blocks, state)
    &&& state.spec_best_chain() == blocks
    &&& state.spec_best_height() == blocks.len()
    &&& blocks.len() == 0 ==> state.best_tip is None
    &&& blocks.len() > 0 ==> state.best_tip == Some(
        validation::header_hash(hasher, blocks.last().header),
    ) && state.nodes[state.best_tip->0].block == blocks.last()
}

/// The next block of a valid chain finds its parent in a state that holds the blocks before it.
proof fn lemma_next_finds_parent<H: HashPort, S: SamplingPort>(
    config: ChainConfig,
    hasher: H,
    sampler: S,
    blocks: Seq<BlockView>,
    before: ForkView,
)
    requires
        blocks.len() > 0,
        chain::is_valid_chain(config, hasher, sampler, blocks),
        hashes_differ(hasher, blocks),
        parents_are_not_zero(hasher, blocks),
        chain_fits(config, blocks.len()),
        before.config == config,
        follows_chain(hasher, blocks.drop_last(), before),
    ensures
        ({
            let block: BlockView = blocks.last();
            let previous: Digest = block.header.previous_block;
            let hash: Digest = validation::header_hash(hasher, block.header);
            &&& !before.nodes.contains_key(hash)
            &&& before.knows(previous)
            &&& before.has_room_on(previous)
            &&& fork_choice::context_on(before.nodes, previous) == chain::context_after(
                hasher,
                blocks.drop_last(),
            )
            &&& block.header.height == blocks.len() - 1
            &&& previous == before.spec_best_hash()
            &&& blocks.len() == 1 <==> previous == Digest::spec_zero()
            &&& validation::spec_validate(
                config,
                hasher,
                sampler,
                fork_choice::context_on(before.nodes, previous),
                block,
            ) is Ok
        }),
{
    let fewer: Seq<BlockView> = blocks.drop_last();
    let last: int = blocks.len() - 1;
    let block: BlockView = blocks.last();
    let hash: Digest = validation::header_hash(hasher, block.header);
    let previous: Digest = block.header.previous_block;
    let unit: nat = fork_choice::block_work(config.difficulty_zero_bits);
    let context: ParentContext = chain::context_after(hasher, fewer);
    assert(blocks.take(last) =~= fewer);
    assert(validation::spec_validate(config, hasher, sampler, context, blocks[last]) is Ok);
    assert(hash_at(hasher, blocks, last) == hash);
    if before.nodes.contains_key(hash) {
        assert(is_from(hasher, fewer, before, hash));
        let i: int = choose|i: int|
            0 <= i < fewer.len() && #[trigger] hash_at(hasher, fewer, i) == hash
                && before.nodes[hash].block == fewer[i];
        assert(hash_at(hasher, blocks, i) == hash);
    }
    assert(block.header.height == context.height && previous == context.hash);
    if last > 0 {
        let best: Digest = before.best_tip->0;
        assert(hash_at(hasher, blocks, last - 1) == best);
        assert(fork_choice::node_is_consistent(before.config, before.nodes, best));
        fork_laws::lemma_work_counts_blocks(before, best);
        assert((last + 1) * unit == last * unit + unit) by (nonlinear_arith);
        assert(fork_choice::context_on(before.nodes, previous) == context);
    } else {
        fork_choice::lemma_block_work(config.difficulty_zero_bits);
    }
}

/// The next block of a valid chain becomes the tip of the best branch.
proof fn lemma_next_becomes_best<H: HashPort, S: SamplingPort>(
    config: ChainConfig,
    hasher: H,
    sampler: S,
    blocks: Seq<BlockView>,
    before: ForkView,
)
    requires
        blocks.len() > 0,
        chain::is_valid_chain(config, hasher, sampler, blocks),
        hashes_differ(hasher, blocks),
        parents_are_not_zero(hasher, blocks),
        chain_fits(config, blocks.len()),
        before.config == config,
        follows_chain(hasher, blocks.drop_last(), before),
    ensures
        fork_choice::spec_try_insert(before, hasher, sampler, blocks.last()) matches Some(Ok(_)),
        ({
            let after: ForkView = fork_choice::spec_after_insert(
                before,
                hasher,
                sampler,
                blocks.last(),
            );
            &&& after.config == config
            &&& follows_chain(hasher, blocks, after)
        }),
{
    let block: BlockView = blocks.last();
    let fewer: Seq<BlockView> = blocks.drop_last();
    let hash: Digest = validation::header_hash(hasher, block.header);
    let after: ForkView = before.with_block(hash, block);
    lemma_next_finds_parent(config, hasher, sampler, blocks, before);
    assert(fork_choice::spec_after_insert(before, hasher, sampler, block) == after);
    lemma_accepted_block(before, hasher, sampler, block);
    lemma_one_more_block(before, after, hasher, blocks);
    fork_choice::lemma_block_work(config.difficulty_zero_bits);
    let node: NodeView = after.nodes[hash];
    if fewer.len() > 0 {
        let best: Digest = before.best_tip->0;
        assert(fork_choice::node_is_consistent(before.config, before.nodes, best));
        assert(after.best_tip == Some(hash));
        fork_laws::lemma_branch_survives(before, hash, block, best);
        assert(fork_choice::chain_to(after.nodes, hash) =~= fork_choice::chain_to(
            after.nodes,
            best,
        ).push(block));
        assert(fewer.push(block) =~= blocks);
    } else {
        assert(node.parent == Digest::spec_zero());
        assert(fork_choice::chain_to(after.nodes, hash) =~= blocks);
    }
}

/// A chain that is valid from its first block is taken in block by block, and is the best branch
/// afterwards. Its hashes must differ, none but the last may be zero, and there must be room.
pub proof fn lemma_valid_chain_is_taken_in<H: HashPort, S: SamplingPort>(
    config: ChainConfig,
    hasher: H,
    sampler: S,
    blocks: Seq<BlockView>,
)
    requires
        chain::is_valid_chain(config, hasher, sampler, blocks),
        hashes_differ(hasher, blocks),
        parents_are_not_zero(hasher, blocks),
        chain_fits(config, blocks.len()),
    ensures
        ({
            let reached = after_inserts(
                fork_choice::nothing_known(config),
                hasher,
                sampler,
                blocks,
            );
            &&& reached is Some
            &&& reached->0.config == config
            &&& reached->0.spec_best_chain() == blocks
            &&& reached->0.spec_best_height() == blocks.len()
            &&& reached->0.best_context() == chain::context_after(hasher, blocks)
            &&& follows_chain(hasher, blocks, reached->0)
        }),
    decreases blocks.len(),
{
    let start: ForkView = fork_choice::nothing_known(config);
    if blocks.len() > 0 {
        let fewer: Seq<BlockView> = blocks.drop_last();
        lemma_shorter_chain(config, hasher, sampler, blocks);
        lemma_valid_chain_is_taken_in(config, hasher, sampler, fewer);
        let before: ForkView = after_inserts(start, hasher, sampler, fewer)->0;
        lemma_next_becomes_best(config, hasher, sampler, blocks, before);
    } else {
        assert(start.spec_best_chain() =~= blocks);
    }
}

/// What holds of a chain holds of it without its last block.
proof fn lemma_shorter_chain<H: HashPort, S: SamplingPort>(
    config: ChainConfig,
    hasher: H,
    sampler: S,
    blocks: Seq<BlockView>,
)
    requires
        blocks.len() > 0,
        chain::is_valid_chain(config, hasher, sampler, blocks),
        hashes_differ(hasher, blocks),
        parents_are_not_zero(hasher, blocks),
        chain_fits(config, blocks.len()),
    ensures
        chain::is_valid_chain(config, hasher, sampler, blocks.drop_last()),
        hashes_differ(hasher, blocks.drop_last()),
        parents_are_not_zero(hasher, blocks.drop_last()),
        chain_fits(config, (blocks.len() - 1) as nat),
{
    let fewer: Seq<BlockView> = blocks.drop_last();
    let unit: nat = fork_choice::block_work(config.difficulty_zero_bits);
    assert forall|i: int|
        #![trigger fewer[i]]
        0 <= i < fewer.len() implies validation::spec_validate(
        config,
        hasher,
        sampler,
        chain::context_after(hasher, fewer.take(i)),
        fewer[i],
    ) is Ok by {
        assert(fewer[i] == blocks[i]);
        assert(fewer.take(i) =~= blocks.take(i));
    }
    assert forall|i: int| 0 <= i < fewer.len() implies #[trigger] hash_at(hasher, fewer, i)
        == hash_at(hasher, blocks, i) by {}
    let count: int = blocks.len() as int;
    assert((count - 1) * unit <= count * unit) by (nonlinear_arith);
}

} // verus!
