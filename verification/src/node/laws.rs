//! What holds between nodes, and of a node over time.

use vstd::prelude::*;

use crate::adapters::{DeterministicSampler, ToyHash};
use crate::application::chain;
use crate::application::chain::ChainView;
use crate::application::fork_choice;
use crate::application::fork_choice::ForkView;
use crate::application::fork_laws;
use crate::application::insert_laws;
use crate::application::trace;
use crate::application::ForkChoiceError;
use crate::domain::block::BlockView;
use crate::domain::Digest;
use crate::node::config;
use crate::node::config::{NodeConfigView, PeerAddr};
use crate::node::state;
use crate::node::state::{ActionView, BlockFate, BlockSource, NodeView, SyncStep};
use crate::storage;
use crate::storage::laws::after_blocks;
use crate::wire::envelope;
use crate::wire::envelope::WireView;
use crate::wire::laws;
use crate::wire::message::MessageView;

verus! {

/// A block that a node mines is new to it and becomes the head of its active chain, without a
/// reorganisation. The best tip must not hash to zero, which marks the start of a branch, and the
/// block's hash must not be that of a known block.
pub proof fn lemma_mined_block_extends_active_chain(
    node: NodeView,
    training_seed: u64,
    sampling_entropy: u64,
    block: BlockView,
)
    requires
        node.is_consistent(),
        state::is_mined_by(node, training_seed, sampling_entropy, block),
        node.forks.best_tip != Some(Digest::spec_zero()),
        node.forks.has_room_on(node.forks.spec_best_hash()),
        !node.forks.nodes.contains_key(state::block_id_of(block)),
    ensures
        state::fate_of(node.forks, block) == BlockFate::New,
        state::after_mined(node, block).active.blocks == node.active.blocks.push(block),
        state::after_mined(node, block).forks.best_tip == Some(state::block_id_of(block)),
        !state::is_reorg(node.forks, state::after_mined(node, block).forks),
{
    reveal(state::fate_of);
    reveal(state::forks_after);
    reveal(state::block_id_of);
    trace::lemma_honest_prefix(
        ToyHash,
        node.forks.best_context().model,
        training_seed,
        node.forks.config.steps_per_block as nat,
        node.forks.config.steps_per_block as nat,
    );
    fork_laws::lemma_deterministic_samples_are_in_range(
        DeterministicSampler,
        block,
        node.forks.config.steps_per_block,
    );
    fork_laws::lemma_mined_block_becomes_best(
        node.forks,
        ToyHash,
        DeterministicSampler,
        training_seed,
        sampling_entropy,
        block,
    );
    state::lemma_extension(node.forks, block);
}

/// A block that one node passes on is taken in by another node of the same network that knows the
/// same blocks: both know the same blocks afterwards, and the receiver passes the block on.
pub proof fn lemma_broadcast_block_is_shared(
    sender: NodeView,
    receiver: NodeView,
    block: BlockView,
    line: Seq<char>,
)
    requires
        sender.network.wire == receiver.network.wire,
        sender.forks == receiver.forks,
        state::fate_of(sender.forks, block) == BlockFate::New,
        line == envelope::network_text(sender.network.wire, MessageView::Block(block)) + "\n"@,
    ensures
        state::action_on(receiver, line) == ActionView::Gossip(block),
        state::after_line(receiver, line) == state::after_block(
            receiver,
            BlockSource::Gossip,
            block,
        ),
        state::after_line(receiver, line).forks == state::after_mined(sender, block).forks,
        state::after_line(receiver, line).active == state::after_mined(sender, block).active,
{
    reveal_strlit("\n");
    laws::lemma_envelope_round_trip(sender.network.wire, MessageView::Block(block), "\n"@);
}

/// A block that has been passed on is known: when it comes back, nothing changes and it is not
/// passed on again.
pub proof fn lemma_block_is_passed_on_once(node: NodeView, block: BlockView, line: Seq<char>)
    requires
        state::action_on(node, line) == ActionView::Gossip(block),
    ensures
        ({
            let after: NodeView = state::after_line(node, line);
            &&& state::action_on(after, line) == ActionView::Nothing
            &&& state::after_line(after, line) == after
        }),
{
    let after: NodeView = state::after_line(node, line);
    assert(after == state::after_block(node, BlockSource::Gossip, block));
    assert(state::fate_of(after.forks, block) == BlockFate::Known && state::forks_after(
        after.forks,
        block,
    ) == after.forks) by {
        reveal(state::fate_of);
        reveal(state::forks_after);
    }
    assert(state::after_line(after, line) =~= after);
}

/// A line from another network, protocol version or chain changes no block, no chain and no peer:
/// it is refused and counted as foreign.
pub proof fn lemma_foreign_line_is_only_counted(
    sender: NodeView,
    receiver: NodeView,
    held: MessageView,
    line: Seq<char>,
)
    requires
        sender.network.wire != receiver.network.wire,
        laws::is_carried(held),
        line == envelope::network_text(sender.network.wire, held) + "\n"@,
    ensures
        state::action_on(receiver, line) == ActionView::Nothing,
        ({
            let after: NodeView = state::after_line(receiver, line);
            &&& after.forks == receiver.forks
            &&& after.active == receiver.active
            &&& after.peers == receiver.peers
            &&& after.counters.rejected_blocks == (receiver.counters.rejected_blocks + 1) as usize
            &&& after.counters.incompatible_messages == (receiver.counters.incompatible_messages
                + 1) as usize
            &&& after.counters.malformed_messages == receiver.counters.malformed_messages
        }),
{
    reveal_strlit("\n");
    laws::lemma_foreign_envelope_is_refused(
        sender.network.wire,
        receiver.network.wire,
        held,
        "\n"@,
    );
    laws::lemma_envelope_begins(sender.network.wire, held, "\n"@);
}

/// No two blocks of the list have the same hash.
pub open spec fn have_distinct_ids(blocks: Seq<BlockView>) -> bool {
    forall|i: int, j: int|
        0 <= i < j < blocks.len() ==> #[trigger] state::block_id_of(blocks[i])
            != #[trigger] state::block_id_of(blocks[j])
}

/// The blocks of the active chain have different hashes.
pub proof fn lemma_active_hashes_differ(node: NodeView)
    requires
        node.is_consistent(),
    ensures
        have_distinct_ids(node.active.blocks),
{
    let blocks: Seq<BlockView> = node.active.blocks;
    if blocks.len() > 0 {
        let best: Digest = node.forks.best_tip->0;
        fork_laws::lemma_branch_is_linked(node.forks, best);
        assert forall|i: int, j: int|
            0 <= i < j < blocks.len() implies #[trigger] state::block_id_of(blocks[i])
            != #[trigger] state::block_id_of(blocks[j]) by {
            lemma_branch_block_is_known(node.forks, best, i);
            lemma_branch_block_is_known(node.forks, best, j);
            assert(blocks[i].header.height == i);
            assert(blocks[j].header.height == j);
        }
    }
}

/// Each block of a branch is known under its hash.
proof fn lemma_branch_block_is_known(forks: ForkView, tip: Digest, i: int)
    requires
        state::forks_are_valid(forks),
        forks.nodes.contains_key(tip),
        0 <= i < fork_choice::chain_to(forks.nodes, tip).len(),
    ensures
        ({
            let block: BlockView = fork_choice::chain_to(forks.nodes, tip)[i];
            forks.nodes.contains_key(state::block_id_of(block))
                && forks.nodes[state::block_id_of(block)].block == block
        }),
    decreases forks.nodes[tip].next_height,
{
    reveal(state::block_id_of);
    assert(fork_choice::node_is_consistent(forks.config, forks.nodes, tip));
    assert(fork_laws::is_accepted(forks, ToyHash, DeterministicSampler, tip));
    fork_laws::lemma_branch_is_linked(forks, tip);
    let branch: Seq<BlockView> = fork_choice::chain_to(forks.nodes, tip);
    if i < branch.len() - 1 {
        let parent: Digest = forks.nodes[tip].parent;
        lemma_branch_block_is_known(forks, parent, i);
        assert(branch[i] == fork_choice::chain_to(forks.nodes, parent)[i]);
    }
}

/// A block of a chain is found at its position.
proof fn lemma_position(blocks: Seq<BlockView>, at: int)
    requires
        have_distinct_ids(blocks),
        0 <= at < blocks.len(),
    ensures
        state::position_of(blocks, state::block_id_of(blocks[at])) == Some(at as nat),
    decreases blocks.len(),
{
    let last: int = blocks.len() - 1;
    if at < last {
        let fewer: Seq<BlockView> = blocks.drop_last();
        assert forall|i: int, j: int|
            0 <= i < j < fewer.len() implies #[trigger] state::block_id_of(fewer[i])
            != #[trigger] state::block_id_of(fewer[j]) by {
            assert(state::block_id_of(blocks[i]) != state::block_id_of(blocks[j]));
        }
        lemma_position(fewer, at);
        assert(fewer[at] == blocks[at]);
        assert(state::block_id_of(blocks[at]) != state::block_id_of(blocks[last]));
    }
}

/// A peer whose chain is the first part of a node's active chain is sent exactly the blocks that
/// it lacks, up to the limit of a response.
pub proof fn lemma_late_peer_gets_missing_blocks(
    node: NodeView,
    known: int,
    hashes: nat,
    limit: usize,
)
    requires
        node.is_consistent(),
        0 <= known <= node.active.blocks.len(),
        hashes > 0,
    ensures
        ({
            let blocks: Seq<BlockView> = node.active.blocks;
            let locator: Seq<Digest> = state::spec_locator(blocks.take(known), hashes);
            &&& state::resume_at(blocks, locator) == known
            &&& known + limit >= blocks.len() ==> state::window(
                blocks,
                state::resume_at(blocks, locator),
                limit as nat,
            ) == blocks.skip(known)
            &&& known + limit < blocks.len() ==> state::window(
                blocks,
                state::resume_at(blocks, locator),
                limit as nat,
            ) == blocks.subrange(known, known + limit)
        }),
{
    lemma_active_hashes_differ(node);
    lemma_resume(node.active.blocks, known, hashes);
    lemma_window(node.active.blocks, known, limit);
}

/// Where a peer with the first part of a chain resumes.
proof fn lemma_resume(blocks: Seq<BlockView>, known: int, hashes: nat)
    requires
        have_distinct_ids(blocks),
        0 <= known <= blocks.len(),
        hashes > 0,
    ensures
        state::resume_at(blocks, state::spec_locator(blocks.take(known), hashes)) == known,
{
    let locator: Seq<Digest> = state::spec_locator(blocks.take(known), hashes);
    if known > 0 {
        assert(locator[0] == state::block_id_of(blocks[known - 1]));
        lemma_position(blocks, known - 1);
    }
}

/// What a window on a chain holds.
proof fn lemma_window(blocks: Seq<BlockView>, known: int, limit: usize)
    requires
        0 <= known <= blocks.len(),
    ensures
        known + limit >= blocks.len() ==> state::window(blocks, known as nat, limit as nat)
            == blocks.skip(known),
        known + limit < blocks.len() ==> state::window(blocks, known as nat, limit as nat)
            == blocks.subrange(known, known + limit),
{
    if known + limit >= blocks.len() {
        assert(state::window(blocks, known as nat, limit as nat) =~= blocks.skip(known));
    }
}

/// A node that stored every block it took in knows the same blocks after a restart, and has the
/// same active chain.
pub proof fn lemma_restart_restores_blocks(
    settings: NodeConfigView,
    bound_addr: PeerAddr,
    lines: Seq<Seq<char>>,
    blocks: Seq<BlockView>,
)
    requires
        config::config_fault(settings) is None,
        storage::laws::stores_all(lines, blocks),
        after_blocks(fork_choice::nothing_known(settings.chain), blocks) is Some,
    ensures
        ({
            let forks: ForkView = after_blocks(
                fork_choice::nothing_known(settings.chain),
                blocks,
            )->0;
            let started = state::spec_start(
                settings,
                bound_addr,
                Some(storage::laws::log_text(lines, Seq::empty())),
            );
            &&& started is Ok
            &&& started->Ok_0.0.forks == forks
            &&& started->Ok_0.0.active == state::active_of(forks)
        }),
{
    storage::laws::lemma_log_round_trip(settings.chain, lines, blocks);
    let forks: ForkView = after_blocks(fork_choice::nothing_known(settings.chain), blocks)->0;
    lemma_peers_keep_blocks(state::fresh_node(settings, bound_addr, forks), settings.peers);
}

/// A node that stored a valid chain block by block has that chain as its active one after a
/// restart, so the same height and head; without a block there need not be a log. The hashes must
/// differ, none but the last may be zero, and there must be room.
pub proof fn lemma_restart_restores_chain(
    settings: NodeConfigView,
    bound_addr: PeerAddr,
    lines: Seq<Seq<char>>,
    blocks: Seq<BlockView>,
    log: Option<Seq<char>>,
)
    requires
        config::config_fault(settings) is None,
        storage::laws::stores_all(lines, blocks),
        chain::is_valid_chain(settings.chain, ToyHash, DeterministicSampler, blocks),
        insert_laws::hashes_differ(ToyHash, blocks),
        insert_laws::parents_are_not_zero(ToyHash, blocks),
        insert_laws::chain_fits(settings.chain, blocks.len()),
        log == Some(storage::laws::log_text(lines, Seq::empty())) || (blocks.len() == 0
            && log is None),
    ensures
        ({
            let started = state::spec_start(settings, bound_addr, log);
            &&& started is Ok
            &&& started->Ok_0.0.active == (ChainView { config: settings.chain, blocks })
            &&& started->Ok_0.0.forks.spec_best_height() == blocks.len()
            &&& started->Ok_0.0.forks.best_context() == chain::context_after(ToyHash, blocks)
        }),
{
    insert_laws::lemma_valid_chain_is_taken_in(
        settings.chain,
        ToyHash,
        DeterministicSampler,
        blocks,
    );
    let forks: ForkView = after_blocks(fork_choice::nothing_known(settings.chain), blocks)->0;
    if log is Some {
        storage::laws::lemma_log_round_trip(settings.chain, lines, blocks);
    }
    lemma_peers_keep_blocks(state::fresh_node(settings, bound_addr, forks), settings.peers);
}

/// Adding peers changes peers and counters alone.
proof fn lemma_peers_keep_blocks(node: NodeView, peers: Seq<PeerAddr>)
    ensures
        state::after_peers(node, peers).forks == node.forks,
        state::after_peers(node, peers).active == node.active,
    decreases peers.len(),
{
    if peers.len() > 0 {
        lemma_peers_keep_blocks(node, peers.drop_last());
    }
}

/// Where the best branch moves on without a reorganisation, the active chain it had is the first
/// part of the new one.
pub proof fn lemma_active_chain_only_grows_without_reorg(node: NodeView, block: BlockView)
    requires
        node.is_consistent(),
        !state::is_reorg(node.forks, state::forks_after(node.forks, block)),
    ensures
        node.active.blocks.is_prefix_of(state::with_arrival(node, block).active.blocks),
{
    let after: ForkView = state::forks_after(node.forks, block);
    if after.best_tip == node.forks.best_tip {
        state::lemma_unmoved(node.forks, block);
    } else {
        reveal(state::forks_after);
        if node.forks.best_tip is Some {
            state::lemma_extension(node.forks, block);
        } else {
            assert(node.active.blocks =~= Seq::<BlockView>::empty());
        }
    }
}

/// What one fork choice knows, the other knows too.
pub open spec fn is_part_of(part: ForkView, whole: ForkView) -> bool {
    forall|hash: Digest| #[trigger]
        part.nodes.contains_key(hash) ==> whole.nodes.contains_key(hash) && part.nodes[hash]
            == whole.nodes[hash]
}

/// A fork choice holds the first `count` blocks of a node's active chain and nothing else.
#[verifier::opaque]
spec fn has_replayed(node: NodeView, forks: ForkView, count: int) -> bool {
    let blocks: Seq<BlockView> = node.active.blocks;
    &&& state::forks_are_valid(forks)
    &&& forks.config == node.forks.config
    &&& forks.spec_best_chain() == blocks.take(count)
    &&& forks.spec_best_height() == count
    &&& forks.spec_best_hash() == (if count > 0 {
        state::block_id_of(blocks[count - 1])
    } else {
        Digest::spec_zero()
    })
    &&& is_part_of(forks, node.forks)
    &&& forall|hash: Digest| #[trigger]
        forks.nodes.contains_key(hash) ==> forks.nodes[hash].next_height <= count
}

/// The next block of a node's active chain, as the node knows it.
proof fn lemma_next_active_block(node: NodeView, at: int)
    requires
        node.is_consistent(),
        0 <= at < node.active.blocks.len(),
    ensures
        ({
            let block: BlockView = node.active.blocks[at];
            let hash: Digest = state::block_id_of(block);
            let previous: Digest = block.header.previous_block;
            &&& node.forks.nodes.contains_key(hash)
            &&& node.forks.nodes[hash].block == block
            &&& block.header.height == at
            &&& at == 0 ==> previous == Digest::spec_zero()
            &&& at > 0 ==> previous != Digest::spec_zero() && previous == state::block_id_of(
                node.active.blocks[at - 1],
            )
        }),
{
    reveal(state::block_id_of);
    let blocks: Seq<BlockView> = node.active.blocks;
    let best: Digest = node.forks.best_tip->0;
    fork_laws::lemma_branch_is_linked(node.forks, best);
    lemma_branch_block_is_known(node.forks, best, at);
    let block: BlockView = blocks[at];
    let hash: Digest = state::block_id_of(block);
    let previous: Digest = block.header.previous_block;
    assert(fork_choice::node_is_consistent(node.forks.config, node.forks.nodes, hash));
    if at > 0 {
        assert(node.forks.nodes.contains_key(previous));
        assert(fork_laws::is_accepted(node.forks, ToyHash, DeterministicSampler, previous));
    }
}

/// The next block of the active chain finds its parent, and room for it.
proof fn lemma_next_block_has_parent(node: NodeView, forks: ForkView, count: int)
    requires
        node.is_consistent(),
        0 <= count < node.active.blocks.len(),
        has_replayed(node, forks, count),
    ensures
        ({
            let block: BlockView = node.active.blocks[count];
            let previous: Digest = block.header.previous_block;
            let hash: Digest = state::block_id_of(block);
            &&& !forks.nodes.contains_key(hash)
            &&& forks.knows(previous)
            &&& forks.has_room_on(previous)
            &&& forks.best_tip != Some(hash)
            &&& state::follows_best(forks, block)
            &&& fork_choice::context_on(forks.nodes, previous) == fork_choice::context_on(
                node.forks.nodes,
                previous,
            )
            &&& forks.node_for(hash, block) == node.forks.nodes[hash]
            &&& forks.with_block(hash, block).best_tip == Some(hash)
        }),
{
    reveal(has_replayed);
    let block: BlockView = node.active.blocks[count];
    let hash: Digest = state::block_id_of(block);
    let previous: Digest = block.header.previous_block;
    lemma_next_active_block(node, count);
    assert(fork_choice::node_is_consistent(node.forks.config, node.forks.nodes, hash));
    fork_choice::lemma_block_work(node.forks.config.difficulty_zero_bits);
    assert(!forks.nodes.contains_key(hash));
    if count > 0 {
        assert(forks.best_tip == Some(previous));
        assert(forks.nodes.contains_key(previous));
    } else {
        assert(forks.best_tip is None);
    }
    assert(forks.node_for(hash, block) =~= node.forks.nodes[hash]);
}

/// The next block of the active chain is accepted.
proof fn lemma_next_block_is_accepted(node: NodeView, forks: ForkView, count: int)
    requires
        node.is_consistent(),
        0 <= count < node.active.blocks.len(),
        has_replayed(node, forks, count),
    ensures
        ({
            let block: BlockView = node.active.blocks[count];
            let hash: Digest = state::block_id_of(block);
            &&& fork_choice::spec_try_insert(forks, ToyHash, DeterministicSampler, block) == Some(
                Ok::<Digest, ForkChoiceError>(hash),
            )
            &&& fork_choice::spec_after_insert(forks, ToyHash, DeterministicSampler, block)
                == forks.with_block(hash, block)
        }),
{
    reveal(has_replayed);
    let block: BlockView = node.active.blocks[count];
    let hash: Digest = state::block_id_of(block);
    lemma_next_active_block(node, count);
    lemma_next_block_has_parent(node, forks, count);
    assert(fork_choice::node_is_consistent(node.forks.config, node.forks.nodes, hash));
    assert(fork_laws::is_accepted(node.forks, ToyHash, DeterministicSampler, hash));
    reveal(state::block_id_of);
}

/// Taking in the next block of the active chain keeps the known blocks accepted.
proof fn lemma_next_block_keeps_validity(node: NodeView, forks: ForkView, count: int)
    requires
        node.is_consistent(),
        0 <= count < node.active.blocks.len(),
        has_replayed(node, forks, count),
    ensures
        ({
            let block: BlockView = node.active.blocks[count];
            let after: ForkView = forks.with_block(state::block_id_of(block), block);
            &&& state::forks_are_valid(after)
            &&& after.spec_best_chain() == forks.spec_best_chain().push(block)
        }),
{
    reveal(has_replayed);
    let block: BlockView = node.active.blocks[count];
    let after: ForkView = forks.with_block(state::block_id_of(block), block);
    lemma_next_block_has_parent(node, forks, count);
    lemma_next_block_is_accepted(node, forks, count);
    assert(state::forks_are_valid(after)) by {
        fork_laws::lemma_insert_keeps_consistency(forks, ToyHash, DeterministicSampler, block);
        fork_laws::lemma_insert_keeps_blocks_accepted(
            forks,
            ToyHash,
            DeterministicSampler,
            block,
        );
    }
    assert(state::forks_after(forks, block) == after) by {
        reveal(state::forks_after);
    }
    state::lemma_extension(forks, block);
}

/// The next block of the active chain adds nothing that the node does not know.
proof fn lemma_next_block_is_part(node: NodeView, forks: ForkView, count: int)
    requires
        node.is_consistent(),
        0 <= count < node.active.blocks.len(),
        has_replayed(node, forks, count),
    ensures
        ({
            let block: BlockView = node.active.blocks[count];
            let after: ForkView = forks.with_block(state::block_id_of(block), block);
            &&& is_part_of(after, node.forks)
            &&& stands_within(after, count + 1)
            &&& after.spec_best_height() == count + 1
            &&& after.spec_best_hash() == state::block_id_of(block)
            &&& after.config == node.forks.config
        }),
{
    reveal(has_replayed);
    let block: BlockView = node.active.blocks[count];
    let hash: Digest = state::block_id_of(block);
    let after: ForkView = forks.with_block(hash, block);
    lemma_next_active_block(node, count);
    lemma_next_block_has_parent(node, forks, count);
    assert(fork_choice::node_is_consistent(node.forks.config, node.forks.nodes, hash));
    assert forall|known: Digest| #[trigger]
        after.nodes.contains_key(known) implies node.forks.nodes.contains_key(known)
        && after.nodes[known] == node.forks.nodes[known] && after.nodes[known].next_height <= count
        + 1 by {
        if known != hash {
            assert(forks.nodes.contains_key(known));
        }
    }
}

/// No known block stands higher than `count`.
spec fn stands_within(forks: ForkView, count: int) -> bool {
    forall|hash: Digest| #[trigger]
        forks.nodes.contains_key(hash) ==> forks.nodes[hash].next_height <= count
}

/// What a fork choice that holds the first blocks of an active chain has to show.
proof fn lemma_replayed(node: NodeView, forks: ForkView, count: int)
    requires
        0 < count <= node.active.blocks.len(),
        state::forks_are_valid(forks),
        forks.config == node.forks.config,
        forks.spec_best_chain() == node.active.blocks.take(count),
        forks.spec_best_height() == count,
        forks.spec_best_hash() == state::block_id_of(node.active.blocks[count - 1]),
        is_part_of(forks, node.forks),
        stands_within(forks, count),
    ensures
        has_replayed(node, forks, count),
{
    reveal(has_replayed);
}

/// The best branch of a fork choice that holds the first blocks of an active chain.
proof fn lemma_replayed_chain(node: NodeView, forks: ForkView, count: int)
    requires
        has_replayed(node, forks, count),
    ensures
        forks.config == node.forks.config,
        forks.spec_best_chain() == node.active.blocks.take(count),
{
    reveal(has_replayed);
}

/// One more block of the active chain is taken in.
proof fn lemma_replay_step(node: NodeView, forks: ForkView, count: int)
    requires
        node.is_consistent(),
        0 <= count < node.active.blocks.len(),
        has_replayed(node, forks, count),
    ensures
        has_replayed(
            node,
            forks.with_block(
                state::block_id_of(node.active.blocks[count]),
                node.active.blocks[count],
            ),
            count + 1,
        ),
{
    let block: BlockView = node.active.blocks[count];
    let after: ForkView = forks.with_block(state::block_id_of(block), block);
    lemma_next_block_keeps_validity(node, forks, count);
    lemma_next_block_is_part(node, forks, count);
    assert(node.active.blocks.take(count + 1) =~= node.active.blocks.take(count).push(block));
    lemma_replayed_chain(node, forks, count);
    lemma_replayed(node, after, count + 1);
}

proof fn lemma_replay(node: NodeView, count: int)
    requires
        node.is_consistent(),
        0 <= count <= node.active.blocks.len(),
    ensures
        after_blocks(
            fork_choice::nothing_known(node.forks.config),
            node.active.blocks.take(count),
        ) is Some,
        has_replayed(
            node,
            after_blocks(
                fork_choice::nothing_known(node.forks.config),
                node.active.blocks.take(count),
            )->0,
            count,
        ),
    decreases count,
{
    let start: ForkView = fork_choice::nothing_known(node.forks.config);
    let blocks: Seq<BlockView> = node.active.blocks;
    if count == 0 {
        assert(blocks.take(0) =~= Seq::<BlockView>::empty());
        assert(has_replayed(node, start, 0)) by {
            reveal(has_replayed);
        }
    } else {
        lemma_replay(node, count - 1);
        let before: ForkView = after_blocks(start, blocks.take(count - 1))->0;
        lemma_replay_step(node, before, count - 1);
        lemma_next_block_is_accepted(node, before, count - 1);
        assert(blocks.take(count).drop_last() =~= blocks.take(count - 1));
        assert(blocks.take(count).last() == blocks[count - 1]);
    }
}

/// A node that takes in the active chain of another from its start, block by block, accepts every
/// one of them and reaches the same active chain.
pub proof fn lemma_late_peer_reaches_same_chain(node: NodeView)
    requires
        node.is_consistent(),
    ensures
        after_blocks(fork_choice::nothing_known(node.forks.config), node.active.blocks) is Some,
        state::active_of(
            after_blocks(fork_choice::nothing_known(node.forks.config), node.active.blocks)->0,
        ) == node.active,
{
    let blocks: Seq<BlockView> = node.active.blocks;
    let count: int = blocks.len() as int;
    let start: ForkView = fork_choice::nothing_known(node.forks.config);
    lemma_replay(node, count);
    lemma_replayed_chain(node, after_blocks(start, blocks.take(count))->0, count);
    assert(blocks.take(count) =~= blocks);
}

/// The lines that carry blocks to a peer.
pub open spec fn block_lines(wire: WireView, blocks: Seq<BlockView>) -> Seq<Seq<char>> {
    blocks.map_values(
        |block: BlockView| envelope::network_text(wire, MessageView::Block(block)) + "\n"@,
    )
}

/// A node after lines of a peer's answer, as long as each of them asks for another one.
pub open spec fn after_sync_lines(node: NodeView, lines: Seq<Seq<char>>) -> Option<NodeView>
    decreases lines.len(),
{
    if lines.len() == 0 {
        Some(node)
    } else {
        match after_sync_lines(node, lines.drop_last()) {
            Some(before) => {
                let (after, step) = state::after_sync_line(before, lines.last());
                if step == SyncStep::More {
                    Some(after)
                } else {
                    None
                }
            },
            None => None,
        }
    }
}

/// One block of a peer's answer that is acceptable is taken in.
proof fn lemma_synced_block_is_taken_in(node: NodeView, block: BlockView, line: Seq<char>)
    requires
        fork_choice::spec_try_insert(
            node.forks,
            ToyHash,
            DeterministicSampler,
            block,
        ) matches Some(Ok(_)),
        line == envelope::network_text(node.network.wire, MessageView::Block(block)) + "\n"@,
    ensures
        ({
            let (after, step) = state::after_sync_line(node, line);
            &&& step == SyncStep::More
            &&& after.forks == fork_choice::spec_after_insert(
                node.forks,
                ToyHash,
                DeterministicSampler,
                block,
            )
            &&& after.active == state::active_of(after.forks)
            &&& after.network == node.network
        }),
{
    reveal_strlit("\n");
    reveal(state::fate_of);
    reveal(state::forks_after);
    laws::lemma_envelope_round_trip(node.network.wire, MessageView::Block(block), "\n"@);
}

/// A new peer follows the first lines of an answer that carries a node's active chain.
proof fn lemma_sync_prefix(node: NodeView, peer: NodeView, count: int)
    requires
        node.is_consistent(),
        0 <= count <= node.active.blocks.len(),
        peer.forks == fork_choice::nothing_known(node.forks.config),
        peer.active == state::active_of(peer.forks),
        peer.network.wire == node.network.wire,
    ensures
        ({
            let lines: Seq<Seq<char>> = block_lines(node.network.wire, node.active.blocks);
            let reached = after_sync_lines(peer, lines.take(count));
            &&& reached is Some
            &&& reached->0.network == peer.network
            &&& reached->0.active == state::active_of(reached->0.forks)
            &&& after_blocks(peer.forks, node.active.blocks.take(count)) == Some(
                reached->0.forks,
            )
        }),
    decreases count,
{
    let lines: Seq<Seq<char>> = block_lines(node.network.wire, node.active.blocks);
    let blocks: Seq<BlockView> = node.active.blocks;
    if count == 0 {
        assert(lines.take(0) =~= Seq::<Seq<char>>::empty());
        assert(blocks.take(0) =~= Seq::<BlockView>::empty());
    } else {
        lemma_sync_prefix(node, peer, count - 1);
        lemma_replay(node, count - 1);
        let before: NodeView = after_sync_lines(peer, lines.take(count - 1))->0;
        lemma_next_block_is_accepted(node, before.forks, count - 1);
        lemma_synced_block_is_taken_in(before, blocks[count - 1], lines[count - 1]);
        assert(lines.take(count).drop_last() =~= lines.take(count - 1));
        assert(lines.take(count).last() == lines[count - 1]);
        assert(blocks.take(count).drop_last() =~= blocks.take(count - 1));
        assert(blocks.take(count).last() == blocks[count - 1]);
    }
}

/// A new peer that reads a node's active chain line by line, as an answer carries it, takes in
/// every block and has the same active chain at the end.
pub proof fn lemma_late_peer_catches_up(node: NodeView, peer: NodeView)
    requires
        node.is_consistent(),
        peer.forks == fork_choice::nothing_known(node.forks.config),
        peer.active == state::active_of(peer.forks),
        peer.network.wire == node.network.wire,
    ensures
        ({
            let lines: Seq<Seq<char>> = block_lines(node.network.wire, node.active.blocks);
            let reached = after_sync_lines(peer, lines);
            &&& reached is Some
            &&& reached->0.active == node.active
        }),
{
    let lines: Seq<Seq<char>> = block_lines(node.network.wire, node.active.blocks);
    let count: int = node.active.blocks.len() as int;
    lemma_sync_prefix(node, peer, count);
    lemma_late_peer_reaches_same_chain(node);
    assert(lines.take(count) =~= lines);
    assert(node.active.blocks.take(count) =~= node.active.blocks);
}

} // verus!
