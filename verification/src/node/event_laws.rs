//! What events change about a node and how it answers, told from the event and the node.

use vstd::prelude::*;

use crate::adapters::{DeterministicSampler, ToyHash};
use crate::application::block_laws;
use crate::application::fork_choice;
use crate::application::fork_choice::{ForkChoiceError, ForkView};
use crate::application::mining;
use crate::application::validation;
use crate::application::validation::ParentContext;
use crate::domain::block::BlockView;
use crate::domain::Digest;
use crate::node::config::PeerAddr;
use crate::node::state;
use crate::node::state::{
    ActionView, BlockFate, BlockSource, NodeCounters, NodeView, SyncStep,
};
use crate::wire::envelope;
use crate::wire::message::MessageView;

verus! {

/// All counters in a row.
pub open spec fn tally(counters: NodeCounters) -> Seq<int> {
    seq![
        counters.accepted_blocks as int,
        counters.rejected_blocks as int,
        counters.mined_blocks as int,
        counters.malformed_messages as int,
        counters.incompatible_messages as int,
        counters.oversized_messages as int,
        counters.outbound_blocks as int,
        counters.failed_broadcasts as int,
        counters.synced_blocks as int,
        counters.failed_syncs as int,
        counters.reorgs as int,
        counters.peer_rejections as int,
        counters.failed_responses as int,
    ]
}

/// One counted at this place of the row, and nothing elsewhere; nothing at all at no place.
pub open spec fn one_at(place: int) -> Seq<int> {
    Seq::new(
        13,
        |i: int|
            if i == place {
                1int
            } else {
                0int
            },
    )
}

/// Every counter has grown by what was counted at its place, in either row.
pub open spec fn counts(
    before: NodeCounters,
    after: NodeCounters,
    first: Seq<int>,
    second: Seq<int>,
) -> bool {
    forall|i: int|
        0 <= i < 13 ==> #[trigger] tally(after)[i] == tally(before)[i] + first[i] + second[i]
}

/// Nothing but the counters differs.
pub open spec fn differs_in_counters(before: NodeView, after: NodeView) -> bool {
    &&& after.node_id == before.node_id
    &&& after.bound_addr == before.bound_addr
    &&& after.advertised_addr == before.advertised_addr
    &&& after.forks == before.forks
    &&& after.active == before.active
    &&& after.peers == before.peers
    &&& after.network == before.network
    &&& after.sync == before.sync
}

/// The hash of a block, as nodes compute it.
pub open spec fn id_of(block: BlockView) -> Digest {
    validation::header_hash(ToyHash, block.header)
}

/// What taking in a block answers, with the hash and the sampler that nodes use.
pub open spec fn answer_to(forks: ForkView, block: BlockView) -> Option<
    Result<Digest, ForkChoiceError>,
> {
    fork_choice::spec_try_insert(forks, ToyHash, DeterministicSampler, block)
}

/// A block is known, or new and accepted, or else refused.
pub proof fn lemma_fate_is_exact(forks: ForkView, block: BlockView)
    ensures
        ({
            let fate: BlockFate = state::fate_of(forks, block);
            let known: bool = forks.nodes.contains_key(id_of(block));
            &&& fate is Known <==> known
            &&& fate is New <==> !known && (answer_to(forks, block) matches Some(answer) && answer
                is Ok)
            &&& fate is Refused <==> !known && !(answer_to(forks, block) matches Some(answer)
                && answer is Ok)
        }),
        state::block_id_of(block) == id_of(block),
{
    reveal(state::fate_of);
    reveal(state::block_id_of);
}

/// The best branch had a head and left it: the new head does not stand on the old one.
pub open spec fn left_head(before: ForkView, after: ForkView) -> bool {
    before.best_tip matches Some(old_head) && after.best_tip matches Some(new_head) && {
        let block: BlockView = after.nodes[new_head].block;
        &&& new_head != old_head
        &&& !(block.header.previous_block == old_head && block.header.height
            == before.nodes[old_head].next_height)
    }
}

/// The node after an arrival: its known blocks change where the block is new and accepted, its
/// active chain is the best branch, and nothing else changes but counters.
pub open spec fn holds_arrival(before: NodeView, block: BlockView, after: NodeView) -> bool {
    &&& after.node_id == before.node_id
    &&& after.bound_addr == before.bound_addr
    &&& after.advertised_addr == before.advertised_addr
    &&& after.peers == before.peers
    &&& after.network == before.network
    &&& after.sync == before.sync
    &&& after.forks == if answer_to(before.forks, block) is Some {
        fork_choice::spec_after_insert(before.forks, ToyHash, DeterministicSampler, block)
    } else {
        before.forks
    }
    &&& after.active.config == after.forks.config
    &&& after.active.blocks == after.forks.spec_best_chain()
}

/// Where a block of this fate from this source is counted.
pub open spec fn place_of(source: BlockSource, fate: BlockFate) -> int {
    match (source, fate) {
        (BlockSource::Gossip, BlockFate::New) => 0,
        (BlockSource::Gossip, BlockFate::Refused) => 1,
        (BlockSource::Sync, BlockFate::New) => 8,
        (BlockSource::Sync, BlockFate::Refused) => 9,
        (_, BlockFate::Known) => -1,
    }
}

/// The place of reorganisations where the head was left, none otherwise.
pub open spec fn reorg_place(before: ForkView, after: ForkView) -> int {
    if left_head(before, after) {
        10
    } else {
        -1
    }
}

proof fn lemma_best_stays(forks: ForkView, block: BlockView)
    ensures
        forks.best_tip is Some ==> state::forks_after(forks, block).best_tip is Some,
{
    reveal(state::forks_after);
}

proof fn lemma_arrival(node: NodeView, block: BlockView)
    requires
        node.counters.reorgs < usize::MAX,
    ensures
        ({
            let after: NodeView = state::with_arrival(node, block);
            &&& holds_arrival(node, block, after)
            &&& counts(
                node.counters,
                after.counters,
                one_at(reorg_place(node.forks, after.forks)),
                one_at(-1),
            )
            &&& after.counters == NodeCounters { reorgs: after.counters.reorgs, ..node.counters }
        }),
{
    reveal(state::forks_after);
    lemma_best_stays(node.forks, block);
    let after: NodeView = state::with_arrival(node, block);
    assert(state::is_reorg(node.forks, after.forks) == left_head(node.forks, after.forks));
}

/// A block from a peer is taken in or not, and counted once by its fate and its source, and once
/// more where the head was left.
pub proof fn lemma_block_effect(node: NodeView, source: BlockSource, block: BlockView)
    requires
        state::has_room_for_block(node.counters, source),
    ensures
        ({
            let after: NodeView = state::after_block(node, source, block);
            &&& holds_arrival(node, block, after)
            &&& counts(
                node.counters,
                after.counters,
                one_at(place_of(source, state::fate_of(node.forks, block))),
                one_at(reorg_place(node.forks, after.forks)),
            )
        }),
{
    lemma_arrival(node, block);
    let arrived: NodeView = state::with_arrival(node, block);
    let after: NodeView = state::after_block(node, source, block);
    let place: int = place_of(source, state::fate_of(node.forks, block));
    let moved: int = reorg_place(node.forks, after.forks);
    assert forall|i: int| 0 <= i < 13 implies #[trigger] tally(after.counters)[i] == tally(
        node.counters,
    )[i] + one_at(place)[i] + one_at(moved)[i] by {
        assert(tally(arrived.counters)[i] == tally(node.counters)[i] + one_at(moved)[i]
            + one_at(-1)[i]);
    }
}

/// Blocks in a row from a position on: as many as were asked for and as one answer may hold, as far
/// as there are any.
pub open spec fn is_window(
    blocks: Seq<BlockView>,
    start: int,
    limit: int,
    most: int,
    served: Seq<BlockView>,
) -> bool {
    &&& served.len() <= limit
    &&& served.len() <= most
    &&& start <= blocks.len() ==> start + served.len() <= blocks.len()
    &&& start >= blocks.len() ==> served.len() == 0
    &&& start < blocks.len() ==> served.len() == limit || served.len() == most || start
        + served.len() == blocks.len()
    &&& forall|i: int| 0 <= i < served.len() ==> #[trigger] served[i] == blocks[start + i]
}

/// An answer holds the blocks of the active chain from a position on, in order, and no more than
/// the request and the settings allow.
pub proof fn lemma_window_is_exact(blocks: Seq<BlockView>, start: nat, limit: usize, most: usize)
    ensures
        is_window(
            blocks,
            start as int,
            limit as int,
            most as int,
            state::window(blocks, start, state::smaller(limit, most) as nat),
        ),
{
}

/// The last position of a hash on a chain.
pub open spec fn stands_at(blocks: Seq<BlockView>, hash: Digest, at: int) -> bool {
    &&& 0 <= at < blocks.len()
    &&& id_of(blocks[at]) == hash
    &&& forall|i: int| at < i < blocks.len() ==> id_of(#[trigger] blocks[i]) != hash
}

/// The hash is nowhere on the chain.
pub open spec fn is_missing(blocks: Seq<BlockView>, hash: Digest) -> bool {
    forall|i: int| 0 <= i < blocks.len() ==> id_of(#[trigger] blocks[i]) != hash
}

proof fn lemma_position(blocks: Seq<BlockView>, hash: Digest)
    ensures
        match state::position_of(blocks, hash) {
            Some(at) => stands_at(blocks, hash, at as int),
            None => is_missing(blocks, hash),
        },
    decreases blocks.len(),
{
    reveal(state::block_id_of);
    if blocks.len() > 0 && state::block_id_of(blocks.last()) != hash {
        let fewer: Seq<BlockView> = blocks.drop_last();
        lemma_position(fewer, hash);
        assert forall|i: int| 0 <= i < fewer.len() implies #[trigger] blocks[i] == fewer[i] by {}
        match state::position_of(fewer, hash) {
            Some(at) => {
                assert forall|i: int| at < i < blocks.len() implies id_of(#[trigger] blocks[i])
                    != hash by {
                    if i < fewer.len() {
                        assert(id_of(fewer[i]) != hash);
                    }
                }
            },
            None => {
                assert forall|i: int| 0 <= i < blocks.len() implies id_of(#[trigger] blocks[i])
                    != hash by {
                    if i < fewer.len() {
                        assert(id_of(fewer[i]) != hash);
                    }
                }
            },
        }
    }
}

/// A peer resumes behind the block of the first of its hashes that is on the chain; at the start
/// where none of them is.
pub open spec fn resumes_at(blocks: Seq<BlockView>, hashes: Seq<Digest>, start: int) -> bool {
    ||| start == 0 && forall|k: int|
        0 <= k < hashes.len() ==> is_missing(blocks, #[trigger] hashes[k])
    ||| exists|k: int|
        {
            &&& 0 <= k < hashes.len()
            &&& stands_at(blocks, #[trigger] hashes[k], start - 1)
            &&& forall|j: int| 0 <= j < k ==> is_missing(blocks, #[trigger] hashes[j])
        }
}

/// A peer is answered from where its hashes leave the chain.
pub proof fn lemma_resume_is_exact(blocks: Seq<BlockView>, hashes: Seq<Digest>)
    ensures
        resumes_at(blocks, hashes, state::resume_at(blocks, hashes) as int),
    decreases hashes.len(),
{
    if hashes.len() > 0 {
        lemma_position(blocks, hashes[0]);
        if state::position_of(blocks, hashes[0]) is None {
            let rest: Seq<Digest> = hashes.skip(1);
            let start: int = state::resume_at(blocks, rest) as int;
            lemma_resume_is_exact(blocks, rest);
            if exists|k: int|
                {
                    &&& 0 <= k < rest.len()
                    &&& stands_at(blocks, #[trigger] rest[k], start - 1)
                    &&& forall|j: int| 0 <= j < k ==> is_missing(blocks, #[trigger] rest[j])
                } {
                let k: int = choose|k: int|
                    {
                        &&& 0 <= k < rest.len()
                        &&& stands_at(blocks, #[trigger] rest[k], start - 1)
                        &&& forall|j: int| 0 <= j < k ==> is_missing(blocks, #[trigger] rest[j])
                    };
                assert(hashes[k + 1] == rest[k]);
                assert forall|j: int| 0 <= j < k + 1 implies is_missing(
                    blocks,
                    #[trigger] hashes[j],
                ) by {
                    if j > 0 {
                        assert(rest[j - 1] == hashes[j]);
                    }
                }
                assert(stands_at(blocks, hashes[k + 1], start - 1));
            } else {
                assert forall|k: int| 0 <= k < hashes.len() implies is_missing(
                    blocks,
                    #[trigger] hashes[k],
                ) by {
                    if k > 0 {
                        assert(rest[k - 1] == hashes[k]);
                    }
                }
            }
        } else {
            assert(stands_at(
                blocks,
                hashes[0],
                state::resume_at(blocks, hashes) - 1,
            ));
        }
    }
}

/// A node asks with the hashes of its last blocks, newest first, as many as it is set to.
pub proof fn lemma_locator_is_exact(blocks: Seq<BlockView>, count: nat)
    ensures
        ({
            let hashes: Seq<Digest> = state::spec_locator(blocks, count);
            &&& hashes.len() <= count
            &&& hashes.len() <= blocks.len()
            &&& hashes.len() == count || hashes.len() == blocks.len()
            &&& forall|i: int|
                0 <= i < hashes.len() ==> #[trigger] hashes[i] == id_of(
                    blocks[blocks.len() - 1 - i],
                )
        }),
{
    reveal(state::block_id_of);
}

/// A line that begins as an envelope does.
pub open spec fn begins_as_envelope(line: Seq<char>) -> bool {
    &&& line.len() >= 9
    &&& line.take(9) == seq!['C', 'H', 'E', 'S', 'S', 'C', 'O', 'I', 'N']
}

/// What a line from a connection changes and is answered: a request with blocks of the active
/// chain, a block by passing it on where it is new, an address by learning it. A greeting changes
/// nothing. The end of a list is malformed. Anything else is refused and counted as foreign or
/// malformed.
pub proof fn lemma_line_is_handled(node: NodeView, line: Seq<char>)
    requires
        state::has_room_for_line(node.counters),
    ensures
        ({
            let after: NodeView = state::after_line(node, line);
            let action: ActionView = state::action_on(node, line);
            match envelope::spec_decode_network(line, node.network.wire) {
                Ok(MessageView::Hello { .. }) => after == node && action is Nothing,
                Ok(MessageView::GetBlocks { from_height, limit }) => {
                    &&& after == node
                    &&& action matches ActionView::Respond(served) && is_window(
                        node.active.blocks,
                        from_height as int,
                        limit as int,
                        node.sync.max_blocks_per_response as int,
                        served,
                    )
                },
                Ok(MessageView::Locate { hashes, limit }) => {
                    &&& after == node
                    &&& action matches ActionView::Respond(served) && exists|start: int| #[trigger]
                        resumes_at(node.active.blocks, hashes, start) && is_window(
                            node.active.blocks,
                            start,
                            limit as int,
                            node.sync.max_blocks_per_response as int,
                            served,
                        )
                },
                Ok(MessageView::Block(block)) => {
                    &&& after == state::after_block(node, BlockSource::Gossip, block)
                    &&& action == if state::fate_of(node.forks, block) is New {
                        ActionView::Gossip(block)
                    } else {
                        ActionView::Nothing
                    }
                },
                Ok(MessageView::EndBlocks) => {
                    &&& differs_in_counters(node, after)
                    &&& counts(node.counters, after.counters, one_at(3), one_at(-1))
                    &&& action is Nothing
                },
                Ok(MessageView::Peer { addr }) => after == node && action == ActionView::Learn(
                    addr,
                ),
                Err(_) => {
                    &&& differs_in_counters(node, after)
                    &&& counts(
                        node.counters,
                        after.counters,
                        one_at(1),
                        one_at(
                            if begins_as_envelope(line) {
                                4
                            } else {
                                3
                            },
                        ),
                    )
                    &&& action is Nothing
                },
            }
        }),
{
    reveal_strlit("CHESSCOIN");
    let magic: Seq<char> = envelope::WIRE_MAGIC@;
    assert(magic =~= seq!['C', 'H', 'E', 'S', 'S', 'C', 'O', 'I', 'N']);
    assert(magic.is_prefix_of(line) <==> begins_as_envelope(line)) by {
        if line.len() >= 9 {
            assert(line.subrange(0, 9) =~= line.take(9));
        }
    }
    match envelope::spec_decode_network(line, node.network.wire) {
        Ok(MessageView::GetBlocks { from_height, limit }) => {
            lemma_window_is_exact(
                node.active.blocks,
                from_height as nat,
                limit,
                node.sync.max_blocks_per_response,
            );
        },
        Ok(MessageView::Locate { hashes, limit }) => {
            let start: nat = state::resume_at(node.active.blocks, hashes);
            lemma_resume_is_exact(node.active.blocks, hashes);
            lemma_window_is_exact(
                node.active.blocks,
                start,
                limit,
                node.sync.max_blocks_per_response,
            );
            assert(resumes_at(node.active.blocks, hashes, start as int));
        },
        _ => {},
    }
}

/// What a line of a peer's answer changes and how to go on: a block is taken in and stored where it
/// is new, one that is refused ends it, the end of the list completes it, anything else fails it.
pub proof fn lemma_sync_line_is_handled(node: NodeView, line: Seq<char>)
    ensures
        ({
            let after: NodeView = state::after_sync_line(node, line).0;
            let step: SyncStep = state::after_sync_line(node, line).1;
            let stored: Option<BlockView> = state::new_block_in(node, line);
            match envelope::spec_decode_network(line, node.network.wire) {
                Ok(MessageView::Block(block)) => {
                    let fate: BlockFate = state::fate_of(node.forks, block);
                    &&& after == state::after_block(node, BlockSource::Sync, block)
                    &&& fate is New ==> step is More && stored == Some(block)
                    &&& fate is Known ==> step is More && stored is None
                    &&& fate is Refused ==> step is Failed && stored is None
                },
                Ok(MessageView::EndBlocks) => after == node && step is Done && stored is None,
                _ => after == node && step is Failed && stored is None,
            }
        }),
{
}

/// Adding a peer appends it, unless it is the node itself, known, or one too many; that is counted
/// and changes nothing else.
pub proof fn lemma_peer_effect(node: NodeView, peer: PeerAddr)
    requires
        node.counters.peer_rejections < usize::MAX,
    ensures
        ({
            let after: NodeView = state::after_peer(node, peer);
            let known: bool = exists|i: int| 0 <= i < node.peers.len() && node.peers[i] == peer;
            if peer == node.bound_addr || peer == node.advertised_addr || known
                || node.peers.len() >= node.network.max_peers {
                &&& differs_in_counters(node, after)
                &&& counts(node.counters, after.counters, one_at(11), one_at(-1))
            } else {
                &&& after.peers == node.peers.push(peer)
                &&& differs_in_counters(NodeView { peers: after.peers, ..node }, after)
                &&& after.counters == node.counters
            }
        }),
        state::after_peers(node, Seq::empty()) == node,
{
}

/// Peers are added one after the other, in their order.
pub proof fn lemma_peers_are_added_in_order(node: NodeView, peers: Seq<PeerAddr>, peer: PeerAddr)
    ensures
        state::after_peers(node, peers.push(peer)) == state::after_peer(
            state::after_peers(node, peers),
            peer,
        ),
{
    assert(peers.push(peer).drop_last() =~= peers);
}

/// What a node mines on: its best tip, or the start of a chain.
pub open spec fn builds_on(node: NodeView, parent: ParentContext) -> bool {
    &&& parent.height == node.forks.spec_best_height()
    &&& parent.hash == node.forks.spec_best_hash()
    &&& parent.model == node.forks.spec_best_model()
}

/// A block that a node mined shows all that mining took on top of its best tip. It is counted as
/// mined, and nothing else changes but what its arrival changes.
pub proof fn lemma_mined_block_effect(
    node: NodeView,
    training_seed: u64,
    sampling_entropy: u64,
    block: BlockView,
    parent: ParentContext,
)
    requires
        node.counters.mined_blocks < usize::MAX,
        node.counters.reorgs < usize::MAX,
        state::is_mined_by(node, training_seed, sampling_entropy, block),
        builds_on(node, parent),
    ensures
        ({
            let after: NodeView = state::after_mined(node, block);
            &&& block_laws::shows_mining(
                ToyHash,
                node.forks.config,
                parent,
                training_seed,
                sampling_entropy,
                block,
            )
            &&& holds_arrival(node, block, after)
            &&& counts(
                node.counters,
                after.counters,
                one_at(2),
                one_at(reorg_place(node.forks, after.forks)),
            )
        }),
{
    assert(parent == node.forks.best_context());
    block_laws::lemma_mined_block_shows_mining(
        ToyHash,
        node.forks.config,
        parent,
        training_seed,
        sampling_entropy,
        block,
    );
    lemma_arrival(node, block);
    let arrived: NodeView = state::with_arrival(node, block);
    let after: NodeView = state::after_mined(node, block);
    let moved: int = reorg_place(node.forks, after.forks);
    assert forall|i: int| 0 <= i < 13 implies #[trigger] tally(after.counters)[i] == tally(
        node.counters,
    )[i] + one_at(2)[i] + one_at(moved)[i] by {
        assert(tally(arrived.counters)[i] == tally(node.counters)[i] + one_at(moved)[i]
            + one_at(-1)[i]);
    }
}

/// A node cannot mine only where no nonce gives its next block a hash with enough zero bits.
pub proof fn lemma_unable_to_mine_has_no_nonce(
    node: NodeView,
    training_seed: u64,
    sampling_entropy: u64,
    block: BlockView,
    parent: ParentContext,
)
    requires
        builds_on(node, parent),
        block_laws::shows_mining(
            ToyHash,
            node.forks.config,
            parent,
            training_seed,
            sampling_entropy,
            block,
        ),
    ensures
        state::can_mine(node, training_seed, sampling_entropy),
{
    assert(parent == node.forks.best_context());
    block_laws::lemma_shown_header_is_next(
        ToyHash,
        node.forks.config,
        parent,
        training_seed,
        sampling_entropy,
        block,
    );
    let header = mining::next_header(
        ToyHash,
        node.forks.config,
        parent,
        training_seed,
        sampling_entropy,
    );
    assert(mining::nonce_works(
        ToyHash,
        header,
        node.forks.config.difficulty_zero_bits,
        block.header.nonce,
    ));
}

/// A fresh count is zero in every place, and there is room where every place can count one more.
pub proof fn lemma_counters_are_told(counters: NodeCounters)
    ensures
        forall|i: int| 0 <= i < 13 ==> #[trigger] tally(NodeCounters::spec_zero())[i] == 0,
        counters.spec_has_room() <==> forall|i: int|
            0 <= i < 13 ==> #[trigger] tally(counters)[i] < usize::MAX,
        state::has_room_for_block(counters, BlockSource::Gossip) <==> tally(counters)[0]
            < usize::MAX && tally(counters)[1] < usize::MAX && tally(counters)[10] < usize::MAX,
        state::has_room_for_block(counters, BlockSource::Sync) <==> tally(counters)[8]
            < usize::MAX && tally(counters)[9] < usize::MAX && tally(counters)[10] < usize::MAX,
        state::has_room_for_line(counters) <==> tally(counters)[0] < usize::MAX
            && tally(counters)[1] < usize::MAX && tally(counters)[3] < usize::MAX
            && tally(counters)[4] < usize::MAX && tally(counters)[10] < usize::MAX,
{
    let row: Seq<int> = tally(counters);
    if forall|i: int| 0 <= i < 13 ==> #[trigger] tally(counters)[i] < usize::MAX {
        assert(row[0] < usize::MAX && row[1] < usize::MAX && row[2] < usize::MAX && row[3]
            < usize::MAX && row[4] < usize::MAX && row[5] < usize::MAX && row[6] < usize::MAX
            && row[7] < usize::MAX && row[8] < usize::MAX && row[9] < usize::MAX && row[10]
            < usize::MAX && row[11] < usize::MAX && row[12] < usize::MAX);
    }
}

} // verus!
