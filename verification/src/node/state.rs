//! What a node holds, and how events change it.

use vstd::prelude::*;

use crate::adapters::{DeterministicSampler, ToyHash};
use crate::application::chain;
use crate::application::chain::ChainView;
use crate::application::fork_choice;
use crate::application::fork_choice::ForkView;
use crate::application::fork_laws;
use crate::application::mining;
use crate::application::validation;
use crate::application::{block_hash, ChainConfig, ChainState, ForkChoiceState};
use crate::domain::block::BlockView;
use crate::domain::{Block, Digest};
use crate::node::config;
use crate::node::config::{
    NetworkConfig, NetworkView, NodeConfig, NodeConfigView, PeerAddr, SyncConfig,
};
use crate::node::reader::IncomingReadError;
use crate::storage;
use crate::storage::{LogTail, StorageError, StorageErrorView};
use crate::wire::envelope;
use crate::wire::envelope::WIRE_MAGIC;
use crate::wire::message;
use crate::wire::message::{MessageView, PeerMessage};

verus! {

/// What a node has counted.
#[derive(Clone, Copy, Debug, PartialEq, Eq, Structural)]
pub struct NodeCounters {
    pub accepted_blocks: usize,
    pub rejected_blocks: usize,
    pub mined_blocks: usize,
    pub malformed_messages: usize,
    pub incompatible_messages: usize,
    pub oversized_messages: usize,
    pub outbound_blocks: usize,
    pub failed_broadcasts: usize,
    pub synced_blocks: usize,
    pub failed_syncs: usize,
    pub reorgs: usize,
    pub peer_rejections: usize,
    pub failed_responses: usize,
}

impl NodeCounters {
    /// Nothing counted yet.
    pub open spec fn spec_zero() -> NodeCounters {
        NodeCounters {
            accepted_blocks: 0,
            rejected_blocks: 0,
            mined_blocks: 0,
            malformed_messages: 0,
            incompatible_messages: 0,
            oversized_messages: 0,
            outbound_blocks: 0,
            failed_broadcasts: 0,
            synced_blocks: 0,
            failed_syncs: 0,
            reorgs: 0,
            peer_rejections: 0,
            failed_responses: 0,
        }
    }

    /// Nothing counted yet.
    pub fn zero() -> (counters: Self)
        ensures
            counters == NodeCounters::spec_zero(),
    {
        NodeCounters {
            accepted_blocks: 0,
            rejected_blocks: 0,
            mined_blocks: 0,
            malformed_messages: 0,
            incompatible_messages: 0,
            oversized_messages: 0,
            outbound_blocks: 0,
            failed_broadcasts: 0,
            synced_blocks: 0,
            failed_syncs: 0,
            reorgs: 0,
            peer_rejections: 0,
            failed_responses: 0,
        }
    }

    /// Every counter can count one more.
    pub open spec fn spec_has_room(self) -> bool {
        &&& self.accepted_blocks < usize::MAX
        &&& self.rejected_blocks < usize::MAX
        &&& self.mined_blocks < usize::MAX
        &&& self.malformed_messages < usize::MAX
        &&& self.incompatible_messages < usize::MAX
        &&& self.oversized_messages < usize::MAX
        &&& self.outbound_blocks < usize::MAX
        &&& self.failed_broadcasts < usize::MAX
        &&& self.synced_blocks < usize::MAX
        &&& self.failed_syncs < usize::MAX
        &&& self.reorgs < usize::MAX
        &&& self.peer_rejections < usize::MAX
        &&& self.failed_responses < usize::MAX
    }

    /// Whether every counter can count one more.
    pub fn has_room(&self) -> (room: bool)
        ensures
            room == self.spec_has_room(),
    {
        self.accepted_blocks < usize::MAX && self.rejected_blocks < usize::MAX && self.mined_blocks
            < usize::MAX && self.malformed_messages < usize::MAX && self.incompatible_messages
            < usize::MAX && self.oversized_messages < usize::MAX && self.outbound_blocks
            < usize::MAX && self.failed_broadcasts < usize::MAX && self.synced_blocks < usize::MAX
            && self.failed_syncs < usize::MAX && self.reorgs < usize::MAX && self.peer_rejections
            < usize::MAX && self.failed_responses < usize::MAX
    }
}

/// Where a block came from.
#[derive(Clone, Copy, Debug, PartialEq, Eq, Structural)]
pub enum BlockSource {
    Gossip,
    Sync,
}

/// What became of a block that arrived.
#[derive(Clone, Copy, Debug, PartialEq, Eq, Structural)]
pub enum BlockFate {
    /// It was taken in.
    New,
    /// It was known before.
    Known,
    /// It was not acceptable.
    Refused,
}

/// What a node holds.
pub struct NodeState {
    node_id: String,
    bound_addr: PeerAddr,
    advertised_addr: PeerAddr,
    forks: ForkChoiceState,
    active: ChainState,
    peers: Vec<PeerAddr>,
    counters: NodeCounters,
    network: NetworkConfig,
    sync: SyncConfig,
}

/// What a node holds: the known blocks, the active best branch, the known peers, and counters.
#[verifier::ext_equal]
pub struct NodeView {
    pub node_id: Seq<char>,
    pub bound_addr: PeerAddr,
    pub advertised_addr: PeerAddr,
    pub forks: ForkView,
    pub active: ChainView,
    pub peers: Seq<PeerAddr>,
    pub counters: NodeCounters,
    pub network: NetworkView,
    pub sync: SyncConfig,
}

impl View for NodeState {
    type V = NodeView;

    closed spec fn view(&self) -> NodeView {
        NodeView {
            node_id: self.node_id@,
            bound_addr: self.bound_addr,
            advertised_addr: self.advertised_addr,
            forks: self.forks@,
            active: self.active@,
            peers: self.peers@,
            counters: self.counters,
            network: self.network@,
            sync: self.sync,
        }
    }
}

/// The active chain that belongs to a fork choice: its best branch.
pub open spec fn active_of(forks: ForkView) -> ChainView {
    ChainView { config: forks.config, blocks: forks.spec_best_chain() }
}

/// Every known block was accepted, with the hash and the sampler that nodes use.
pub open spec fn forks_are_valid(forks: ForkView) -> bool {
    &&& forks.is_consistent()
    &&& fork_laws::all_accepted(forks, ToyHash, DeterministicSampler)
}

/// The same, kept closed where it is only handed on.
#[verifier::opaque]
spec fn is_sound(forks: ForkView) -> bool {
    forks_are_valid(forks)
}

/// No peer is listed twice, none is the node itself, and there are not too many.
pub open spec fn peers_are_valid(node: NodeView) -> bool {
    &&& node.peers.no_duplicates()
    &&& !node.peers.contains(node.bound_addr)
    &&& !node.peers.contains(node.advertised_addr)
    &&& node.peers.len() <= node.network.max_peers
}

impl NodeView {
    /// The active chain is the best branch of accepted blocks, and the peers are in order.
    pub open spec fn is_consistent(self) -> bool {
        &&& forks_are_valid(self.forks)
        &&& self.active == active_of(self.forks)
        &&& peers_are_valid(self)
    }

    /// An arrival that changes no fork choice changes nothing.
    proof fn lemma_unchanged_arrival(self, block: BlockView)
        requires
            self.active == active_of(self.forks),
            forks_after(self.forks, block) == self.forks,
        ensures
            with_arrival(self, block) == self,
    {
        assert(with_arrival(self, block) =~= self);
    }
}

/// The hash of a block, as nodes compute it.
#[verifier::opaque]
pub open spec fn block_id_of(block: BlockView) -> Digest {
    validation::header_hash(ToyHash, block.header)
}

/// The hash of a block, as nodes compute it.
pub fn block_id(block: &Block) -> (hash: Digest)
    ensures
        hash == block_id_of(block@),
{
    reveal(block_id_of);
    block_hash(&ToyHash, block)
}

/// What becomes of a block that arrives.
#[verifier::opaque]
pub open spec fn fate_of(forks: ForkView, block: BlockView) -> BlockFate {
    match fork_choice::spec_try_insert(forks, ToyHash, DeterministicSampler, block) {
        Some(Ok(hash)) => if forks.nodes.contains_key(hash) {
            BlockFate::Known
        } else {
            BlockFate::New
        },
        _ => BlockFate::Refused,
    }
}

/// The fork choice after a block has arrived.
#[verifier::opaque]
pub open spec fn forks_after(forks: ForkView, block: BlockView) -> ForkView {
    fork_choice::spec_after_try(forks, ToyHash, DeterministicSampler, block)
}

/// The block would stand directly on the best tip.
pub open spec fn follows_best(forks: ForkView, block: BlockView) -> bool {
    &&& block.header.previous_block == forks.spec_best_hash()
    &&& block.header.height == forks.spec_best_height()
}

/// The best branch moved away from the head it had.
pub open spec fn is_reorg(before: ForkView, after: ForkView) -> bool {
    &&& before.best_tip is Some
    &&& after.best_tip != before.best_tip
    &&& !follows_best(before, after.nodes[after.best_tip->0].block)
}

/// The node after a block has been taken in, known or refused, before that is counted: the fork
/// choice and the active chain follow, and a reorganisation is counted.
pub open spec fn with_arrival(node: NodeView, block: BlockView) -> NodeView {
    let after: ForkView = forks_after(node.forks, block);
    NodeView {
        forks: after,
        active: active_of(after),
        counters: NodeCounters {
            reorgs: (node.counters.reorgs + if is_reorg(node.forks, after) {
                1int
            } else {
                0
            }) as usize,
            ..node.counters
        },
        ..node
    }
}

/// A block that stands directly on the best tip and becomes the best extends the best branch.
pub proof fn lemma_extension(before: ForkView, block: BlockView)
    requires
        forks_are_valid(before),
        forks_after(before, block).best_tip != before.best_tip,
        follows_best(before, block),
    ensures
        forks_after(before, block).spec_best_chain() == before.spec_best_chain().push(block),
        validation::spec_validate(
            before.config,
            ToyHash,
            DeterministicSampler,
            chain::context_after(ToyHash, before.spec_best_chain()),
            block,
        ) is Ok,
{
    reveal(forks_after);
    reveal(block_id_of);
    let after: ForkView = forks_after(before, block);
    let hash: Digest = block_id_of(block);
    let previous: Digest = block.header.previous_block;
    fork_laws::lemma_best_chain_reaches_best(before, ToyHash, DeterministicSampler);
    assert(after == before.with_block(hash, block));
    match before.best_tip {
        Some(best) => {
            assert(fork_choice::node_is_consistent(before.config, before.nodes, best));
            assert(fork_laws::is_accepted(before, ToyHash, DeterministicSampler, best));
            if previous == Digest::spec_zero() {
                assert(block.header.height == 0);
            } else {
                lemma_branch_is_kept(before, block, previous);
                assert(fork_choice::chain_to(after.nodes, hash) =~= fork_choice::chain_to(
                    after.nodes,
                    previous,
                ).push(block));
            }
        },
        None => {
            assert(fork_choice::chain_to(after.nodes, hash) =~= before.spec_best_chain().push(
                block,
            ));
        },
    }
}

/// Taking in a block leaves every branch as it was.
pub proof fn lemma_branch_is_kept(before: ForkView, block: BlockView, tip: Digest)
    requires
        before.is_consistent(),
        before.nodes.contains_key(tip),
    ensures
        fork_choice::chain_to(forks_after(before, block).nodes, tip) == fork_choice::chain_to(
            before.nodes,
            tip,
        ),
        forks_after(before, block).nodes.contains_key(tip),
        forks_after(before, block).nodes[tip] == before.nodes[tip],
    decreases before.nodes[tip].next_height,
{
    reveal(forks_after);
    let parent: Digest = before.nodes[tip].parent;
    assert(fork_choice::node_is_consistent(before.config, before.nodes, tip));
    if parent != Digest::spec_zero() {
        lemma_branch_is_kept(before, block, parent);
    }
}

/// A chain with the blocks of the best branch.
fn rebuild(forks: &ForkChoiceState) -> (active: ChainState)
    requires
        forks.wf(),
        is_sound(forks@),
    ensures
        active@ == active_of(forks@),
{
    reveal(is_sound);
    let blocks: Vec<Block> = forks.best_chain();
    let ghost best: Seq<BlockView> = forks@.spec_best_chain();
    let mut active: ChainState = ChainState::new(*forks.config());
    let mut index: usize = 0;
    proof {
        fork_laws::lemma_best_chain_reaches_best(forks@, ToyHash, DeterministicSampler);
        assert(best.take(0) =~= Seq::<BlockView>::empty());
    }
    while index < blocks.len()
        invariant
            index <= blocks@.len(),
            chain::block_views(blocks@) == best,
            chain::is_valid_chain(forks@.config, ToyHash, DeterministicSampler, best),
            active@.config == forks@.config,
            active@.blocks == best.take(index as int),
        decreases blocks@.len() - index,
    {
        assert(best[index as int] == blocks@[index as int]@);
        let applied = active.apply_block(&ToyHash, &DeterministicSampler, blocks[index].clone());
        index += 1;
        assert(best.take(index as int) =~= best.take(index - 1).push(best[index - 1]));
    }
    assert(best.take(index as int) =~= best);
    active
}

impl NodeState {
    /// The active chain is the best branch of accepted blocks, and the peers are in order.
    #[verifier::opaque]
    pub closed spec fn wf(&self) -> bool {
        self.forks.wf() && self@.is_consistent()
    }

    /// A well-formed node is consistent in what it shows.
    pub proof fn lemma_wf(&self)
        requires
            self.wf(),
        ensures
            self@.is_consistent(),
    {
        reveal(NodeState::wf);
    }

    /// What a well-formed node holds.
    proof fn lemma_open(&self)
        requires
            self.wf(),
        ensures
            self.forks.wf(),
            is_sound(self@.forks),
            self@.active == active_of(self@.forks),
            peers_are_valid(self@),
    {
        reveal(NodeState::wf);
        reveal(is_sound);
    }

    /// What makes a node well-formed.
    proof fn lemma_close(&self)
        requires
            self.forks.wf(),
            is_sound(self@.forks),
            self@.active == active_of(self@.forks),
            peers_are_valid(self@),
        ensures
            self.wf(),
    {
        reveal(NodeState::wf);
        reveal(is_sound);
    }

    /// Takes in a block: fork choice, active chain and the count of reorganisations follow.
    fn take_in(&mut self, block: &Block) -> (fate: BlockFate)
        requires
            old(self).wf(),
            old(self)@.counters.reorgs < usize::MAX,
        ensures
            final(self).wf(),
            fate == fate_of(old(self)@.forks, block@),
            final(self)@ == with_arrival(old(self)@, block@),
    {
        let ghost before: ForkView = self.forks@;
        proof {
            self.lemma_open();
        }
        let arrival: Arrival = insert_into(&mut self.forks, block);
        if arrival.moved {
            proof {
                lemma_moved(before, block@);
            }
            if arrival.follows {
                proof {
                    lemma_sound_extension(before, block@);
                }
                let applied = self.active.apply_block(
                    &ToyHash,
                    &DeterministicSampler,
                    block.clone(),
                );
            } else {
                self.active = rebuild(&self.forks);
                if arrival.had_best {
                    self.counters.reorgs = self.counters.reorgs + 1;
                }
            }
        } else {
            proof {
                lemma_sound_unmoved(before, block@);
            }
        }
        proof {
            assert(self@ =~= with_arrival(old(self)@, block@));
            self.lemma_close();
        }
        arrival.fate
    }
}

/// What taking in a block did to a fork choice.
struct Arrival {
    fate: BlockFate,
    had_best: bool,
    moved: bool,
    follows: bool,
}

/// Takes in a block, and tells what that did to the best tip.
fn insert_into(forks: &mut ForkChoiceState, block: &Block) -> (arrival: Arrival)
    requires
        old(forks).wf(),
        is_sound(old(forks)@),
    ensures
        final(forks).wf(),
        is_sound(final(forks)@),
        final(forks)@ == forks_after(old(forks)@, block@),
        arrival.fate == fate_of(old(forks)@, block@),
        arrival.had_best == (old(forks)@.best_tip is Some),
        arrival.moved == (final(forks)@.best_tip != old(forks)@.best_tip),
        arrival.follows == follows_best(old(forks)@, block@),
{
    let ghost before: ForkView = forks@;
    let hash: Digest = block_id(block);
    let known: bool = forks.contains_block(hash);
    let had_best: bool = forks.has_best();
    let old_hash: Digest = forks.best_hash();
    let old_height: u64 = forks.best_height();
    let inserted = forks.try_insert_block(&ToyHash, &DeterministicSampler, block.clone());
    let fate: BlockFate = match inserted {
        Some(Ok(_)) => if known {
            BlockFate::Known
        } else {
            BlockFate::New
        },
        _ => BlockFate::Refused,
    };
    proof {
        lemma_fate_value(before, block@);
        lemma_stays_sound(before, block@);
        lemma_best_stays_known(before, block@);
    }
    let moved: bool = forks.has_best() && (!had_best || forks.best_hash() != old_hash);
    let follows: bool = block.header.previous_block == old_hash && block.header.height
        == old_height;
    Arrival { fate, had_best, moved, follows }
}

/// What becomes of a block, and what is known after it.
proof fn lemma_fate_value(before: ForkView, block: BlockView)
    ensures
        ({
            let inserted = fork_choice::spec_try_insert(
                before,
                ToyHash,
                DeterministicSampler,
                block,
            );
            &&& fate_of(before, block) == match inserted {
                Some(Ok(_)) => if before.nodes.contains_key(block_id_of(block)) {
                    BlockFate::Known
                } else {
                    BlockFate::New
                },
                _ => BlockFate::Refused,
            }
            &&& forks_after(before, block) == fork_choice::spec_after_try(
                before,
                ToyHash,
                DeterministicSampler,
                block,
            )
        }),
{
    reveal(fate_of);
    reveal(forks_after);
    reveal(block_id_of);
}

/// Taking in a block keeps a fork choice sound.
proof fn lemma_stays_sound(before: ForkView, block: BlockView)
    requires
        is_sound(before),
    ensures
        is_sound(forks_after(before, block)),
{
    reveal(is_sound);
    reveal(forks_after);
    if fork_choice::spec_try_insert(before, ToyHash, DeterministicSampler, block) is Some {
        fork_laws::lemma_insert_keeps_consistency(before, ToyHash, DeterministicSampler, block);
        fork_laws::lemma_insert_keeps_blocks_accepted(
            before,
            ToyHash,
            DeterministicSampler,
            block,
        );
    }
}

/// A fork choice that has a best tip keeps one.
proof fn lemma_best_stays_known(before: ForkView, block: BlockView)
    ensures
        before.best_tip is Some ==> forks_after(before, block).best_tip is Some,
{
    reveal(forks_after);
}

/// Where the best tip moves, it moves to the block that arrived.
proof fn lemma_moved(before: ForkView, block: BlockView)
    requires
        forks_after(before, block).best_tip != before.best_tip,
    ensures
        forks_after(before, block).best_tip is Some,
        forks_after(before, block).nodes[forks_after(before, block).best_tip->0].block == block,
        forks_after(before, block).config == before.config,
{
    reveal(forks_after);
}

/// What an extension of the best branch gives, of a sound fork choice.
proof fn lemma_sound_extension(before: ForkView, block: BlockView)
    requires
        is_sound(before),
        forks_after(before, block).best_tip != before.best_tip,
        follows_best(before, block),
    ensures
        forks_after(before, block).spec_best_chain() == before.spec_best_chain().push(block),
        validation::spec_validate(
            before.config,
            ToyHash,
            DeterministicSampler,
            chain::context_after(ToyHash, before.spec_best_chain()),
            block,
        ) is Ok,
{
    reveal(is_sound);
    lemma_extension(before, block);
}

/// What a best tip that stays gives, of a sound fork choice.
proof fn lemma_sound_unmoved(before: ForkView, block: BlockView)
    requires
        is_sound(before),
        forks_after(before, block).best_tip == before.best_tip,
    ensures
        active_of(forks_after(before, block)) == active_of(before),
{
    reveal(is_sound);
    lemma_unmoved(before, block);
}

/// Where the best tip stays, so does the best branch.
pub proof fn lemma_unmoved(before: ForkView, block: BlockView)
    requires
        before.is_consistent(),
        forks_after(before, block).best_tip == before.best_tip,
    ensures
        active_of(forks_after(before, block)) == active_of(before),
{
    reveal(forks_after);
    if let Some(best) = before.best_tip {
        lemma_branch_is_kept(before, block, best);
    }
}

/// What a block that arrived is counted as.
pub open spec fn counted_arrival(
    counters: NodeCounters,
    source: BlockSource,
    fate: BlockFate,
) -> NodeCounters {
    match (source, fate) {
        (_, BlockFate::Known) => counters,
        (BlockSource::Gossip, BlockFate::New) => NodeCounters {
            accepted_blocks: (counters.accepted_blocks + 1) as usize,
            ..counters
        },
        (BlockSource::Gossip, BlockFate::Refused) => NodeCounters {
            rejected_blocks: (counters.rejected_blocks + 1) as usize,
            ..counters
        },
        (BlockSource::Sync, BlockFate::New) => NodeCounters {
            synced_blocks: (counters.synced_blocks + 1) as usize,
            ..counters
        },
        (BlockSource::Sync, BlockFate::Refused) => NodeCounters {
            failed_syncs: (counters.failed_syncs + 1) as usize,
            ..counters
        },
    }
}

/// The counters that a block from a peer may change can count one more.
pub open spec fn has_room_for_block(counters: NodeCounters, source: BlockSource) -> bool {
    &&& counters.reorgs < usize::MAX
    &&& match source {
        BlockSource::Gossip => counters.accepted_blocks < usize::MAX && counters.rejected_blocks
            < usize::MAX,
        BlockSource::Sync => counters.synced_blocks < usize::MAX && counters.failed_syncs
            < usize::MAX,
    }
}

/// The counters that a line from a connection may change can count one more.
pub open spec fn has_room_for_line(counters: NodeCounters) -> bool {
    &&& has_room_for_block(counters, BlockSource::Gossip)
    &&& counters.malformed_messages < usize::MAX
    &&& counters.incompatible_messages < usize::MAX
}

/// The node after a block has arrived from a peer.
pub open spec fn after_block(node: NodeView, source: BlockSource, block: BlockView) -> NodeView {
    let arrived: NodeView = with_arrival(node, block);
    NodeView {
        counters: counted_arrival(arrived.counters, source, fate_of(node.forks, block)),
        ..arrived
    }
}

impl NodeState {
    /// Takes in a block from a peer and counts what became of it.
    pub fn apply_incoming_block(&mut self, block: &Block, source: BlockSource) -> (fate: BlockFate)
        requires
            old(self).wf(),
            has_room_for_block(old(self)@.counters, source),
        ensures
            final(self).wf(),
            fate == fate_of(old(self)@.forks, block@),
            final(self)@ == after_block(old(self)@, source, block@),
    {
        let fate: BlockFate = self.take_in(block);
        reveal(NodeState::wf);
        match (source, fate) {
            (_, BlockFate::Known) => {},
            (BlockSource::Gossip, BlockFate::New) => {
                self.counters.accepted_blocks = self.counters.accepted_blocks + 1;
            },
            (BlockSource::Gossip, BlockFate::Refused) => {
                self.counters.rejected_blocks = self.counters.rejected_blocks + 1;
            },
            (BlockSource::Sync, BlockFate::New) => {
                self.counters.synced_blocks = self.counters.synced_blocks + 1;
            },
            (BlockSource::Sync, BlockFate::Refused) => {
                self.counters.failed_syncs = self.counters.failed_syncs + 1;
            },
        }
        fate
    }
}

/// Up to `count` items from position `start` on.
pub open spec fn window(blocks: Seq<BlockView>, start: nat, count: nat) -> Seq<BlockView> {
    let from: int = if start < blocks.len() {
        start as int
    } else {
        blocks.len() as int
    };
    let to: int = if from + count < blocks.len() {
        from + count
    } else {
        blocks.len() as int
    };
    blocks.subrange(from, to)
}

/// The position of the block with the given hash.
pub open spec fn position_of(blocks: Seq<BlockView>, hash: Digest) -> Option<nat>
    decreases blocks.len(),
{
    if blocks.len() == 0 {
        None
    } else if block_id_of(blocks.last()) == hash {
        Some((blocks.len() - 1) as nat)
    } else {
        position_of(blocks.drop_last(), hash)
    }
}

/// Where a peer that knows these hashes should resume: behind the first of them that is on the
/// chain, or at the start where none is.
pub open spec fn resume_at(blocks: Seq<BlockView>, hashes: Seq<Digest>) -> nat
    decreases hashes.len(),
{
    if hashes.len() == 0 {
        0
    } else {
        match position_of(blocks, hashes[0]) {
            Some(at) => at + 1,
            None => resume_at(blocks, hashes.skip(1)),
        }
    }
}

/// The hashes of the last blocks of a chain, newest first, and no more than `count`.
pub open spec fn spec_locator(blocks: Seq<BlockView>, count: nat) -> Seq<Digest> {
    Seq::new(
        if count < blocks.len() {
            count
        } else {
            blocks.len()
        },
        |i: int| block_id_of(blocks[blocks.len() - 1 - i]),
    )
}

/// The smaller of two sizes.
pub open spec fn smaller(left: usize, right: usize) -> usize {
    if left < right {
        left
    } else {
        right
    }
}

impl NodeState {
    /// Up to `limit` blocks of the active chain from a position on, and no more than one response
    /// may hold.
    fn blocks_from(&self, start: usize, limit: usize) -> (blocks: Vec<Block>)
        ensures
            chain::block_views(blocks@) == window(
                self@.active.blocks,
                start as nat,
                smaller(limit, self@.sync.max_blocks_per_response) as nat,
            ),
    {
        let held: &[Block] = self.active.blocks();
        let count: usize = if limit < self.sync.max_blocks_per_response {
            limit
        } else {
            self.sync.max_blocks_per_response
        };
        let from: usize = if start < held.len() {
            start
        } else {
            held.len()
        };
        let to: usize = if count < held.len() - from {
            from + count
        } else {
            held.len()
        };
        let part: &[Block] = vstd::slice::slice_subrange(held, from, to);
        assert(chain::block_views(held@) == self@.active.blocks);
        assert(held@.len() == self@.active.blocks.len());
        assert(chain::block_views(part@) =~= self@.active.blocks.subrange(from as int, to as int));
        chain::copy_blocks(part)
    }

    /// The blocks that answer a request by height.
    pub fn serve_blocks(&self, from_height: u64, requested_limit: usize) -> (blocks: Vec<Block>)
        ensures
            chain::block_views(blocks@) == window(
                self@.active.blocks,
                from_height as nat,
                smaller(requested_limit, self@.sync.max_blocks_per_response) as nat,
            ),
    {
        let held: &[Block] = self.active.blocks();
        assert(chain::block_views(held@) == self@.active.blocks);
        assert(held@.len() == self@.active.blocks.len());
        let start: usize = if from_height < held.len() as u64 {
            from_height as usize
        } else {
            held.len()
        };
        self.blocks_from(start, requested_limit)
    }
}

impl NodeState {
    /// The position of the block with the given hash on the active chain.
    fn find_active(&self, hash: Digest) -> (found: Option<usize>)
        ensures
            match found {
                Some(at) => position_of(self@.active.blocks, hash) == Some(at as nat) && at
                    < usize::MAX,
                None => position_of(self@.active.blocks, hash) is None,
            },
    {
        let held: &[Block] = self.active.blocks();
        let ghost blocks: Seq<BlockView> = self@.active.blocks;
        let mut left: usize = held.len();
        assert(chain::block_views(held@) == blocks);
        assert(blocks.take(left as int) =~= blocks);
        while left > 0
            invariant
                left <= held@.len(),
                chain::block_views(held@) == blocks,
                blocks == self@.active.blocks,
                position_of(blocks, hash) == position_of(blocks.take(left as int), hash),
            decreases left,
        {
            assert(blocks[left - 1] == held@[left - 1]@);
            assert(blocks.take(left as int).drop_last() =~= blocks.take(left - 1));
            if block_id(&held[left - 1]) == hash {
                return Some(left - 1);
            }
            left -= 1;
        }
        None
    }

    /// The blocks that answer a request by hashes: behind the first of them on the active chain.
    pub fn serve_after(&self, hashes: &[Digest], requested_limit: usize) -> (blocks: Vec<Block>)
        ensures
            chain::block_views(blocks@) == window(
                self@.active.blocks,
                resume_at(self@.active.blocks, hashes@),
                smaller(requested_limit, self@.sync.max_blocks_per_response) as nat,
            ),
    {
        let ghost chain_blocks: Seq<BlockView> = self@.active.blocks;
        let mut index: usize = 0;
        assert(hashes@.skip(0) =~= hashes@);
        while index < hashes.len()
            invariant
                index <= hashes@.len(),
                chain_blocks == self@.active.blocks,
                resume_at(chain_blocks, hashes@) == resume_at(
                    chain_blocks,
                    hashes@.skip(index as int),
                ),
            decreases hashes@.len() - index,
        {
            assert(hashes@.skip(index as int).skip(1) =~= hashes@.skip(index + 1));
            if let Some(at) = self.find_active(hashes[index]) {
                return self.blocks_from(at + 1, requested_limit);
            }
            index += 1;
        }
        self.blocks_from(0, requested_limit)
    }

    /// The hashes of the last blocks of the active chain, newest first.
    pub fn locator(&self) -> (hashes: Vec<Digest>)
        ensures
            hashes@ == spec_locator(self@.active.blocks, self@.sync.locator_hashes as nat),
    {
        let held: &[Block] = self.active.blocks();
        let ghost blocks: Seq<BlockView> = self@.active.blocks;
        let ghost expected: Seq<Digest> = spec_locator(blocks, self@.sync.locator_hashes as nat);
        assert(chain::block_views(held@) == blocks);
        assert(held@.len() == blocks.len());
        let count: usize = if self.sync.locator_hashes < held.len() {
            self.sync.locator_hashes
        } else {
            held.len()
        };
        let mut hashes: Vec<Digest> = Vec::new();
        let mut index: usize = 0;
        while index < count
            invariant
                index <= count <= held@.len(),
                chain::block_views(held@) == blocks,
                blocks.len() == held@.len(),
                expected == spec_locator(blocks, self@.sync.locator_hashes as nat),
                expected.len() == count,
                hashes@ == expected.take(index as int),
            decreases count - index,
        {
            let at: usize = held.len() - 1 - index;
            assert(blocks[at as int] == held@[at as int]@);
            hashes.push(block_id(&held[at]));
            index += 1;
            assert(expected.take(index as int) =~= expected.take(index - 1).push(
                expected[index - 1],
            ));
        }
        assert(expected.take(index as int) =~= expected);
        hashes
    }
}

/// What a node does after a line has arrived.
#[derive(Debug)]
pub enum IncomingAction {
    /// Nothing more.
    Nothing,
    /// Sends these blocks back, and the end of the list.
    Respond(Vec<Block>),
    /// Stores the block and passes it on to the peers.
    Gossip(Block),
    /// Adds the peer at this address.
    Learn(String),
}

/// What a node does after a line has arrived.
pub enum ActionView {
    Nothing,
    Respond(Seq<BlockView>),
    Gossip(BlockView),
    Learn(Seq<char>),
}

impl View for IncomingAction {
    type V = ActionView;

    open spec fn view(&self) -> ActionView {
        match self {
            IncomingAction::Nothing => ActionView::Nothing,
            IncomingAction::Respond(blocks) => ActionView::Respond(chain::block_views(blocks@)),
            IncomingAction::Gossip(block) => ActionView::Gossip(block@),
            IncomingAction::Learn(addr) => ActionView::Learn(addr@),
        }
    }
}

/// The node after a line that no message could be read from: refused, and counted as foreign
/// where it begins as an envelope does, as malformed otherwise.
pub open spec fn after_bad_line(node: NodeView, line: Seq<char>) -> NodeView {
    let counters: NodeCounters = NodeCounters {
        rejected_blocks: (node.counters.rejected_blocks + 1) as usize,
        ..node.counters
    };
    NodeView {
        counters: if WIRE_MAGIC@.is_prefix_of(line) {
            NodeCounters {
                incompatible_messages: (counters.incompatible_messages + 1) as usize,
                ..counters
            }
        } else {
            NodeCounters {
                malformed_messages: (counters.malformed_messages + 1) as usize,
                ..counters
            }
        },
        ..node
    }
}

/// The node with one more malformed message.
pub open spec fn after_malformed(node: NodeView) -> NodeView {
    NodeView {
        counters: NodeCounters {
            malformed_messages: (node.counters.malformed_messages + 1) as usize,
            ..node.counters
        },
        ..node
    }
}

/// The node after a line has arrived that reads as the given message, or as none.
pub open spec fn after_message(
    node: NodeView,
    decoded: Result<MessageView, Seq<char>>,
    line: Seq<char>,
) -> NodeView {
    match decoded {
        Ok(MessageView::Block(block)) => after_block(node, BlockSource::Gossip, block),
        Ok(MessageView::EndBlocks) => after_malformed(node),
        Ok(_) => node,
        Err(_) => after_bad_line(node, line),
    }
}

/// What the node does after such a line.
pub open spec fn action_on_message(
    node: NodeView,
    decoded: Result<MessageView, Seq<char>>,
) -> ActionView {
    match decoded {
        Ok(MessageView::GetBlocks { from_height, limit }) => ActionView::Respond(
            window(
                node.active.blocks,
                from_height as nat,
                smaller(limit, node.sync.max_blocks_per_response) as nat,
            ),
        ),
        Ok(MessageView::Locate { hashes, limit }) => ActionView::Respond(
            window(
                node.active.blocks,
                resume_at(node.active.blocks, hashes),
                smaller(limit, node.sync.max_blocks_per_response) as nat,
            ),
        ),
        Ok(MessageView::Block(block)) => if fate_of(node.forks, block) == BlockFate::New {
            ActionView::Gossip(block)
        } else {
            ActionView::Nothing
        },
        Ok(MessageView::Peer { addr }) => ActionView::Learn(addr),
        _ => ActionView::Nothing,
    }
}

/// The node after a line has arrived.
pub open spec fn after_line(node: NodeView, line: Seq<char>) -> NodeView {
    after_message(node, envelope::spec_decode_network(line, node.network.wire), line)
}

/// What the node does after a line has arrived.
pub open spec fn action_on(node: NodeView, line: Seq<char>) -> ActionView {
    action_on_message(node, envelope::spec_decode_network(line, node.network.wire))
}

/// How catching up with a peer goes on after a line.
#[derive(Clone, Copy, Debug, PartialEq, Eq, Structural)]
pub enum SyncStep {
    /// Another line must come.
    More,
    /// The peer has sent all it had.
    Done,
    /// The peer sent something unusable.
    Failed,
}

/// The node after a line of a peer's answer that reads as the given message, or as none, and how
/// to go on.
pub open spec fn after_sync_message(
    node: NodeView,
    decoded: Result<MessageView, Seq<char>>,
) -> (NodeView, SyncStep) {
    match decoded {
        Ok(MessageView::Block(block)) => (
            after_block(node, BlockSource::Sync, block),
            if fate_of(node.forks, block) == BlockFate::Refused {
                SyncStep::Failed
            } else {
                SyncStep::More
            },
        ),
        Ok(MessageView::EndBlocks) => (node, SyncStep::Done),
        _ => (node, SyncStep::Failed),
    }
}

/// The block of such a line that is new, where there is one.
pub open spec fn new_block_of(
    node: NodeView,
    decoded: Result<MessageView, Seq<char>>,
) -> Option<BlockView> {
    match decoded {
        Ok(MessageView::Block(block)) => if fate_of(node.forks, block) == BlockFate::New {
            Some(block)
        } else {
            None
        },
        _ => None,
    }
}

/// The node after a line of a peer's answer, and how to go on.
pub open spec fn after_sync_line(node: NodeView, line: Seq<char>) -> (NodeView, SyncStep) {
    after_sync_message(node, envelope::spec_decode_network(line, node.network.wire))
}

/// The block of a line of a peer's answer that is new, where there is one.
pub open spec fn new_block_in(node: NodeView, line: Seq<char>) -> Option<BlockView> {
    new_block_of(node, envelope::spec_decode_network(line, node.network.wire))
}

impl NodeState {
    /// Counts a malformed message.
    fn count_malformed(&mut self)
        requires
            old(self).wf(),
            old(self)@.counters.malformed_messages < usize::MAX,
        ensures
            final(self).wf(),
            final(self)@ == after_malformed(old(self)@),
    {
        reveal(NodeState::wf);
        self.counters.malformed_messages = self.counters.malformed_messages + 1;
    }

    /// Counts a line that no message could be read from.
    fn count_bad_line(&mut self, line: &str)
        requires
            old(self).wf(),
            has_room_for_line(old(self)@.counters),
        ensures
            final(self).wf(),
            final(self)@ == after_bad_line(old(self)@, line@),
    {
        reveal(NodeState::wf);
        self.counters.rejected_blocks = self.counters.rejected_blocks + 1;
        if envelope::is_enveloped(line) {
            self.counters.incompatible_messages = self.counters.incompatible_messages + 1;
        } else {
            self.counters.malformed_messages = self.counters.malformed_messages + 1;
        }
    }

    /// Handles a line from a connection that reads as the given message, or as none.
    fn handle_message(&mut self, decoded: Result<PeerMessage, String>, line: &str) -> (action:
        IncomingAction)
        requires
            old(self).wf(),
            has_room_for_line(old(self)@.counters),
        ensures
            final(self).wf(),
            final(self)@ == after_message(old(self)@, message::result_view(decoded), line@),
            action@ == action_on_message(old(self)@, message::result_view(decoded)),
    {
        match decoded {
            Ok(PeerMessage::Hello { .. }) => IncomingAction::Nothing,
            Ok(PeerMessage::GetBlocks { from_height, limit }) => {
                IncomingAction::Respond(self.serve_blocks(from_height, limit))
            },
            Ok(PeerMessage::Locate { hashes, limit }) => {
                IncomingAction::Respond(self.serve_after(hashes.as_slice(), limit))
            },
            Ok(PeerMessage::Block(block)) => {
                let held: Block = *block;
                match self.apply_incoming_block(&held, BlockSource::Gossip) {
                    BlockFate::New => IncomingAction::Gossip(held),
                    _ => IncomingAction::Nothing,
                }
            },
            Ok(PeerMessage::EndBlocks) => {
                self.count_malformed();
                IncomingAction::Nothing
            },
            Ok(PeerMessage::Peer { addr }) => IncomingAction::Learn(addr),
            Err(_) => {
                self.count_bad_line(line);
                IncomingAction::Nothing
            },
        }
    }

    /// Handles a line from a connection.
    pub fn handle_line(&mut self, line: &str) -> (action: IncomingAction)
        requires
            old(self).wf(),
            has_room_for_line(old(self)@.counters),
        ensures
            final(self).wf(),
            final(self)@ == after_line(old(self)@, line@),
            action@ == action_on(old(self)@, line@),
    {
        let decoded: Result<PeerMessage, String> = envelope::decode_network_message(
            line,
            &self.network.wire,
        );
        self.handle_message(decoded, line)
    }

    /// Counts a line that could not be read: one that is too long is refused, any other malformed.
    pub fn handle_read_error(&mut self, error: IncomingReadError)
        requires
            old(self).wf(),
            match error {
                IncomingReadError::Oversized => old(self)@.counters.rejected_blocks < usize::MAX
                    && old(self)@.counters.oversized_messages < usize::MAX,
                IncomingReadError::Io => old(self)@.counters.malformed_messages < usize::MAX,
            },
        ensures
            final(self).wf(),
            final(self)@ == (match error {
                IncomingReadError::Oversized => NodeView {
                    counters: NodeCounters {
                        rejected_blocks: (old(self)@.counters.rejected_blocks + 1) as usize,
                        oversized_messages: (old(self)@.counters.oversized_messages + 1) as usize,
                        ..old(self)@.counters
                    },
                    ..old(self)@
                },
                IncomingReadError::Io => after_malformed(old(self)@),
            }),
    {
        reveal(NodeState::wf);
        match error {
            IncomingReadError::Oversized => {
                self.counters.rejected_blocks = self.counters.rejected_blocks + 1;
                self.counters.oversized_messages = self.counters.oversized_messages + 1;
            },
            IncomingReadError::Io => {
                self.counters.malformed_messages = self.counters.malformed_messages + 1;
            },
        }
    }

    /// What to ask peers for when catching up; nothing where there is no peer.
    pub fn sync_request(&self) -> (request: Option<PeerMessage>)
        ensures
            match request {
                Some(message) => self@.peers.len() > 0 && message@ == (MessageView::Locate {
                    hashes: spec_locator(self@.active.blocks, self@.sync.locator_hashes as nat),
                    limit: self@.sync.max_blocks_per_response,
                }),
                None => self@.peers.len() == 0,
            },
    {
        if self.peers.len() == 0 {
            return None;
        }
        Some(
            PeerMessage::Locate {
                hashes: self.locator(),
                limit: self.sync.max_blocks_per_response,
            },
        )
    }

    /// Handles a line of a peer's answer that reads as the given message, or as none.
    fn handle_sync_message(&mut self, decoded: Result<PeerMessage, String>) -> (outcome: (
        SyncStep,
        Option<Block>,
    ))
        requires
            old(self).wf(),
            has_room_for_block(old(self)@.counters, BlockSource::Sync),
        ensures
            final(self).wf(),
            final(self)@ == after_sync_message(old(self)@, message::result_view(decoded)).0,
            outcome.0 == after_sync_message(old(self)@, message::result_view(decoded)).1,
            match outcome.1 {
                Some(block) => new_block_of(old(self)@, message::result_view(decoded)) == Some(
                    block@,
                ),
                None => new_block_of(old(self)@, message::result_view(decoded)) is None,
            },
    {
        match decoded {
            Ok(PeerMessage::Block(block)) => {
                let held: Block = *block;
                match self.apply_incoming_block(&held, BlockSource::Sync) {
                    BlockFate::New => (SyncStep::More, Some(held)),
                    BlockFate::Known => (SyncStep::More, None),
                    BlockFate::Refused => (SyncStep::Failed, None),
                }
            },
            Ok(PeerMessage::EndBlocks) => (SyncStep::Done, None),
            _ => (SyncStep::Failed, None),
        }
    }

    /// Handles a line of a peer's answer: how to go on, and the block to store where one is new.
    pub fn handle_sync_line(&mut self, line: &str) -> (outcome: (SyncStep, Option<Block>))
        requires
            old(self).wf(),
            has_room_for_block(old(self)@.counters, BlockSource::Sync),
        ensures
            final(self).wf(),
            final(self)@ == after_sync_line(old(self)@, line@).0,
            outcome.0 == after_sync_line(old(self)@, line@).1,
            match outcome.1 {
                Some(block) => new_block_in(old(self)@, line@) == Some(block@),
                None => new_block_in(old(self)@, line@) is None,
            },
    {
        let decoded: Result<PeerMessage, String> = envelope::decode_network_message(
            line,
            &self.network.wire,
        );
        self.handle_sync_message(decoded)
    }

    /// Counts a line of a peer's answer that is too long.
    pub fn record_oversized_answer(&mut self)
        requires
            old(self).wf(),
            old(self)@.counters.oversized_messages < usize::MAX,
        ensures
            final(self).wf(),
            final(self)@ == (NodeView {
                counters: NodeCounters {
                    oversized_messages: (old(self)@.counters.oversized_messages + 1) as usize,
                    ..old(self)@.counters
                },
                ..old(self)@
            }),
    {
        reveal(NodeState::wf);
        self.counters.oversized_messages = self.counters.oversized_messages + 1;
    }

    /// Counts a peer that could not be caught up with.
    pub fn record_failed_sync(&mut self)
        requires
            old(self).wf(),
            old(self)@.counters.failed_syncs < usize::MAX,
        ensures
            final(self).wf(),
            final(self)@ == (NodeView {
                counters: NodeCounters {
                    failed_syncs: (old(self)@.counters.failed_syncs + 1) as usize,
                    ..old(self)@.counters
                },
                ..old(self)@
            }),
    {
        reveal(NodeState::wf);
        self.counters.failed_syncs = self.counters.failed_syncs + 1;
    }

    /// Counts an answer that could not be sent.
    pub fn record_failed_response(&mut self)
        requires
            old(self).wf(),
            old(self)@.counters.failed_responses < usize::MAX,
        ensures
            final(self).wf(),
            final(self)@ == (NodeView {
                counters: NodeCounters {
                    failed_responses: (old(self)@.counters.failed_responses + 1) as usize,
                    ..old(self)@.counters
                },
                ..old(self)@
            }),
    {
        reveal(NodeState::wf);
        self.counters.failed_responses = self.counters.failed_responses + 1;
    }
}

/// The node after it has mined a block.
pub open spec fn after_mined(node: NodeView, block: BlockView) -> NodeView {
    let arrived: NodeView = with_arrival(node, block);
    NodeView {
        counters: NodeCounters {
            mined_blocks: (arrived.counters.mined_blocks + 1) as usize,
            ..arrived.counters
        },
        ..arrived
    }
}

/// The block is what mining on the node's best tip gives.
pub open spec fn is_mined_by(
    node: NodeView,
    training_seed: u64,
    sampling_entropy: u64,
    block: BlockView,
) -> bool {
    mining::is_mined_block(
        ToyHash,
        node.forks.config,
        node.forks.best_context(),
        training_seed,
        sampling_entropy,
        block,
    )
}

/// Some nonce gives the node's next block enough work.
pub open spec fn can_mine(node: NodeView, training_seed: u64, sampling_entropy: u64) -> bool {
    mining::is_minable(
        ToyHash,
        mining::next_header(
            ToyHash,
            node.forks.config,
            node.forks.best_context(),
            training_seed,
            sampling_entropy,
        ),
        node.forks.config.difficulty_zero_bits,
    )
}

/// A block that is not new changes nothing.
proof fn lemma_not_new(forks: ForkView, block: BlockView)
    requires
        fate_of(forks, block) != BlockFate::New,
    ensures
        forks_after(forks, block) == forks,
{
    reveal(fate_of);
    reveal(forks_after);
}

impl NodeState {
    /// Mines a block on the best tip, where some nonce gives it enough work.
    fn mine_candidate(&self, training_seed: u64, sampling_entropy: u64) -> (mined: Option<Block>)
        requires
            self.wf(),
        ensures
            match mined {
                Some(block) => is_mined_by(self@, training_seed, sampling_entropy, block@),
                None => !can_mine(self@, training_seed, sampling_entropy),
            },
    {
        reveal(NodeState::wf);
        self.forks.try_mine_next_block(
            &ToyHash,
            &DeterministicSampler,
            training_seed,
            sampling_entropy,
        )
    }

    /// Counts a mined block.
    fn count_mined(&mut self)
        requires
            old(self).wf(),
            old(self)@.counters.mined_blocks < usize::MAX,
        ensures
            final(self).wf(),
            final(self)@ == (NodeView {
                counters: NodeCounters {
                    mined_blocks: (old(self)@.counters.mined_blocks + 1) as usize,
                    ..old(self)@.counters
                },
                ..old(self)@
            }),
    {
        reveal(NodeState::wf);
        self.counters.mined_blocks = self.counters.mined_blocks + 1;
    }

    /// Mines a block on the best tip and takes it in. Gives nothing where no nonce gives it enough
    /// work, or where it cannot be taken in.
    pub fn mine_once(&mut self, training_seed: u64, sampling_entropy: u64) -> (mined: Option<Block>)
        requires
            old(self).wf(),
            old(self)@.counters.mined_blocks < usize::MAX,
            old(self)@.counters.reorgs < usize::MAX,
        ensures
            final(self).wf(),
            match mined {
                Some(block) => {
                    &&& is_mined_by(old(self)@, training_seed, sampling_entropy, block@)
                    &&& fate_of(old(self)@.forks, block@) == BlockFate::New
                    &&& final(self)@ == after_mined(old(self)@, block@)
                },
                None => {
                    &&& final(self)@ == old(self)@
                    &&& can_mine(old(self)@, training_seed, sampling_entropy) ==> exists|
                        block: BlockView,
                    | #[trigger]
                        is_mined_by(old(self)@, training_seed, sampling_entropy, block) && fate_of(
                            old(self)@.forks,
                            block,
                        ) != BlockFate::New
                },
            },
    {
        let ghost before: NodeView = self@;
        let block: Block = match self.mine_candidate(training_seed, sampling_entropy) {
            Some(block) => block,
            None => return None,
        };
        assert(is_mined_by(before, training_seed, sampling_entropy, block@));
        match self.take_in(&block) {
            BlockFate::New => {
                self.count_mined();
                Some(block)
            },
            _ => {
                proof {
                    old(self).lemma_wf();
                    lemma_not_new(before.forks, block@);
                    before.lemma_unchanged_arrival(block@);
                }
                None
            },
        }
    }
}

/// A peer that is not added: the node itself, one that is known, or one too many.
pub open spec fn is_refused_peer(node: NodeView, peer: PeerAddr) -> bool {
    ||| peer == node.bound_addr
    ||| peer == node.advertised_addr
    ||| node.peers.contains(peer)
    ||| node.peers.len() >= node.network.max_peers
}

/// The node after a peer has been added or refused.
pub open spec fn after_peer(node: NodeView, peer: PeerAddr) -> NodeView {
    if is_refused_peer(node, peer) {
        NodeView {
            counters: NodeCounters {
                peer_rejections: (node.counters.peer_rejections + 1) as usize,
                ..node.counters
            },
            ..node
        }
    } else {
        NodeView { peers: node.peers.push(peer), ..node }
    }
}

/// The node after several peers have been added or refused, one after the other.
pub open spec fn after_peers(node: NodeView, peers: Seq<PeerAddr>) -> NodeView
    decreases peers.len(),
{
    if peers.len() == 0 {
        node
    } else {
        after_peer(after_peers(node, peers.drop_last()), peers.last())
    }
}

/// What a node tells about itself.
#[derive(Debug, PartialEq, Eq)]
pub struct NodeSnapshot {
    pub node_id: String,
    pub bound_addr: PeerAddr,
    pub advertised_addr: PeerAddr,
    pub height: u64,
    pub head: Digest,
    pub known_blocks: usize,
    pub accepted_blocks: usize,
    pub rejected_blocks: usize,
    pub mined_blocks: usize,
    pub malformed_messages: usize,
    pub incompatible_messages: usize,
    pub oversized_messages: usize,
    pub outbound_blocks: usize,
    pub failed_broadcasts: usize,
    pub synced_blocks: usize,
    pub failed_syncs: usize,
    pub reorgs: usize,
    pub peer_rejections: usize,
    pub failed_responses: usize,
    pub known_peers: Vec<PeerAddr>,
}

impl Clone for NodeSnapshot {
    fn clone(&self) -> (copy: Self)
        ensures
            copy.node_id@ == self.node_id@,
            copy.known_peers@ == self.known_peers@,
            copy == (NodeSnapshot {
                node_id: copy.node_id,
                known_peers: copy.known_peers,
                ..*self
            }),
    {
        NodeSnapshot {
            node_id: self.node_id.clone(),
            known_peers: config::copy_addrs(self.known_peers.as_slice()),
            ..*self
        }
    }
}

impl NodeSnapshot {
    /// The counters of the snapshot.
    pub open spec fn counters(&self) -> NodeCounters {
        NodeCounters {
            accepted_blocks: self.accepted_blocks,
            rejected_blocks: self.rejected_blocks,
            mined_blocks: self.mined_blocks,
            malformed_messages: self.malformed_messages,
            incompatible_messages: self.incompatible_messages,
            oversized_messages: self.oversized_messages,
            outbound_blocks: self.outbound_blocks,
            failed_broadcasts: self.failed_broadcasts,
            synced_blocks: self.synced_blocks,
            failed_syncs: self.failed_syncs,
            reorgs: self.reorgs,
            peer_rejections: self.peer_rejections,
            failed_responses: self.failed_responses,
        }
    }
}

impl NodeState {
    /// Adds a peer, unless it is the node itself, known, or one too many: that is counted.
    pub fn add_peer(&mut self, peer: PeerAddr)
        requires
            old(self).wf(),
            old(self)@.counters.peer_rejections < usize::MAX,
        ensures
            final(self).wf(),
            final(self)@ == after_peer(old(self)@, peer),
    {
        reveal(NodeState::wf);
        if peer == self.bound_addr || peer == self.advertised_addr || config::holds_addr(
            self.peers.as_slice(),
            peer,
        ) || self.peers.len() >= self.network.max_peers {
            self.counters.peer_rejections = self.counters.peer_rejections + 1;
        } else {
            let ghost before: Seq<PeerAddr> = self.peers@;
            self.peers.push(peer);
            proof {
                assert(self@.peers =~= before.push(peer));
                assert forall|other: PeerAddr| before.push(peer).contains(other) implies (other
                    == peer || before.contains(other)) by {
                    let i: int = choose|i: int|
                        0 <= i < before.push(peer).len() && before.push(peer)[i] == other;
                    if i < before.len() {
                        assert(before[i] == other);
                    }
                }
            }
        }
    }

    /// Counts how many peers a block was sent to, and how many could not be reached.
    pub fn record_broadcast(&mut self, sent: usize, failed: usize)
        requires
            old(self).wf(),
            old(self)@.counters.outbound_blocks + sent <= usize::MAX,
            old(self)@.counters.failed_broadcasts + failed <= usize::MAX,
        ensures
            final(self).wf(),
            final(self)@ == (NodeView {
                counters: NodeCounters {
                    outbound_blocks: (old(self)@.counters.outbound_blocks + sent) as usize,
                    failed_broadcasts: (old(self)@.counters.failed_broadcasts + failed) as usize,
                    ..old(self)@.counters
                },
                ..old(self)@
            }),
    {
        reveal(NodeState::wf);
        self.counters.outbound_blocks = self.counters.outbound_blocks + sent;
        self.counters.failed_broadcasts = self.counters.failed_broadcasts + failed;
    }

    /// The line that passes a block on to peers.
    pub fn broadcast_line(&self, block: &Block) -> (line: String)
        ensures
            line@ == envelope::network_text(
                self@.network.wire,
                MessageView::Block(block@),
            ) + "\n"@,
    {
        let mut line: String = envelope::encode_network_message(
            &self.network.wire,
            &PeerMessage::Block(Box::new(block.clone())),
        );
        line.append("\n");
        line
    }

    /// The line that carries a message to a peer.
    pub fn message_line(&self, held: &PeerMessage) -> (line: String)
        ensures
            line@ == envelope::network_text(self@.network.wire, held@) + "\n"@,
    {
        let mut line: String = envelope::encode_network_message(&self.network.wire, held);
        line.append("\n");
        line
    }

    /// Whether every counter can count one more.
    pub fn has_room(&self) -> (room: bool)
        ensures
            room == self@.counters.spec_has_room(),
    {
        self.counters.has_room()
    }

    /// The known peers.
    pub fn peers(&self) -> (peers: &[PeerAddr])
        ensures
            peers@ == self@.peers,
    {
        self.peers.as_slice()
    }

    pub fn network(&self) -> (network: &NetworkConfig)
        ensures
            network@ == self@.network,
    {
        &self.network
    }

    /// Whether one more connection may be served, beside those that are.
    pub fn accepts_connection(&self, served: usize) -> (accepts: bool)
        ensures
            accepts == (served < self@.network.max_inbound_connections),
    {
        served < self.network.max_inbound_connections
    }

    /// What the node tells about itself.
    pub fn snapshot(&self) -> (snapshot: NodeSnapshot)
        requires
            self.wf(),
        ensures
            snapshot.node_id@ == self@.node_id,
            snapshot.bound_addr == self@.bound_addr,
            snapshot.advertised_addr == self@.advertised_addr,
            snapshot.height == self@.active.blocks.len(),
            snapshot.height == self@.forks.spec_best_height(),
            snapshot.head == self@.forks.spec_best_hash(),
            snapshot.known_blocks == self@.forks.nodes.dom().len(),
            snapshot.counters() == self@.counters,
            snapshot.known_peers@ == self@.peers,
    {
        reveal(NodeState::wf);
        proof {
            fork_laws::lemma_best_chain_reaches_best(self.forks@, ToyHash, DeterministicSampler);
        }
        NodeSnapshot {
            node_id: self.node_id.clone(),
            bound_addr: self.bound_addr,
            advertised_addr: self.advertised_addr,
            height: self.active.height(),
            head: self.active.head_hash(&ToyHash),
            known_blocks: self.forks.known_block_count(),
            accepted_blocks: self.counters.accepted_blocks,
            rejected_blocks: self.counters.rejected_blocks,
            mined_blocks: self.counters.mined_blocks,
            malformed_messages: self.counters.malformed_messages,
            incompatible_messages: self.counters.incompatible_messages,
            oversized_messages: self.counters.oversized_messages,
            outbound_blocks: self.counters.outbound_blocks,
            failed_broadcasts: self.counters.failed_broadcasts,
            synced_blocks: self.counters.synced_blocks,
            failed_syncs: self.counters.failed_syncs,
            reorgs: self.counters.reorgs,
            peer_rejections: self.counters.peer_rejections,
            failed_responses: self.counters.failed_responses,
            known_peers: config::copy_addrs(self.peers.as_slice()),
        }
    }
}

/// Why a node could not start.
#[derive(Debug, PartialEq, Eq)]
pub enum StartError {
    /// The configuration does not allow it.
    Config(String),
    /// The block log could not be loaded.
    Storage(StorageError),
}

/// Why a node could not start.
pub enum StartErrorView {
    Config(Seq<char>),
    Storage(StorageErrorView),
}

impl View for StartError {
    type V = StartErrorView;

    open spec fn view(&self) -> StartErrorView {
        match self {
            StartError::Config(message) => StartErrorView::Config(message@),
            StartError::Storage(error) => StartErrorView::Storage(error@),
        }
    }
}

/// A node that starts with the given known blocks: no peer added yet, nothing counted, and the
/// envelope bound to the chain's parameters.
pub open spec fn fresh_node(
    settings: NodeConfigView,
    bound_addr: PeerAddr,
    forks: ForkView,
) -> NodeView {
    NodeView {
        node_id: settings.node_id,
        bound_addr,
        advertised_addr: match settings.advertise_addr {
            Some(addr) => addr,
            None => bound_addr,
        },
        forks,
        active: active_of(forks),
        peers: Seq::empty(),
        counters: NodeCounters::spec_zero(),
        network: NetworkView {
            wire: envelope::WireView {
                chain_fingerprint: envelope::spec_fingerprint(settings.chain),
                ..settings.network.wire
            },
            ..settings.network
        },
        sync: settings.sync,
    }
}

/// What a node knows before it starts: the blocks of its log, where it has one.
pub open spec fn loaded_forks(chain_config: ChainConfig, log: Option<Seq<char>>) -> Result<
    (ForkView, LogTail),
    StorageErrorView,
> {
    match log {
        Some(text) => storage::spec_load(chain_config, text),
        None => Ok((fork_choice::nothing_known(chain_config), LogTail::Clean)),
    }
}

/// The text of a log that may be missing.
pub open spec fn log_view(log: Option<&str>) -> Option<Seq<char>> {
    match log {
        Some(text) => Some(text@),
        None => None,
    }
}

/// What starting a node gives: with the blocks of its log, where it has one, and the configured
/// peers.
pub open spec fn spec_start(
    settings: NodeConfigView,
    bound_addr: PeerAddr,
    log: Option<Seq<char>>,
) -> Result<(NodeView, LogTail), StartErrorView> {
    if config::config_fault(settings) is Some {
        Err(StartErrorView::Config(config::config_fault(settings)->0))
    } else {
        match loaded_forks(settings.chain, log) {
            Ok((forks, tail)) => Ok(
                (after_peers(fresh_node(settings, bound_addr, forks), settings.peers), tail),
            ),
            Err(error) => Err(StartErrorView::Storage(error)),
        }
    }
}

/// Loads the block log, where there is one.
fn load_forks(chain_config: ChainConfig, log: Option<&str>) -> (result: Result<
    (ForkChoiceState, LogTail),
    StorageError,
>)
    ensures
        match result {
            Ok((forks, tail)) => forks.wf() && forks_are_valid(forks@) && loaded_forks(
                chain_config,
                log_view(log),
            ) == Ok::<(ForkView, LogTail), StorageErrorView>((forks@, tail)),
            Err(error) => loaded_forks(chain_config, log_view(log)) == Err::<
                (ForkView, LogTail),
                StorageErrorView,
            >(error@),
        },
{
    match log {
        Some(text) => match storage::load_chain(chain_config, text) {
            Ok((forks, tail)) => {
                proof {
                    storage::laws::lemma_loaded_blocks_are_accepted(chain_config, text@);
                }
                Ok((forks, tail))
            },
            Err(error) => Err(error),
        },
        None => Ok((ForkChoiceState::new(chain_config), LogTail::Clean)),
    }
}

impl NodeState {
    /// A node with the given known blocks, before any peer is added.
    fn fresh(settings: &NodeConfig, bound_addr: PeerAddr, forks: ForkChoiceState) -> (node: Self)
        requires
            forks.wf(),
            forks_are_valid(forks@),
        ensures
            node.wf(),
            node@ == fresh_node(settings@, bound_addr, forks@),
    {
        reveal(NodeState::wf);
        reveal(is_sound);
        let mut network: NetworkConfig = settings.network.clone();
        network.wire.chain_fingerprint = envelope::chain_fingerprint(&settings.chain);
        let active: ChainState = rebuild(&forks);
        let node: NodeState = NodeState {
            node_id: settings.node_id.clone(),
            bound_addr,
            advertised_addr: match settings.advertise_addr {
                Some(addr) => addr,
                None => bound_addr,
            },
            forks,
            active,
            peers: Vec::new(),
            counters: NodeCounters::zero(),
            network,
            sync: settings.sync,
        };
        assert(node@ =~= fresh_node(settings@, bound_addr, forks@));
        node
    }

    /// Adds peers to a node that has counted nothing yet.
    fn add_first_peers(&mut self, peers: &[PeerAddr])
        requires
            old(self).wf(),
            old(self)@.counters == NodeCounters::spec_zero(),
        ensures
            final(self).wf(),
            final(self)@ == after_peers(old(self)@, peers@),
    {
        let mut index: usize = 0;
        assert(peers@.take(0) =~= Seq::<PeerAddr>::empty());
        while index < peers.len()
            invariant
                index <= peers@.len(),
                self.wf(),
                self@ == after_peers(old(self)@, peers@.take(index as int)),
                self@.counters.peer_rejections <= index,
                self@.counters == (NodeCounters {
                    peer_rejections: self@.counters.peer_rejections,
                    ..NodeCounters::spec_zero()
                }),
            decreases peers@.len() - index,
        {
            self.add_peer(peers[index]);
            index += 1;
            assert(peers@.take(index as int).drop_last() =~= peers@.take(index - 1));
        }
        assert(peers@.take(index as int) =~= peers@);
    }

    /// Starts a node: checks its configuration, loads its block log where it has one, and adds the
    /// configured peers.
    pub fn start(settings: &NodeConfig, bound_addr: PeerAddr, log: Option<&str>) -> (result: Result<
        (NodeState, LogTail),
        StartError,
    >)
        ensures
            match result {
                Ok((node, tail)) => node.wf() && spec_start(settings@, bound_addr, log_view(log))
                    == Ok::<(NodeView, LogTail), StartErrorView>((node@, tail)),
                Err(error) => spec_start(settings@, bound_addr, log_view(log)) == Err::<
                    (NodeView, LogTail),
                    StartErrorView,
                >(error@),
            },
    {
        match settings.validate() {
            Ok(()) => {},
            Err(message) => return Err(StartError::Config(message)),
        }
        let (forks, tail): (ForkChoiceState, LogTail) = match load_forks(settings.chain, log) {
            Ok(loaded) => loaded,
            Err(error) => return Err(StartError::Storage(error)),
        };
        let mut node: NodeState = NodeState::fresh(settings, bound_addr, forks);
        node.add_first_peers(settings.peers.as_slice());
        Ok((node, tail))
    }
}

} // verus!
