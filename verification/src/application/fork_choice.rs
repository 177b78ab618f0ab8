//! All known blocks, and the choice of the best branch among them.

use vstd::arithmetic::power2::pow2;
use vstd::prelude::*;

use crate::application::chain;
use crate::application::mining;
use crate::application::validation;
use crate::application::validation::{
    block_hash, validate_block_after, BlockValidationError, ChainConfig, ParentContext,
};
use crate::domain::block::BlockView;
use crate::domain::digest;
use crate::domain::{Block, Digest, ModelState};
use crate::ports::{HashPort, SamplingPort};

verus! {

/// Why a block was not taken in.
#[derive(Clone, Copy, Debug, PartialEq, Eq)]
pub enum ForkChoiceError {
    UnknownParent { previous_block: Digest },
    InvalidBlock(BlockValidationError),
}

/// A known block and its place in the tree.
#[derive(Debug)]
struct ForkNode {
    hash: Digest,
    parent: Digest,
    block: Block,
    next_height: u64,
    work_score: u128,
}

/// A known block: its hash, the hash before it, the height of a block on top of it, and the work
/// of the branch that ends in it.
#[verifier::ext_equal]
pub struct NodeView {
    pub hash: Digest,
    pub parent: Digest,
    pub block: BlockView,
    pub next_height: u64,
    pub work_score: u128,
}

impl ForkNode {
    spec fn node_view(self) -> NodeView {
        NodeView {
            hash: self.hash,
            parent: self.parent,
            block: self.block@,
            next_height: self.next_height,
            work_score: self.work_score,
        }
    }
}

/// The known blocks by hash.
pub type NodeMap = Map<Digest, NodeView>;

/// The work that one block of a chain stands for.
pub open spec fn block_work(difficulty_zero_bits: u32) -> nat {
    pow2(
        if difficulty_zero_bits < 120 {
            difficulty_zero_bits as nat
        } else {
            120
        },
    )
}

/// `left` is greater than `right` at the first position from `from` on where they differ.
pub open spec fn bytes_greater_from(left: Seq<u8>, right: Seq<u8>, from: nat) -> bool
    decreases left.len() - from,
{
    if from >= left.len() {
        false
    } else if left[from as int] != right[from as int] {
        left[from as int] > right[from as int]
    } else {
        bytes_greater_from(left, right, from + 1)
    }
}

/// The order of tips: by work, then by height, then by the bytes of the hash.
pub open spec fn spec_is_better(candidate: NodeView, best: NodeView) -> bool {
    if candidate.work_score != best.work_score {
        candidate.work_score > best.work_score
    } else if candidate.next_height != best.next_height {
        candidate.next_height > best.next_height
    } else {
        bytes_greater_from(candidate.hash@, best.hash@, 0)
    }
}

/// What fork choice holds: parameters, known blocks, and the best tip.
#[verifier::ext_equal]
pub struct ForkView {
    pub config: ChainConfig,
    pub nodes: NodeMap,
    pub best_tip: Option<Digest>,
}

/// A known block sits on its parent: its height and work follow from those of the parent.
pub open spec fn node_is_consistent(config: ChainConfig, nodes: NodeMap, hash: Digest) -> bool {
    let node: NodeView = nodes[hash];
    &&& node.hash == hash
    &&& node.parent == node.block.header.previous_block
    &&& node.next_height == node.block.header.height + 1
    &&& node.parent == Digest::spec_zero() ==> node.next_height == 1 && node.work_score
        == block_work(config.difficulty_zero_bits)
    &&& node.parent != Digest::spec_zero() ==> nodes.contains_key(node.parent)
        && node.next_height == nodes[node.parent].next_height + 1 && node.work_score
        == nodes[node.parent].work_score + block_work(config.difficulty_zero_bits)
}

/// The blocks from the first one up to `tip`, oldest first.
pub open spec fn chain_to(nodes: NodeMap, tip: Digest) -> Seq<BlockView>
    decreases nodes[tip].next_height,
{
    if !nodes.contains_key(tip) {
        Seq::empty()
    } else {
        let node: NodeView = nodes[tip];
        if node.parent == Digest::spec_zero() {
            seq![node.block]
        } else if nodes[node.parent].next_height < node.next_height {
            chain_to(nodes, node.parent).push(node.block)
        } else {
            seq![node.block]
        }
    }
}

/// What a block on top of `previous` builds on.
pub open spec fn context_on(nodes: NodeMap, previous: Digest) -> ParentContext {
    if previous == Digest::spec_zero() {
        ParentContext::spec_genesis()
    } else {
        ParentContext {
            height: nodes[previous].next_height,
            hash: nodes[previous].hash,
            model: nodes[previous].block.header.model_after,
        }
    }
}

/// The work of the branch that ends in `previous`.
pub open spec fn work_on(nodes: NodeMap, previous: Digest) -> nat {
    if previous == Digest::spec_zero() {
        0
    } else {
        nodes[previous].work_score as nat
    }
}

impl ForkView {
    /// Every known block sits on its parent, and the best tip beats every other known block.
    pub open spec fn is_consistent(self) -> bool {
        &&& self.nodes.dom().finite()
        &&& forall|hash: Digest| #[trigger]
            self.nodes.contains_key(hash) ==> node_is_consistent(self.config, self.nodes, hash)
        &&& match self.best_tip {
            Some(best) => self.nodes.contains_key(best) && forall|hash: Digest| #[trigger]
                self.nodes.contains_key(hash) && hash != best ==> spec_is_better(
                    self.nodes[best],
                    self.nodes[hash],
                ),
            None => forall|hash: Digest| !#[trigger] self.nodes.contains_key(hash),
        }
    }

    /// The block that is to be placed on is known; zero stands for the start of every branch.
    pub open spec fn knows(self, previous: Digest) -> bool {
        previous == Digest::spec_zero() || self.nodes.contains_key(previous)
    }

    /// A block on top of `previous` still has a height and a work score within the word sizes.
    pub open spec fn has_room_on(self, previous: Digest) -> bool {
        &&& context_on(self.nodes, previous).height < u64::MAX
        &&& work_on(self.nodes, previous) + block_work(self.config.difficulty_zero_bits)
            <= u128::MAX
    }

    /// The place of a block in the tree.
    pub open spec fn node_for(self, hash: Digest, block: BlockView) -> NodeView {
        NodeView {
            hash,
            parent: block.header.previous_block,
            block,
            next_height: (block.header.height + 1) as u64,
            work_score: (work_on(self.nodes, block.header.previous_block) + block_work(
                self.config.difficulty_zero_bits,
            )) as u128,
        }
    }

    /// The state after a block has been taken in: it becomes the best tip where it beats the one
    /// before.
    pub open spec fn with_block(self, hash: Digest, block: BlockView) -> ForkView {
        let node: NodeView = self.node_for(hash, block);
        let wins: bool = match self.best_tip {
            Some(best) => spec_is_better(node, self.nodes[best]),
            None => true,
        };
        ForkView {
            nodes: self.nodes.insert(hash, node),
            best_tip: if wins {
                Some(hash)
            } else {
                self.best_tip
            },
            ..self
        }
    }

    /// The height that a block on the best tip must declare.
    pub open spec fn spec_best_height(self) -> u64 {
        match self.best_tip {
            Some(best) => self.nodes[best].next_height,
            None => 0,
        }
    }

    /// The hash of the best tip; zero where there is none.
    pub open spec fn spec_best_hash(self) -> Digest {
        match self.best_tip {
            Some(best) => best,
            None => Digest::spec_zero(),
        }
    }

    /// The model that the best branch has reached.
    pub open spec fn spec_best_model(self) -> ModelState {
        match self.best_tip {
            Some(best) => self.nodes[best].block.header.model_after,
            None => ModelState::spec_genesis(),
        }
    }

    /// The blocks of the best branch, oldest first.
    pub open spec fn spec_best_chain(self) -> Seq<BlockView> {
        match self.best_tip {
            Some(best) => chain_to(self.nodes, best),
            None => Seq::empty(),
        }
    }

    /// What a block on the best tip builds on.
    pub open spec fn best_context(self) -> ParentContext {
        ParentContext {
            height: self.spec_best_height(),
            hash: self.spec_best_hash(),
            model: self.spec_best_model(),
        }
    }
}

/// A fork choice that knows nothing yet.
pub open spec fn nothing_known(config: ChainConfig) -> ForkView {
    ForkView { config, nodes: Map::empty(), best_tip: None }
}

/// What taking in a block gives: its hash, or why it was not taken in.
pub open spec fn spec_insert<H: HashPort, S: SamplingPort>(
    state: ForkView,
    hasher: H,
    sampler: S,
    block: BlockView,
) -> Result<Digest, ForkChoiceError> {
    let hash: Digest = validation::header_hash(hasher, block.header);
    let previous: Digest = block.header.previous_block;
    if state.nodes.contains_key(hash) {
        Ok(hash)
    } else if !state.knows(previous) {
        Err(ForkChoiceError::UnknownParent { previous_block: previous })
    } else {
        match validation::spec_validate(
            state.config,
            hasher,
            sampler,
            context_on(state.nodes, previous),
            block,
        ) {
            Ok(()) => Ok(hash),
            Err(error) => Err(ForkChoiceError::InvalidBlock(error)),
        }
    }
}

/// The block is new and valid, so there is one more known block after it has arrived.
pub open spec fn is_taken_in<H: HashPort, S: SamplingPort>(
    state: ForkView,
    hasher: H,
    sampler: S,
    block: BlockView,
) -> bool {
    &&& spec_insert(state, hasher, sampler, block) is Ok
    &&& !state.nodes.contains_key(validation::header_hash(hasher, block.header))
}

/// The state after an attempt to take in a block: changed only where the block is new and valid.
pub open spec fn spec_after_insert<H: HashPort, S: SamplingPort>(
    state: ForkView,
    hasher: H,
    sampler: S,
    block: BlockView,
) -> ForkView {
    if is_taken_in(state, hasher, sampler, block) {
        state.with_block(validation::header_hash(hasher, block.header), block)
    } else {
        state
    }
}

/// There is room for the block, where it is to be taken in.
pub open spec fn has_room_for<H: HashPort, S: SamplingPort>(
    state: ForkView,
    hasher: H,
    sampler: S,
    block: BlockView,
) -> bool {
    is_taken_in(state, hasher, sampler, block) ==> state.has_room_on(block.header.previous_block)
}

/// What an attempt to take in any block gives: nothing where the block is new and valid but its
/// height or work would not fit.
pub open spec fn spec_try_insert<H: HashPort, S: SamplingPort>(
    state: ForkView,
    hasher: H,
    sampler: S,
    block: BlockView,
) -> Option<Result<Digest, ForkChoiceError>> {
    if has_room_for(state, hasher, sampler, block) {
        Some(spec_insert(state, hasher, sampler, block))
    } else {
        None
    }
}

/// The state after such an attempt.
pub open spec fn spec_after_try<H: HashPort, S: SamplingPort>(
    state: ForkView,
    hasher: H,
    sampler: S,
    block: BlockView,
) -> ForkView {
    if spec_try_insert(state, hasher, sampler, block) is Some {
        spec_after_insert(state, hasher, sampler, block)
    } else {
        state
    }
}

/// The nodes of a list by hash.
spec fn node_map(nodes: Seq<ForkNode>) -> NodeMap
    decreases nodes.len(),
{
    if nodes.len() == 0 {
        Map::empty()
    } else {
        node_map(nodes.drop_last()).insert(nodes.last().hash, nodes.last().node_view())
    }
}

spec fn distinct_hashes(nodes: Seq<ForkNode>) -> bool {
    forall|i: int, j: int| 0 <= i < j < nodes.len() ==> nodes[i].hash != nodes[j].hash
}

/// The known blocks and the best tip among them.
#[derive(Debug)]
pub struct ForkChoiceState {
    config: ChainConfig,
    nodes: Vec<ForkNode>,
    best_tip: Option<Digest>,
}

impl View for ForkChoiceState {
    type V = ForkView;

    closed spec fn view(&self) -> ForkView {
        ForkView {
            config: self.config,
            nodes: node_map(self.nodes@),
            best_tip: self.best_tip,
        }
    }
}

/// A list of nodes with distinct hashes maps each hash to its node.
proof fn lemma_node_map(nodes: Seq<ForkNode>)
    requires
        distinct_hashes(nodes),
    ensures
        node_map(nodes).dom().finite(),
        node_map(nodes).dom().len() == nodes.len(),
        forall|i: int|
            0 <= i < nodes.len() ==> node_map(nodes).contains_key((#[trigger] nodes[i]).hash)
                && node_map(nodes)[nodes[i].hash] == nodes[i].node_view(),
        forall|hash: Digest| #[trigger]
            node_map(nodes).contains_key(hash) ==> exists|i: int|
                0 <= i < nodes.len() && (#[trigger] nodes[i]).hash == hash,
    decreases nodes.len(),
{
    if nodes.len() > 0 {
        let fewer: Seq<ForkNode> = nodes.drop_last();
        lemma_node_map(fewer);
        let smaller: NodeMap = node_map(fewer);
        let last: ForkNode = nodes.last();
        assert(!smaller.contains_key(last.hash)) by {
            if smaller.contains_key(last.hash) {
                let i: int = choose|i: int|
                    0 <= i < fewer.len() && (#[trigger] fewer[i]).hash == last.hash;
                assert(nodes[i].hash == nodes[nodes.len() - 1].hash);
            }
        }
        assert(node_map(nodes).dom() =~= smaller.dom().insert(last.hash));
        assert forall|i: int| 0 <= i < nodes.len() implies node_map(nodes).contains_key(
            (#[trigger] nodes[i]).hash,
        ) && node_map(nodes)[nodes[i].hash] == nodes[i].node_view() by {
            if i < fewer.len() {
                assert(fewer[i] == nodes[i]);
                assert(nodes[i].hash != nodes[nodes.len() - 1].hash);
            }
        }
        assert forall|hash: Digest| #[trigger] node_map(nodes).contains_key(hash) implies exists|
            i: int,
        | 0 <= i < nodes.len() && (#[trigger] nodes[i]).hash == hash by {
            if hash == last.hash {
                assert(nodes[nodes.len() - 1].hash == hash);
            } else {
                assert(smaller.contains_key(hash));
                let i: int = choose|i: int|
                    0 <= i < fewer.len() && (#[trigger] fewer[i]).hash == hash;
                assert(nodes[i].hash == hash);
            }
        }
    }
}

impl ForkChoiceState {
    /// No hash is held twice.
    pub closed spec fn is_distinct(&self) -> bool {
        distinct_hashes(self.nodes@)
    }

    /// No hash is held twice, every known block sits on its parent, and the best tip is the best.
    pub open spec fn wf(&self) -> bool {
        self.is_distinct() && self@.is_consistent()
    }

    /// Nothing known yet.
    pub fn new(config: ChainConfig) -> (state: Self)
        ensures
            state.wf(),
            state@ == nothing_known(config),
    {
        ForkChoiceState { config, nodes: Vec::new(), best_tip: None }
    }

    pub fn config(&self) -> (config: &ChainConfig)
        ensures
            *config == self@.config,
    {
        &self.config
    }

    /// The position of a hash in the list of nodes.
    fn find(&self, hash: Digest) -> (found: Option<usize>)
        requires
            self.is_distinct(),
        ensures
            match found {
                Some(at) => at < self.nodes@.len() && self.nodes@[at as int].hash == hash
                    && self@.nodes.contains_key(hash) && self@.nodes[hash]
                    == self.nodes@[at as int].node_view(),
                None => !self@.nodes.contains_key(hash),
            },
    {
        proof {
            lemma_node_map(self.nodes@);
        }
        let mut at: usize = 0;
        while at < self.nodes.len()
            invariant
                at <= self.nodes@.len(),
                self.is_distinct(),
                forall|i: int| 0 <= i < at ==> (#[trigger] self.nodes@[i]).hash != hash,
            decreases self.nodes@.len() - at,
        {
            if self.nodes[at].hash == hash {
                proof {
                    lemma_node_map(self.nodes@);
                }
                return Some(at);
            }
            at += 1;
        }
        None
    }

    /// The height that a block on the best tip must declare.
    pub fn best_height(&self) -> (height: u64)
        requires
            self.wf(),
        ensures
            height == self@.spec_best_height(),
    {
        match self.best_tip {
            Some(hash) => match self.find(hash) {
                Some(at) => self.nodes[at].next_height,
                None => 0,
            },
            None => 0,
        }
    }

    /// The hash of the best tip; zero where there is none.
    pub fn best_hash(&self) -> (hash: Digest)
        ensures
            hash == self@.spec_best_hash(),
    {
        match self.best_tip {
            Some(hash) => hash,
            None => Digest::zero(),
        }
    }

    /// Whether any block is known, and so a best tip.
    pub fn has_best(&self) -> (known: bool)
        ensures
            known == (self@.best_tip is Some),
    {
        self.best_tip.is_some()
    }

    /// The number of known blocks, side branches included.
    pub fn known_block_count(&self) -> (count: usize)
        requires
            self.wf(),
        ensures
            count == self@.nodes.dom().len(),
    {
        proof {
            lemma_node_map(self.nodes@);
        }
        self.nodes.len()
    }

    /// The model that the best branch has reached.
    pub fn best_model(&self) -> (model: ModelState)
        requires
            self.wf(),
        ensures
            model == self@.spec_best_model(),
    {
        match self.best_tip {
            Some(hash) => match self.find(hash) {
                Some(at) => self.nodes[at].block.header.model_after,
                None => ModelState::genesis(),
            },
            None => ModelState::genesis(),
        }
    }

    pub fn contains_block(&self, hash: Digest) -> (known: bool)
        requires
            self.wf(),
        ensures
            known == self@.nodes.contains_key(hash),
    {
        self.find(hash).is_some()
    }
}

/// The blocks at the given positions of a list of nodes, last position first.
spec fn blocks_at(nodes: Seq<ForkNode>, at: Seq<usize>) -> Seq<BlockView> {
    Seq::new(at.len(), |i: int| nodes[at[at.len() - 1 - i] as int].block@)
}

/// Copies the nodes of a list.
fn copy_nodes(nodes: &Vec<ForkNode>) -> (copy: Vec<ForkNode>)
    ensures
        copy@.len() == nodes@.len(),
        forall|i: int|
            0 <= i < nodes@.len() ==> (#[trigger] copy@[i]).node_view() == nodes@[i].node_view(),
{
    let mut copy: Vec<ForkNode> = Vec::new();
    let mut index: usize = 0;
    while index < nodes.len()
        invariant
            index <= nodes@.len(),
            copy@.len() == index,
            forall|i: int|
                0 <= i < index ==> (#[trigger] copy@[i]).node_view() == nodes@[i].node_view(),
        decreases nodes@.len() - index,
    {
        let node: &ForkNode = &nodes[index];
        copy.push(
            ForkNode {
                hash: node.hash,
                parent: node.parent,
                block: node.block.clone(),
                next_height: node.next_height,
                work_score: node.work_score,
            },
        );
        index += 1;
    }
    copy
}

/// Lists of the same nodes give the same map.
proof fn lemma_same_map(left: Seq<ForkNode>, right: Seq<ForkNode>)
    requires
        left.len() == right.len(),
        forall|i: int|
            0 <= i < right.len() ==> (#[trigger] left[i]).node_view() == right[i].node_view(),
    ensures
        node_map(left) == node_map(right),
        distinct_hashes(right) ==> distinct_hashes(left),
    decreases left.len(),
{
    if left.len() > 0 {
        let fewer: Seq<ForkNode> = left.drop_last();
        assert forall|i: int| 0 <= i < fewer.len() implies (#[trigger] fewer[i]).node_view()
            == right.drop_last()[i].node_view() by {
            assert(fewer[i] == left[i]);
        }
        lemma_same_map(fewer, right.drop_last());
        assert(left[left.len() - 1].node_view() == right[right.len() - 1].node_view());
    }
    if distinct_hashes(right) {
        assert forall|i: int, j: int| 0 <= i < j < left.len() implies left[i].hash
            != left[j].hash by {
            assert(left[i].node_view() == right[i].node_view());
            assert(left[j].node_view() == right[j].node_view());
        }
    }
}

impl Clone for ForkChoiceState {
    fn clone(&self) -> (copy: Self)
        ensures
            copy@ == self@,
            self.wf() ==> copy.wf(),
    {
        let nodes: Vec<ForkNode> = copy_nodes(&self.nodes);
        proof {
            lemma_same_map(nodes@, self.nodes@);
        }
        ForkChoiceState { config: self.config, nodes, best_tip: self.best_tip }
    }
}

/// `left` and `right` cannot each be greater than the other.
proof fn lemma_bytes_asymmetric(left: Seq<u8>, right: Seq<u8>, from: nat)
    requires
        left.len() == right.len(),
    ensures
        !(bytes_greater_from(left, right, from) && bytes_greater_from(right, left, from)),
    decreases left.len() - from,
{
    if from < left.len() {
        lemma_bytes_asymmetric(left, right, from + 1);
    }
}

/// Different bytes are ordered one way or the other.
proof fn lemma_bytes_total(left: Seq<u8>, right: Seq<u8>, from: nat)
    requires
        left.len() == right.len(),
        from <= left.len(),
    ensures
        bytes_greater_from(left, right, from) || bytes_greater_from(right, left, from)
            || left.skip(from as int) == right.skip(from as int),
    decreases left.len() - from,
{
    if from < left.len() {
        lemma_bytes_total(left, right, from + 1);
        let next: int = from as int + 1;
        if left[from as int] == right[from as int] && left.skip(next) == right.skip(next) {
            assert(left.skip(from as int) =~= seq![left[from as int]] + left.skip(next));
            assert(right.skip(from as int) =~= seq![right[from as int]] + right.skip(next));
        }
    } else {
        assert(left.skip(from as int) =~= right.skip(from as int));
    }
}

proof fn lemma_bytes_transitive(first: Seq<u8>, second: Seq<u8>, third: Seq<u8>, from: nat)
    requires
        first.len() == second.len() == third.len(),
        bytes_greater_from(first, second, from),
        bytes_greater_from(second, third, from),
    ensures
        bytes_greater_from(first, third, from),
    decreases first.len() - from,
{
    if from < first.len() {
        if first[from as int] == second[from as int] && second[from as int] == third[from as int] {
            lemma_bytes_transitive(first, second, third, from + 1);
        }
    }
}

/// The order of tips is strict and total: of two tips with different hashes exactly one is
/// better, and what is better than a better one is better too.
pub proof fn lemma_tips_are_ordered(first: NodeView, second: NodeView, third: NodeView)
    ensures
        !(spec_is_better(first, second) && spec_is_better(second, first)),
        first.hash != second.hash ==> spec_is_better(first, second) || spec_is_better(
            second,
            first,
        ),
        spec_is_better(first, second) && spec_is_better(second, third) ==> spec_is_better(
            first,
            third,
        ),
{
    broadcast use digest::lemma_digest_len;

    lemma_bytes_asymmetric(first.hash@, second.hash@, 0);
    lemma_bytes_total(first.hash@, second.hash@, 0);
    assert(first.hash@.skip(0) =~= first.hash@);
    assert(second.hash@.skip(0) =~= second.hash@);
    if first.hash@ == second.hash@ {
        digest::lemma_digest_ext(first.hash, second.hash);
    }
    if bytes_greater_from(first.hash@, second.hash@, 0) && bytes_greater_from(
        second.hash@,
        third.hash@,
        0,
    ) {
        lemma_bytes_transitive(first.hash@, second.hash@, third.hash@, 0);
    }
}

/// The work of one block fits the score, with room to spare.
pub proof fn lemma_block_work(difficulty_zero_bits: u32)
    ensures
        1 <= block_work(difficulty_zero_bits) <= 0x100_0000_0000_0000_0000_0000_0000_0000,
{
    let bits: nat = if difficulty_zero_bits < 120 {
        difficulty_zero_bits as nat
    } else {
        120
    };
    vstd::arithmetic::power2::lemma_pow2_pos(bits);
    vstd::arithmetic::power2::lemma_pow2_pos(60);
    vstd::arithmetic::power2::lemma2_to64_rest();
    vstd::arithmetic::power2::lemma_pow2_adds(60, 60);
    if bits < 120 {
        vstd::arithmetic::power2::lemma_pow2_strictly_increases(bits, 120);
    }
    assert(pow2(60) * pow2(60) == 0x100_0000_0000_0000_0000_0000_0000_0000) by (nonlinear_arith)
        requires
            pow2(60) == 0x1000_0000_0000_0000,
    ;
}

/// The work that one block stands for: two to the difficulty, and no more than two to the 120.
fn configured_block_work_score(difficulty_zero_bits: u32) -> (score: u128)
    ensures
        score == block_work(difficulty_zero_bits),
{
    let bits: u32 = if difficulty_zero_bits < 120 {
        difficulty_zero_bits
    } else {
        120
    };
    let mut score: u128 = 1;
    let mut done: u32 = 0;
    proof {
        vstd::arithmetic::power2::lemma2_to64();
    }
    while done < bits
        invariant
            done <= bits <= 120,
            score == pow2(done as nat),
        decreases bits - done,
    {
        proof {
            lemma_block_work(done);
            vstd::arithmetic::power2::lemma_pow2_unfold((done + 1) as nat);
        }
        score = score * 2;
        done += 1;
    }
    score
}

/// A state stays consistent when a block that follows a known one is taken in.
pub proof fn lemma_with_block(state: ForkView, hash: Digest, block: BlockView)
    requires
        state.is_consistent(),
        !state.nodes.contains_key(hash),
        state.knows(block.header.previous_block),
        state.has_room_on(block.header.previous_block),
        block.header.height == context_on(state.nodes, block.header.previous_block).height,
    ensures
        state.with_block(hash, block).is_consistent(),
{
    let after: ForkView = state.with_block(hash, block);
    let node: NodeView = state.node_for(hash, block);
    assert(after.nodes.dom() =~= state.nodes.dom().insert(hash));
    assert forall|known: Digest| #[trigger]
        after.nodes.contains_key(known) implies node_is_consistent(
        after.config,
        after.nodes,
        known,
    ) by {
        if known != hash {
            assert(state.nodes.contains_key(known));
            assert(node_is_consistent(state.config, state.nodes, known));
        }
    }
    let best: Digest = after.best_tip->0;
    assert forall|known: Digest| #[trigger]
        after.nodes.contains_key(known) && known != best implies spec_is_better(
        after.nodes[best],
        after.nodes[known],
    ) by {
        match state.best_tip {
            Some(previous) => {
                assert(state.nodes.contains_key(previous));
                assert(node_is_consistent(state.config, state.nodes, previous));
                if known != hash {
                    assert(state.nodes.contains_key(known));
                }
                lemma_tips_are_ordered(node, state.nodes[previous], after.nodes[known]);
            },
            None => {
                assert(!state.nodes.contains_key(known));
            },
        }
    }
}

impl ForkChoiceState {
    /// Whether a block on top of `previous` still has a height and a work score within the word
    /// sizes; true where `previous` is not known.
    pub fn has_room_on(&self, previous: Digest) -> (room: bool)
        requires
            self.wf(),
        ensures
            room == (self@.knows(previous) ==> self@.has_room_on(previous)),
    {
        let unit: u128 = configured_block_work_score(self.config.difficulty_zero_bits);
        proof {
            lemma_block_work(self.config.difficulty_zero_bits);
        }
        if previous == Digest::zero() {
            return true;
        }
        match self.find(previous) {
            Some(at) => {
                let node: &ForkNode = &self.nodes[at];
                node.next_height < u64::MAX && node.work_score <= u128::MAX - unit
            },
            None => true,
        }
    }

    /// The blocks of the best branch, oldest first.
    pub fn best_chain(&self) -> (chain: Vec<Block>)
        requires
            self.wf(),
        ensures
            chain::block_views(chain@) == self@.spec_best_chain(),
    {
        let mut visited: Vec<usize> = Vec::new();
        let mut cursor: Option<Digest> = self.best_tip;
        let ghost nodes: NodeMap = self@.nodes;
        assert(self@.spec_best_chain() + blocks_at(self.nodes@, visited@)
            =~= self@.spec_best_chain());
        while cursor.is_some()
            invariant
                self.wf(),
                nodes == self@.nodes,
                forall|i: int|
                    0 <= i < visited@.len() ==> #[trigger] visited@[i] < self.nodes@.len(),
                cursor matches Some(hash) ==> nodes.contains_key(hash),
                self@.spec_best_chain() == (match cursor {
                    Some(hash) => chain_to(nodes, hash),
                    None => Seq::empty(),
                }) + blocks_at(self.nodes@, visited@),
            decreases
                    match cursor {
                        Some(hash) => nodes[hash].next_height + 1,
                        None => 0,
                    },
        {
            let hash: Digest = cursor.unwrap();
            let at: usize = self.find(hash).unwrap();
            let ghost before: Seq<BlockView> = blocks_at(self.nodes@, visited@);
            let node: &ForkNode = &self.nodes[at];
            assert(node_is_consistent(self@.config, nodes, hash));
            visited.push(at);
            assert(blocks_at(self.nodes@, visited@) =~= seq![node.block@] + before);
            cursor =
            if node.parent == Digest::zero() {
                assert(Seq::<BlockView>::empty() + blocks_at(self.nodes@, visited@)
                    =~= chain_to(nodes, hash) + before);
                None
            } else {
                assert(chain_to(nodes, node.parent) + blocks_at(self.nodes@, visited@)
                    =~= chain_to(nodes, hash) + before);
                Some(node.parent)
            };
        }
        let ghost whole: Seq<BlockView> = blocks_at(self.nodes@, visited@);
        assert(Seq::<BlockView>::empty() + whole =~= whole);
        let mut chain: Vec<Block> = Vec::new();
        let mut left: usize = visited.len();
        assert(chain::block_views(chain@) =~= whole.take(0));
        while left > 0
            invariant
                left <= visited@.len(),
                forall|i: int|
                    0 <= i < visited@.len() ==> #[trigger] visited@[i] < self.nodes@.len(),
                whole == blocks_at(self.nodes@, visited@),
                chain::block_views(chain@) == whole.take(visited@.len() - left),
            decreases left,
        {
            left -= 1;
            let ghost before: Seq<Block> = chain@;
            chain.push(self.nodes[visited[left]].block.clone());
            assert(chain::block_views(chain@) =~= chain::block_views(before).push(
                whole[visited@.len() - 1 - left],
            ));
            assert(whole.take(visited@.len() - left) =~= whole.take(
                visited@.len() - left - 1,
            ).push(whole[visited@.len() - 1 - left]));
        }
        assert(whole.take(visited@.len() as int) =~= whole);
        chain
    }

    /// What a block on the best tip builds on.
    fn best_parent(&self) -> (context: ParentContext)
        requires
            self.wf(),
        ensures
            context == self@.best_context(),
    {
        ParentContext {
            height: self.best_height(),
            hash: self.best_hash(),
            model: self.best_model(),
        }
    }

    /// Mines the next block on the best tip, where some nonce gives it enough work.
    pub fn try_mine_next_block<H, S>(
        &self,
        hasher: &H,
        sampler: &S,
        training_seed: u64,
        sampling_entropy: u64,
    ) -> (mined: Option<Block>) where H: HashPort, S: SamplingPort
        requires
            self.wf(),
        ensures
            match mined {
                Some(block) => mining::is_mined_block(
                    *hasher,
                    self@.config,
                    self@.best_context(),
                    training_seed,
                    sampling_entropy,
                    block@,
                ),
                None => !mining::is_minable(
                    *hasher,
                    mining::next_header(
                        *hasher,
                        self@.config,
                        self@.best_context(),
                        training_seed,
                        sampling_entropy,
                    ),
                    self@.config.difficulty_zero_bits,
                ),
            },
    {
        let parent: ParentContext = self.best_parent();
        mining::mine_after(&self.config, hasher, &parent, training_seed, sampling_entropy)
    }

    /// Mines the next block on the best tip. Some nonce must give it enough work: the search does
    /// not end otherwise.
    pub fn mine_next_block<H, S>(
        &self,
        hasher: &H,
        sampler: &S,
        training_seed: u64,
        sampling_entropy: u64,
    ) -> (block: Block) where H: HashPort, S: SamplingPort
        requires
            self.wf(),
            mining::is_minable(
                *hasher,
                mining::next_header(
                    *hasher,
                    self@.config,
                    self@.best_context(),
                    training_seed,
                    sampling_entropy,
                ),
                self@.config.difficulty_zero_bits,
            ),
        ensures
            mining::is_mined_block(
                *hasher,
                self@.config,
                self@.best_context(),
                training_seed,
                sampling_entropy,
                block@,
            ),
    {
        self.try_mine_next_block(hasher, sampler, training_seed, sampling_entropy).unwrap()
    }

    /// The work of the branch that a new block is to extend, where the block is valid on it.
    fn parent_work<H, S>(&self, hasher: &H, sampler: &S, block: &Block) -> (result: Result<
        u128,
        ForkChoiceError,
    >) where H: HashPort, S: SamplingPort
        requires
            self.wf(),
            !self@.nodes.contains_key(validation::header_hash(*hasher, block.header)),
        ensures
            match result {
                Ok(score) => spec_insert(self@, *hasher, *sampler, block@) is Ok && score
                    == work_on(self@.nodes, block.header.previous_block),
                Err(error) => spec_insert(self@, *hasher, *sampler, block@) == Err::<
                    Digest,
                    ForkChoiceError,
                >(error),
            },
    {
        let previous: Digest = block.header.previous_block;
        let (context, parent_score): (ParentContext, u128) = if previous == Digest::zero() {
            (ParentContext::genesis(), 0)
        } else {
            match self.find(previous) {
                Some(at) => {
                    let parent: &ForkNode = &self.nodes[at];
                    (
                        ParentContext {
                            height: parent.next_height,
                            hash: parent.hash,
                            model: parent.block.header.model_after,
                        },
                        parent.work_score,
                    )
                },
                None => return Err(ForkChoiceError::UnknownParent { previous_block: previous }),
            }
        };
        match validate_block_after(&self.config, hasher, sampler, &context, block) {
            Ok(()) => Ok(parent_score),
            Err(error) => Err(ForkChoiceError::InvalidBlock(error)),
        }
    }

    /// Adds a new block to the tree, and makes it the best tip where it beats the one before.
    fn place(&mut self, hash: Digest, block: Block, parent_score: u128)
        requires
            old(self).wf(),
            !old(self)@.nodes.contains_key(hash),
            old(self)@.knows(block.header.previous_block),
            old(self)@.has_room_on(block.header.previous_block),
            parent_score == work_on(old(self)@.nodes, block.header.previous_block),
            block.header.height == context_on(
                old(self)@.nodes,
                block.header.previous_block,
            ).height,
        ensures
            final(self).wf(),
            final(self)@ == old(self)@.with_block(hash, block@),
    {
        let ghost before: ForkView = self@;
        let ghost held: BlockView = block@;
        let previous: Digest = block.header.previous_block;
        let work_score: u128 = parent_score + configured_block_work_score(
            self.config.difficulty_zero_bits,
        );
        let next_height: u64 = block.header.height + 1;
        let node: ForkNode = ForkNode { hash, parent: previous, block, next_height, work_score };
        let is_best: bool = match self.best_tip {
            Some(best) => match self.find(best) {
                Some(at) => is_better_tip(&node, &self.nodes[at]),
                None => true,
            },
            None => true,
        };
        proof {
            lemma_node_map(self.nodes@);
            lemma_with_block(before, hash, held);
            assert(self.nodes@.push(node).drop_last() =~= self.nodes@);
        }
        self.nodes.push(node);
        if is_best {
            self.best_tip = Some(hash);
        }
        assert(self@ =~= before.with_block(hash, held));
        assert(distinct_hashes(self.nodes@)) by {
            assert forall|i: int, j: int| 0 <= i < j < self.nodes@.len() implies self.nodes@[i].hash
                != self.nodes@[j].hash by {
                assert(old(self).nodes@[i] == self.nodes@[i]);
                if j < self.nodes@.len() - 1 {
                    assert(old(self).nodes@[j] == self.nodes@[j]);
                }
            }
        }
    }

    /// Takes in a block that follows a known one, and gives its hash. A known block changes
    /// nothing, and neither does one that is refused.
    pub fn insert_block<H, S>(&mut self, hasher: &H, sampler: &S, block: Block) -> (result: Result<
        Digest,
        ForkChoiceError,
    >) where H: HashPort, S: SamplingPort
        requires
            old(self).wf(),
            has_room_for(old(self)@, *hasher, *sampler, block@),
        ensures
            final(self).wf(),
            result == spec_insert(old(self)@, *hasher, *sampler, block@),
            final(self)@ == spec_after_insert(old(self)@, *hasher, *sampler, block@),
    {
        let hash: Digest = block_hash(hasher, &block);
        if self.contains_block(hash) {
            return Ok(hash);
        }
        match self.parent_work(hasher, sampler, &block) {
            Ok(parent_score) => {
                self.place(hash, block, parent_score);
                Ok(hash)
            },
            Err(error) => Err(error),
        }
    }

    /// Takes in a block, or gives nothing where it is new and valid but its height or work would
    /// not fit.
    pub fn try_insert_block<H, S>(&mut self, hasher: &H, sampler: &S, block: Block) -> (result:
        Option<Result<Digest, ForkChoiceError>>) where H: HashPort, S: SamplingPort
        requires
            old(self).wf(),
        ensures
            final(self).wf(),
            result == spec_try_insert(old(self)@, *hasher, *sampler, block@),
            final(self)@ == spec_after_try(old(self)@, *hasher, *sampler, block@),
    {
        let hash: Digest = block_hash(hasher, &block);
        if self.contains_block(hash) {
            return Some(Ok(hash));
        }
        match self.parent_work(hasher, sampler, &block) {
            Ok(parent_score) => {
                if !self.has_room_on(block.header.previous_block) {
                    return None;
                }
                self.place(hash, block, parent_score);
                Some(Ok(hash))
            },
            Err(error) => Some(Err(error)),
        }
    }
}

/// Whether a tip beats the best one so far.
fn is_better_tip(candidate: &ForkNode, best: &ForkNode) -> (better: bool)
    ensures
        better == spec_is_better(candidate.node_view(), best.node_view()),
{
    if candidate.work_score != best.work_score {
        return candidate.work_score > best.work_score;
    }
    if candidate.next_height != best.next_height {
        return candidate.next_height > best.next_height;
    }
    broadcast use digest::lemma_digest_len;

    let left: &[u8; 32] = candidate.hash.as_bytes();
    let right: &[u8; 32] = best.hash.as_bytes();
    let mut index: usize = 0;
    while index < 32
        invariant
            index <= 32,
            left@ == candidate.hash@,
            right@ == best.hash@,
            candidate.work_score == best.work_score,
            candidate.next_height == best.next_height,
            bytes_greater_from(left@, right@, 0) == bytes_greater_from(left@, right@, index as nat),
        decreases 32 - index,
    {
        if left[index] != right[index] {
            return left[index] > right[index];
        }
        index += 1;
    }
    false
}

} // verus!
