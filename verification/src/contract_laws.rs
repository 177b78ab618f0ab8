//! What calls give back, told from their arguments: of every call and whatever it was given.

use vstd::prelude::*;

use crate::adapter_laws;
use crate::adapters::{DeterministicSampler, ToyHash};
use crate::application::block_laws;
use crate::application::chain;
use crate::application::chain::ChainState;
use crate::application::choice_laws;
use crate::application::fork_choice::ForkChoiceState;
use crate::application::mining;
use crate::application::simulator::{ProtocolSimulator, SimulationReport, SimulationRequest};
use crate::application::simulator_laws;
use crate::application::trace;
use crate::application::trace_laws;
use crate::application::validation;
use crate::application::validation::{BlockValidationError, ChainConfig, ParentContext};
use crate::application::verdict_laws;
use crate::cli::simulate;
use crate::cli::simulate_laws;
use crate::domain::layout_laws;
use crate::domain::step_laws;
use crate::domain::{
    Block, BlockHeader, Digest, ModelState, TraceEntry, TrainingStep, TrainingTrace,
    VerificationSample,
};
use crate::node::config::NodeConfig;
use crate::node::event_laws;
use crate::node::schedule;
use crate::node::schedule::{NodeCommand, Schedule};
use crate::node::state::{NodeSnapshot, NodeState};
use crate::ports::{HashPort, SamplingPort};
use crate::text;
use crate::text_laws;
use crate::wire::message::{MessageView, PeerMessage};
use crate::word_laws;

verus! {

/// The hash of a header, and of its block, is that of the bytes that tell every field of it.
pub proof fn lemma_header_hash_call<H: HashPort>(
    hasher: H,
    header: BlockHeader,
    bytes: Seq<u8>,
    hash: Digest,
)
    requires
        layout_laws::tells_header(bytes, header),
        call_ensures(validation::block_header_hash::<H>, (&hasher, &header), hash),
    ensures
        hash == hasher.spec_digest(bytes),
{
    block_laws::lemma_hash_covers_header(hasher, header, bytes);
}

/// The hash of a block is that of the bytes that tell every field of its header.
pub proof fn lemma_block_hash_call<H: HashPort>(
    hasher: H,
    block: Block,
    bytes: Seq<u8>,
    hash: Digest,
)
    requires
        layout_laws::tells_header(bytes, block.header),
        call_ensures(validation::block_hash::<H>, (&hasher, &block), hash),
    ensures
        hash == hasher.spec_digest(bytes),
{
    block_laws::lemma_hash_covers_header(hasher, block.header, bytes);
}

/// A nonce that was found gives a hash that starts with enough zero bits, and none below it does.
/// Where none was found no nonce does.
pub proof fn lemma_find_nonce_call<H: HashPort>(
    hasher: H,
    header: BlockHeader,
    difficulty: u32,
    found: Option<u64>,
    other: u64,
)
    requires
        call_ensures(mining::find_nonce::<H>, (&hasher, &header, difficulty), found),
    ensures
        found matches Some(nonce) ==> block_laws::starts_with_zero_bits(
            validation::header_hash(hasher, block_laws::renonced(header, nonce))@,
            difficulty as int,
        ),
        found is None || other < found->0 ==> !block_laws::starts_with_zero_bits(
            validation::header_hash(hasher, block_laws::renonced(header, other))@,
            difficulty as int,
        ),
{
    match found {
        Some(nonce) => {
            verdict_laws::lemma_first_nonce_is_exact(
                hasher,
                header,
                difficulty,
                nonce,
            );
        },
        None => {
            block_laws::lemma_unminable_has_no_nonce(hasher, header, difficulty, other);
        },
    }
}

/// A block that was mined shows all that mining took, and its hash starts with enough zero bits.
pub proof fn lemma_mine_call<H: HashPort>(
    config: ChainConfig,
    hasher: H,
    parent: ParentContext,
    training_seed: u64,
    sampling_entropy: u64,
    block: Block,
)
    requires
        call_ensures(
            mining::mine_after::<H>,
            (&config, &hasher, &parent, training_seed, sampling_entropy),
            Some(block),
        ),
    ensures
        block_laws::shows_mining(
            hasher,
            config,
            parent,
            training_seed,
            sampling_entropy,
            block@,
        ),
        block_laws::starts_with_zero_bits(
            validation::header_hash(hasher, block.header)@,
            config.difficulty_zero_bits as int,
        ),
{
    block_laws::lemma_mined_block_shows_mining(
        hasher,
        config,
        parent,
        training_seed,
        sampling_entropy,
        block@,
    );
}

/// A block is accepted exactly where it shows everything that it has to.
pub proof fn lemma_validate_call<H: HashPort, S: SamplingPort>(
    config: ChainConfig,
    hasher: H,
    sampler: S,
    parent: ParentContext,
    block: Block,
    verdict: Result<(), BlockValidationError>,
)
    requires
        call_ensures(
            validation::validate_block_after::<H, S>,
            (&config, &hasher, &sampler, &parent, &block),
            verdict,
        ),
    ensures
        verdict is Ok <==> block_laws::is_acceptable(config, hasher, sampler, parent, block@),
        verdict == validation::spec_validate(config, hasher, sampler, parent, block@),
{
    block_laws::lemma_accepted_block_is_acceptable(config, hasher, sampler, parent, block@);
}

/// The check of an opened entry passes exactly where the step is the honest one in every field and
/// the entry is bound to what was committed to.
pub proof fn lemma_verify_call<H: HashPort>(
    hasher: H,
    seed: u64,
    index: usize,
    committed: TraceEntry,
    opened: TraceEntry,
    sample: VerificationSample,
)
    requires
        call_ensures(trace::verify::<H>, (&hasher, seed, index, &committed, &opened), sample),
    ensures
        sample.index == index,
        sample.transition_ok <==> opened.step.index as usize == index && trace_laws::same_step(
            opened.step,
            TrainingStep::spec_deterministic(seed, opened.step.index, opened.step.state_before),
        ),
        sample.commitment_ok <==> opened.previous_commitment == committed.previous_commitment
            && opened.commitment == committed.commitment && committed.commitment
            == trace::spec_commit(hasher, committed.previous_commitment, opened.step),
{
    trace_laws::lemma_check_is_exact(hasher, seed, index, committed, opened);
}

/// A commitment is the hash of the bytes that tell the one before it and every field of the step.
pub proof fn lemma_commit_call<H: HashPort>(
    hasher: H,
    previous: Digest,
    step: TrainingStep,
    bytes: Seq<u8>,
    commitment: Digest,
)
    requires
        trace_laws::tells_commitment(bytes, previous, step),
        call_ensures(trace::commit::<H>, (&hasher, previous, &step), commitment),
    ensures
        commitment == hasher.spec_digest(bytes),
{
    trace_laws::lemma_commitment_covers_step(hasher, previous, step, bytes);
}

/// A trace that was built is honest from its first step to its last.
pub proof fn lemma_build_call<H: HashPort>(
    hasher: H,
    initial: ModelState,
    seed: u64,
    steps: usize,
    made: TrainingTrace,
)
    requires
        call_ensures(trace::build::<H>, (&hasher, initial, seed, steps), made),
    ensures
        made.entries@.len() == steps,
        made.initial_model == initial,
        made.candidate_model == trace_laws::model_before(initial, made.entries@, steps as int),
        made.root == trace_laws::commitment_before(made.entries@, steps as int),
        trace_laws::is_honest_run(hasher, initial, seed, made.entries@),
{
    trace_laws::lemma_trace_is_honest_throughout(hasher, initial, seed, steps);
}

/// A step names its seed, index and model, draws its batch and its weight, and its gradient, raised
/// by 20, is the remainder modulo 41 of the word that folds seed, index and all eight weights.
pub proof fn lemma_step_call(
    seed: u64,
    index: u64,
    state: ModelState,
    drawn: u64,
    folds: Seq<u64>,
    step: TrainingStep,
)
    requires
        step_laws::is_drawn(seed, index, drawn),
        step_laws::folds_weights(seed, index, state, drawn, folds),
        call_ensures(TrainingStep::deterministic, (seed, index, &state), step),
    ensures
        step.seed == seed,
        step.index == index,
        step.state_before == state,
        step.weight_index == drawn as int % 8,
        word_laws::unmixed(step.batch_id) == drawn ^ 0xa076_1d64_78bd_642f,
        step.learning_rate_ppm == 125_000,
        step.gradient + 20 == folds[8] as int % 41,
{
    step_laws::lemma_step_choices(seed, index, state, drawn);
    step_laws::lemma_gradient_is_remainder(seed, index, state, drawn, folds);
}

/// The toy hash crosses the lanes that have absorbed every byte.
pub proof fn lemma_toy_hash_call(bytes: &[u8], lanes: Seq<Seq<u64>>, digest: Digest)
    requires
        adapter_laws::absorbs(bytes@, lanes),
        bytes@.len() <= u64::MAX,
        call_ensures(<ToyHash as HashPort>::digest, (&ToyHash, bytes), digest),
    ensures
        adapter_laws::crosses(lanes.last(), bytes@.len() as int, digest),
{
    adapter_laws::lemma_toy_hash_absorbs_every_byte(bytes@, lanes);
}

/// A sample holds, in increasing order, the indices that the first nonces draw, or every index
/// where as many are asked for.
pub proof fn lemma_sample_call(
    sampler: DeterministicSampler,
    trace_len: usize,
    sample_count: usize,
    trace_root: Digest,
    entropy: u64,
    sample: Vec<usize>,
    index: usize,
)
    requires
        call_ensures(
            <DeterministicSampler as SamplingPort>::sample_indices,
            (&sampler, trace_len, sample_count, trace_root, entropy),
            sample,
        ),
    ensures
        forall|i: int, j: int| 0 <= i < j < sample@.len() ==> sample@[i] < sample@[j],
        sample_count < trace_len ==> (sample@.contains(index) <==> adapter_laws::is_drawn_early(
            adapter_laws::draws(trace_len, trace_root, entropy),
            sample_count,
            0x1_0000_0000_0000_0000,
            index,
        )),
        sample_count >= trace_len ==> (sample@.contains(index) <==> index < trace_len),
{
    assert(sampler == DeterministicSampler);
    if sample_count < trace_len {
        adapter_laws::lemma_sample_is_drawn_first(trace_len, sample_count, trace_root, entropy);
    } else {
        adapter_laws::lemma_large_sample_is_everything(
            trace_len,
            sample_count,
            trace_root,
            entropy,
        );
        if index < trace_len {
            assert(sample@[index as int] == index);
        }
        assert forall|i: int| 0 <= i < sample@.len() implies #[trigger] sample@[i] == i by {}
    }
}

/// A run reports what the request and the ports determine.
pub proof fn lemma_run_call<H: HashPort, S: SamplingPort>(
    simulator: ProtocolSimulator<H, S>,
    request: SimulationRequest,
    report: SimulationReport,
)
    requires
        call_ensures(ProtocolSimulator::<H, S>::run, (&simulator, request), report),
    ensures
        report.committed_trace.entries@.len() == request.steps,
        report.committed_trace.initial_model == ModelState::spec_genesis(),
        trace_laws::is_honest_run(
            simulator.hash_port(),
            ModelState::spec_genesis(),
            request.seed,
            report.committed_trace.entries@,
        ),
        request.steps > 0 ==> report.committed_trace.candidate_model
            == report.committed_trace.entries@[request.steps - 1].step.state_after,
        request.steps == 0 ==> report.committed_trace.candidate_model
            == ModelState::spec_genesis(),
        simulator_laws::is_opened(
            report.committed_trace@,
            report.opened_trace@,
            report.tamper_applied,
        ),
        report.sampled_indices@ == simulator.sampling_port().spec_sample_indices(
            request.steps,
            request.samples,
            report.committed_trace.root,
            request.sampling_entropy,
        ),
        simulator_laws::is_outcome(report.samples@, report.outcome@),
{
    simulator_laws::lemma_run_is_reported(
        simulator.hash_port(),
        simulator.sampling_port(),
        request,
    );
}

/// The lines of a simulation read back as what was run and how it was checked; the line of the
/// resulting model as the candidate model of the committed trace.
pub proof fn lemma_simulation_lines_call(
    request: SimulationRequest,
    report: SimulationReport,
    lines: Vec<String>,
)
    requires
        call_ensures(simulate::simulation_lines, (&request, &report), lines),
    ensures
        simulate_laws::tells_run(text::string_views(lines@), request, report@),
        simulate_laws::tells_checks(text::string_views(lines@), report@),
        lines@.len() >= 9,
        simulate_laws::tells_numbers(
            lines@[6]@,
            "M_t+1                "@,
            simulate_laws::weights_of(report.committed_trace.candidate_model),
        ),
{
    simulate_laws::lemma_lines_tell_run(request, report@);
    simulate_laws::lemma_lines_tell_checks(request, report@);
    assert(text::string_views(lines@)[6] == lines@[6]@);
}

/// A chain and a fork choice hand on the height, the hash and the model that they have reached.
pub proof fn lemma_chain_calls<H: HashPort>(
    held: ChainState,
    hasher: H,
    height: u64,
    model: ModelState,
    hash: Digest,
)
    requires
        call_ensures(ChainState::height, (&held,), height),
        call_ensures(ChainState::current_model, (&held,), model),
        call_ensures(ChainState::head_hash::<H>, (&held, &hasher), hash),
    ensures
        choice_laws::is_context(hasher, held@.blocks, ParentContext { height, hash, model }),
{
    simulator_laws::lemma_genesis_values();
}

/// What a fork choice says of its best tip.
pub proof fn lemma_best_calls(
    held: ForkChoiceState,
    height: u64,
    hash: Digest,
    model: ModelState,
    known: bool,
    other: Digest,
)
    requires
        call_ensures(ForkChoiceState::best_height, (&held,), height),
        call_ensures(ForkChoiceState::best_hash, (&held,), hash),
        call_ensures(ForkChoiceState::best_model, (&held,), model),
        call_ensures(ForkChoiceState::contains_block, (&held, other), known),
    ensures
        known <==> held@.nodes.contains_key(other),
        held@.best_tip matches Some(best) ==> hash == best && height
            == held@.nodes[best].next_height && model == held@.nodes[best].block.header.model_after,
        held@.best_tip is None ==> height == 0 && choice_laws::is_zero(hash) && model@ == seq![
            120i64,
            -80i64,
            45i64,
            210i64,
            -135i64,
            65i64,
            15i64,
            -30i64,
        ],
{
    choice_laws::lemma_best_is_told(held@, held@.config);
}

/// Mining and catching up are due exactly where they are set and their moment has come.
pub proof fn lemma_due_calls(held: Schedule, now: u64, mine: bool, sync: bool)
    requires
        call_ensures(Schedule::mine_due, (&held, now), mine),
        call_ensures(Schedule::sync_due, (&held, now), sync),
    ensures
        mine <==> held.miner is Some && now >= held.next_mine_at,
        sync <==> held.sync.enabled && now >= held.next_sync_at,
{
}

/// A node mines once on start exactly where it is set to, with the first seed, and the second one
/// turned by seven as its entropy.
pub proof fn lemma_startup_call(
    settings: NodeConfig,
    seed: u64,
    second_seed: u64,
    command: Option<NodeCommand>,
)
    requires
        call_ensures(schedule::startup_command, (&settings, seed, second_seed), command),
    ensures
        command is Some <==> settings.mine_once_on_start,
        command matches Some(given) ==> given == (NodeCommand::MineOnce {
            training_seed: seed,
            sampling_entropy: word_laws::turned(second_seed, 7),
        }),
{
    word_laws::lemma_turning_moves_bits(second_seed, 7);
}

/// A node serves blocks of its active chain in a row, asks with its last hashes, and only where it
/// has a peer to ask.
pub proof fn lemma_serving_calls(
    held: NodeState,
    from_height: u64,
    limit: usize,
    blocks: Vec<Block>,
    request: Option<PeerMessage>,
)
    requires
        call_ensures(NodeState::serve_blocks, (&held, from_height, limit), blocks),
        call_ensures(NodeState::sync_request, (&held,), request),
    ensures
        event_laws::is_window(
            held@.active.blocks,
            from_height as int,
            limit as int,
            held@.sync.max_blocks_per_response as int,
            chain::block_views(blocks@),
        ),
        request is Some <==> held@.peers.len() > 0,
        request matches Some(asked) ==> (asked@ matches MessageView::Locate { hashes, limit: most }
            && most == held@.sync.max_blocks_per_response && hashes.len()
            <= held@.sync.locator_hashes && forall|i: int|
            0 <= i < hashes.len() ==> #[trigger] hashes[i] == event_laws::id_of(
                held@.active.blocks[held@.active.blocks.len() - 1 - i],
            )),
{
    event_laws::lemma_window_is_exact(
        held@.active.blocks,
        from_height as nat,
        limit,
        held@.sync.max_blocks_per_response,
    );
    event_laws::lemma_locator_is_exact(
        held@.active.blocks,
        held@.sync.locator_hashes as nat,
    );
}

/// A snapshot shows the node as it is.
pub proof fn lemma_snapshot_call(held: NodeState, snapshot: NodeSnapshot)
    requires
        call_ensures(NodeState::snapshot, (&held,), snapshot),
    ensures
        snapshot.node_id@ == held@.node_id,
        snapshot.bound_addr == held@.bound_addr,
        snapshot.advertised_addr == held@.advertised_addr,
        snapshot.height == held@.active.blocks.len(),
        snapshot.head == held@.forks.spec_best_hash(),
        snapshot.known_blocks == held@.forks.nodes.dom().len(),
        event_laws::tally(snapshot.counters()) == event_laws::tally(held@.counters),
        snapshot.known_peers@ == held@.peers,
{
}

/// A digest is written as its hexadecimal text, and a text reads as a digest where it spells it.
pub proof fn lemma_hex_calls(
    held: Digest,
    shown: String,
    input: &str,
    read: Result<Digest, String>,
)
    requires
        call_ensures(Digest::to_hex, (held,), shown),
        call_ensures(Digest::from_hex, (input,), read),
    ensures
        text_laws::is_hex_of(shown@, held@),
        read matches Ok(found) ==> text_laws::spells_digest(
            vstd::utf8::encode_utf8(input@),
            found,
        ),
        text_laws::spells_digest(vstd::utf8::encode_utf8(input@), held) ==> read == Ok::<
            Digest,
            String,
        >(held),
{
    text_laws::lemma_hex_shows_bytes(held@);
    text_laws::lemma_hex_reading_is_exact(input@, held);
    if read is Ok {
        text_laws::lemma_hex_reading_is_exact(input@, read->Ok_0);
    }
}

} // verus!
