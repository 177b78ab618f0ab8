//! What the views of types and the relations between results and views say, field by field.

use vstd::prelude::*;

use crate::application::chain;
use crate::application::SimulationReport;
use crate::cli::node;
use crate::cli::node::{Argument, ConfigEntry, NodeRequest, ParsedNode, ParsedNodeView};
use crate::cli::simulate;
use crate::cli::simulate::ParsedSimulation;
use crate::domain::block::{BlockView, OutcomeView};
use crate::domain::{Block, TrainingTrace, VerificationOutcome};
use crate::node::config::{NetworkConfig, NodeConfig};
use crate::node::event_laws;
use crate::node::reader;
use crate::node::reader::IncomingReadError;
use crate::node::state;
use crate::node::state::{ActionView, IncomingAction, NodeSnapshot, StartError, StartErrorView};
use crate::storage;
use crate::storage::{StorageError, StorageErrorView};
use crate::text;
use crate::wire::message;
use crate::wire::message::{MessageView, PeerMessage};
use crate::wire::WireConfig;

verus! {

/// A block, its trace and an outcome are seen as they are.
pub proof fn lemma_block_is_seen(block: Block, trace: TrainingTrace, outcome: VerificationOutcome)
    ensures
        block@.header == block.header,
        block@.trace == block.trace@,
        trace@.initial_model == trace.initial_model,
        trace@.candidate_model == trace.candidate_model,
        trace@.entries == trace.entries@,
        trace@.root == trace.root,
        outcome is Accepted <==> outcome@ is Accepted,
        outcome matches VerificationOutcome::Rejected { failed_indices } ==> outcome@
            == (OutcomeView::Rejected { failed_indices: failed_indices@ }),
{
}

/// A report is seen as it is.
pub proof fn lemma_report_is_seen(report: SimulationReport)
    ensures
        report@.committed_trace == report.committed_trace@,
        report@.opened_trace == report.opened_trace@,
        report@.sampled_indices == report.sampled_indices@,
        report@.samples == report.samples@,
        report@.outcome == report.outcome@,
        report@.tamper_applied == report.tamper_applied,
{
}

/// A message is seen as it is.
pub proof fn lemma_message_is_seen(held: PeerMessage)
    ensures
        match held {
            PeerMessage::Hello { node_id, height, head } => held@ == (MessageView::Hello {
                node_id: node_id@,
                height,
                head,
            }),
            PeerMessage::Block(block) => held@ == MessageView::Block(block@),
            PeerMessage::GetBlocks { from_height, limit } => held@ == (MessageView::GetBlocks {
                from_height,
                limit,
            }),
            PeerMessage::Locate { hashes, limit } => held@ == (MessageView::Locate {
                hashes: hashes@,
                limit,
            }),
            PeerMessage::EndBlocks => held@ is EndBlocks,
            PeerMessage::Peer { addr } => held@ == (MessageView::Peer { addr: addr@ }),
        },
{
}

/// Settings are seen as they are.
pub proof fn lemma_settings_are_seen(wire: WireConfig, network: NetworkConfig, held: NodeConfig)
    ensures
        wire@.network_id == wire.network_id@,
        wire@.protocol_version == wire.protocol_version,
        wire@.chain_fingerprint == wire.chain_fingerprint,
        network@.wire == network.wire@,
        network@.max_message_bytes == network.max_message_bytes,
        network@.max_peers == network.max_peers,
        network@.max_inbound_connections == network.max_inbound_connections,
        network@.connect_timeout_ms == network.connect_timeout_ms,
        network@.read_timeout_ms == network.read_timeout_ms,
        network@.write_timeout_ms == network.write_timeout_ms,
        held@.node_id == held.node_id@,
        held@.listen_addr == held.listen_addr,
        held@.advertise_addr == held.advertise_addr,
        held@.peers == held.peers@,
        held@.chain == held.chain,
        held@.mine_once_on_start == held.mine_once_on_start,
        held@.miner == held.miner,
        held.storage is None ==> held@.storage is None,
        held.storage matches Some(place) ==> held@.storage == Some(place.data_dir@),
        held@.network == held.network@,
        held@.sync == held.sync,
{
}

/// A request, a word and an entry of a configuration file are seen as they are.
pub proof fn lemma_request_is_seen(
    request: NodeRequest,
    word: Argument,
    entry: ConfigEntry,
    parsed: ParsedNode,
)
    ensures
        request@.config == request.config@,
        request@.mine == request.mine,
        request@.mine_interval_ms == request.mine_interval_ms,
        request@.mine_once == request.mine_once,
        request@.run_ms == request.run_ms,
        request@.training_seed == request.training_seed,
        request@.sampling_entropy == request.sampling_entropy,
        word@.text == word.text@,
        word@.addr == word.addr,
        entry@.key == entry.key@,
        entry@.value == entry.value@,
        parsed is Help ==> parsed@ is Help,
        parsed matches ParsedNode::Run(held) ==> parsed@ == ParsedNodeView::Run(held@),
{
}

/// What a node does and why it fails are seen as they are.
pub proof fn lemma_action_is_seen(
    action: IncomingAction,
    fault: StorageError,
    failure: StartError,
)
    ensures
        match action {
            IncomingAction::Nothing => action@ is Nothing,
            IncomingAction::Respond(blocks) => action@ == ActionView::Respond(
                chain::block_views(blocks@),
            ),
            IncomingAction::Gossip(block) => action@ == ActionView::Gossip(block@),
            IncomingAction::Learn(addr) => action@ == ActionView::Learn(addr@),
        },
        match fault {
            StorageError::Invalid { line, message } => fault@ == (StorageErrorView::Invalid {
                line: line as nat,
                message: message@,
            }),
            StorageError::Refused { line, error } => fault@ == (StorageErrorView::Refused {
                line: line as nat,
                error,
            }),
            StorageError::NoRoom { line } => fault@ == (StorageErrorView::NoRoom {
                line: line as nat,
            }),
        },
        match failure {
            StartError::Config(message) => failure@ == StartErrorView::Config(message@),
            StartError::Storage(error) => failure@ == StartErrorView::Storage(error@),
        },
{
}

/// A snapshot shows each counter under its own name.
pub proof fn lemma_snapshot_shows_counters(snapshot: NodeSnapshot)
    ensures
        event_laws::tally(snapshot.counters()) == seq![
            snapshot.accepted_blocks as int,
            snapshot.rejected_blocks as int,
            snapshot.mined_blocks as int,
            snapshot.malformed_messages as int,
            snapshot.incompatible_messages as int,
            snapshot.oversized_messages as int,
            snapshot.outbound_blocks as int,
            snapshot.failed_broadcasts as int,
            snapshot.synced_blocks as int,
            snapshot.failed_syncs as int,
            snapshot.reorgs as int,
            snapshot.peer_rejections as int,
            snapshot.failed_responses as int,
        ],
{
}

/// Lists are seen item by item.
pub proof fn lemma_lists_are_seen(
    blocks: Seq<Block>,
    words: Seq<String>,
    pieces: Seq<Vec<char>>,
    args: Seq<Argument>,
    entries: Seq<ConfigEntry>,
    pairs: Seq<(String, String)>,
    at: int,
)
    ensures
        chain::block_views(blocks).len() == blocks.len(),
        text::string_views(words).len() == words.len(),
        text::contents(pieces).len() == pieces.len(),
        node::argument_views(args).len() == args.len(),
        node::entry_views(entries).len() == entries.len(),
        node::pair_views(pairs).len() == pairs.len(),
        0 <= at < blocks.len() ==> chain::block_views(blocks)[at] == blocks[at]@,
        0 <= at < words.len() ==> text::string_views(words)[at] == words[at]@,
        0 <= at < pieces.len() ==> text::contents(pieces)[at] == pieces[at]@,
        0 <= at < args.len() ==> node::argument_views(args)[at] == args[at]@,
        0 <= at < entries.len() ==> node::entry_views(entries)[at] == entries[at]@,
        0 <= at < pairs.len() ==> node::pair_views(pairs)[at] == (pairs[at].0@, pairs[at].1@),
{
}

/// A result stands for one over views exactly where both are good with the same value, or both are
/// bad with the same text.
pub proof fn lemma_results_are_seen(
    decoded: Result<PeerMessage, String>,
    expected: Result<MessageView, Seq<char>>,
    parsed: Result<ParsedSimulation, String>,
    wanted: Result<ParsedSimulation, Seq<char>>,
    read: Result<Option<String>, IncomingReadError>,
    line: Result<Option<Seq<char>>, IncomingReadError>,
    stored: Result<Block, String>,
    block: Result<BlockView, Seq<char>>,
)
    ensures
        message::result_view(decoded) == match decoded {
            Ok(held) => Ok::<MessageView, Seq<char>>(held@),
            Err(complaint) => Err::<MessageView, Seq<char>>(complaint@),
        },
        message::stands_for(decoded, expected) <==> match (decoded, expected) {
            (Ok(held), Ok(view)) => held@ == view,
            (Err(complaint), Err(view)) => complaint@ == view,
            _ => false,
        },
        simulate::is_parsed(parsed, wanted) <==> match (parsed, wanted) {
            (Ok(held), Ok(view)) => held == view,
            (Err(complaint), Err(view)) => complaint@ == view,
            _ => false,
        },
        reader::is_line_result(read, line) <==> match (read, line) {
            (Ok(Some(held)), Ok(Some(view))) => held@ == view,
            (Ok(None), Ok(None)) => true,
            (Err(error), Err(other)) => error == other,
            _ => false,
        },
        storage::is_block_result(stored, block) <==> match (stored, block) {
            (Ok(held), Ok(view)) => held@ == view,
            (Err(complaint), Err(view)) => complaint@ == view,
            _ => false,
        },
{
}

/// A path and a log that may be missing are seen as they are.
pub proof fn lemma_options_are_seen(path: Option<String>, log: Option<&str>)
    ensures
        path is None <==> node::path_view(path) is None,
        path matches Some(held) ==> node::path_view(path) == Some(held@),
        log is None <==> state::log_view(log) is None,
        log matches Some(held) ==> state::log_view(log) == Some(held@),
{
}

} // verus!
