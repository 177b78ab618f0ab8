//! When a node acts, what it reads, whom it tells and how it starts, told from its settings.

use vstd::prelude::*;

use crate::application::fork_choice;
use crate::application::fork_choice::ForkView;
use crate::application::ChainConfig;
use crate::bits;
use crate::node::announce;
use crate::node::config;
use crate::node::config::{
    NetworkView, NodeConfigView, PeerAddr, SyncConfig,
};
use crate::node::event_laws;
use crate::node::reader;
use crate::node::reader::IncomingReadError;
use crate::node::schedule;
use crate::node::schedule::{LoopAction, NodeCommand, Schedule};
use crate::node::state;
use crate::node::state::{NodeCounters, NodeView, StartErrorView};
use crate::storage;
use crate::storage::LogTail;
use crate::wire::envelope;
use crate::word_laws;

verus! {

/// The moment one interval later, as far as moments go.
pub open spec fn is_later(now: u64, interval: u64, moment: u64) -> bool {
    &&& moment <= now + interval
    &&& moment == now + interval || moment == u64::MAX
}

/// What a command leaves to be done, and what it changes: starting to mine sets the miner and makes
/// it due, stopping to mine takes the miner away, stopping stops. Other commands change nothing.
pub proof fn lemma_command_effect(before: Schedule, command: NodeCommand, now: u64)
    ensures
        ({
            let after: Schedule = schedule::after_command(before, command, now);
            let action: LoopAction = schedule::action_of(command);
            &&& after.sync == before.sync
            &&& after.next_sync_at == before.next_sync_at
            &&& match command {
                NodeCommand::MineOnce { training_seed, sampling_entropy } => {
                    &&& action == LoopAction::Mine { training_seed, sampling_entropy }
                    &&& after == before
                },
                NodeCommand::AddPeer(peer) => action == LoopAction::AddPeer(peer) && after
                    == before,
                NodeCommand::SyncOnce => action is Sync && after == before,
                NodeCommand::StartMining(miner) => {
                    &&& action is Nothing
                    &&& after.miner == Some(miner)
                    &&& after.next_mine_at == now
                    &&& after.stopped == before.stopped
                    &&& schedule::is_mining_due(after, now)
                },
                NodeCommand::StopMining => {
                    &&& action is Nothing
                    &&& after.miner is None
                    &&& after.next_mine_at == before.next_mine_at
                    &&& after.stopped == before.stopped
                    &&& !schedule::is_mining_due(after, now)
                },
                NodeCommand::Stop => {
                    &&& action is Nothing
                    &&& after.stopped
                    &&& after.miner == before.miner
                    &&& after.next_mine_at == before.next_mine_at
                },
            }
        }),
{
}

/// Mining is due exactly where there is a miner and its moment has come. After mining the moment is
/// one interval later, and nothing else has changed.
pub proof fn lemma_mining_moment(before: Schedule, now: u64, interval: u64)
    ensures
        schedule::is_mining_due(before, now) <==> before.miner is Some && now
            >= before.next_mine_at,
        ({
            let after: Schedule = schedule::after_mining(before, now);
            &&& after.miner == before.miner
            &&& after.sync == before.sync
            &&& after.next_sync_at == before.next_sync_at
            &&& after.stopped == before.stopped
            &&& before.miner is None ==> after.next_mine_at == before.next_mine_at
            &&& before.miner matches Some(miner) ==> is_later(
                now,
                miner.interval_ms,
                after.next_mine_at,
            )
        }),
        is_later(now, interval, schedule::spec_later(now, interval)),
{
}

/// The entropy of a seed is the seed with its bits turned by seven.
pub proof fn lemma_entropy_turns_seed(seed: u64)
    ensures
        bits::spec_rotate_left(seed, 7) == word_laws::turned(seed, 7),
{
    word_laws::lemma_turning_moves_bits(seed, 7);
}

/// The first line of bytes: up to and with the first line feed, or everything where there is none.
pub open spec fn is_first_line(input: Seq<u8>, line: Seq<u8>) -> bool {
    &&& line.len() <= input.len()
    &&& line == input.take(line.len() as int)
    &&& forall|i: int| 0 <= i < line.len() - 1 ==> #[trigger] line[i] != 10
    &&& line.len() < input.len() ==> line.len() > 0 && line[line.len() - 1] == 10
}

proof fn lemma_first_line_is_told(input: Seq<u8>)
    ensures
        is_first_line(input, reader::first_line(input)),
    decreases input.len(),
{
    let line: Seq<u8> = reader::first_line(input);
    if input.len() > 0 {
        if input[0] == 10 {
            assert(line =~= input.take(1));
        } else {
            let rest: Seq<u8> = input.skip(1);
            let tail: Seq<u8> = reader::first_line(rest);
            lemma_first_line_is_told(rest);
            assert(line =~= input.take(line.len() as int)) by {
                assert forall|i: int| 1 <= i < line.len() implies line[i] == input[i] by {
                    assert(tail[i - 1] == rest.take(tail.len() as int)[i - 1]);
                }
            }
            assert forall|i: int| 0 <= i < line.len() - 1 implies #[trigger] line[i] != 10 by {
                if i > 0 {
                    assert(tail[i - 1] != 10);
                }
            }
        }
    } else {
        assert(line =~= input.take(0));
    }
}

proof fn lemma_first_line_is_unique(input: Seq<u8>, line: Seq<u8>)
    requires
        is_first_line(input, line),
    ensures
        line == reader::first_line(input),
{
    let made: Seq<u8> = reader::first_line(input);
    lemma_first_line_is_told(input);
    if line.len() < made.len() {
        if line.len() > 0 {
            assert(line[line.len() - 1] == input[line.len() - 1]);
            assert(made[line.len() - 1] == input[line.len() - 1]);
        }
    } else if made.len() < line.len() {
        if made.len() > 0 {
            assert(made[made.len() - 1] == input[made.len() - 1]);
            assert(line[made.len() - 1] == input[made.len() - 1]);
        }
    }
}

/// Reading gives nothing from no input, refuses a first line that is too long, and gives the text
/// of any other where its bytes are one.
pub proof fn lemma_reading_is_exact(input: Seq<u8>, max_bytes: usize, line: Seq<u8>)
    requires
        is_first_line(input, line),
    ensures
        ({
            let read: Result<Option<Seq<char>>, IncomingReadError> = reader::spec_read_line(
                input,
                max_bytes,
            );
            &&& line.len() > max_bytes ==> read == Err::<Option<Seq<char>>, IncomingReadError>(
                IncomingReadError::Oversized,
            )
            &&& line.len() <= max_bytes && input.len() == 0 ==> read == Ok::<
                Option<Seq<char>>,
                IncomingReadError,
            >(None)
            &&& line.len() <= max_bytes && input.len() > 0 && vstd::utf8::valid_utf8(line) ==> read
                == Ok::<Option<Seq<char>>, IncomingReadError>(
                Some(vstd::utf8::decode_utf8(line)),
            )
            &&& line.len() <= max_bytes && input.len() > 0 && !vstd::utf8::valid_utf8(line)
                ==> read == Err::<Option<Seq<char>>, IncomingReadError>(IncomingReadError::Io)
        }),
{
    lemma_first_line_is_unique(input, line);
}

/// Positions, in increasing order, of all peers that have not been told.
pub open spec fn names_untold(
    peers: Seq<PeerAddr>,
    told: Set<PeerAddr>,
    pending: Seq<PeerAddr>,
    positions: Seq<int>,
) -> bool {
    &&& positions.len() == pending.len()
    &&& forall|j: int, k: int| 0 <= j < k < positions.len() ==> positions[j] < positions[k]
    &&& forall|k: int|
        0 <= k < positions.len() ==> 0 <= #[trigger] positions[k] < peers.len() && pending[k]
            == peers[positions[k]]
    &&& forall|i: int|
        0 <= i < peers.len() ==> (positions.contains(i) <==> !told.contains(#[trigger] peers[i]))
}

spec fn untold_positions(peers: Seq<PeerAddr>, told: Set<PeerAddr>) -> Seq<int>
    decreases peers.len(),
{
    if peers.len() == 0 {
        Seq::empty()
    } else if told.contains(peers.last()) {
        untold_positions(peers.drop_last(), told)
    } else {
        untold_positions(peers.drop_last(), told).push(peers.len() - 1)
    }
}

/// The peers to be told are all those that have not been, in their order.
pub proof fn lemma_untold_are_named(peers: Seq<PeerAddr>, told: Set<PeerAddr>) -> (positions: Seq<
    int,
>)
    ensures
        names_untold(peers, told, announce::untold(peers, told), positions),
{
    lemma_untold_positions(peers, told);
    untold_positions(peers, told)
}

proof fn lemma_untold_positions(peers: Seq<PeerAddr>, told: Set<PeerAddr>)
    ensures
        names_untold(peers, told, announce::untold(peers, told), untold_positions(peers, told)),
    decreases peers.len(),
{
    let positions: Seq<int> = untold_positions(peers, told);
    let pending: Seq<PeerAddr> = announce::untold(peers, told);
    if peers.len() > 0 {
        let fewer: Seq<PeerAddr> = peers.drop_last();
        let before: Seq<int> = untold_positions(fewer, told);
        lemma_untold_positions(fewer, told);
        assert forall|k: int| 0 <= k < positions.len() implies 0 <= #[trigger] positions[k]
            < peers.len() && pending[k] == peers[positions[k]] by {
            if k < before.len() {
                assert(positions[k] == before[k]);
                assert(fewer[before[k]] == peers[before[k]]);
            }
        }
        assert forall|i: int| 0 <= i < peers.len() implies (positions.contains(i)
            <==> !told.contains(#[trigger] peers[i])) by {
            if i < fewer.len() {
                assert(fewer[i] == peers[i]);
                if positions.contains(i) {
                    let k: int = choose|k: int| 0 <= k < positions.len() && positions[k] == i;
                    assert(before[k] == i);
                }
                if before.contains(i) {
                    let k: int = choose|k: int| 0 <= k < before.len() && before[k] == i;
                    assert(positions[k] == i);
                }
            } else {
                if positions.len() > before.len() {
                    assert(positions[before.len() as int] == i);
                } else if positions.contains(i) {
                    let k: int = choose|k: int| 0 <= k < before.len() && before[k] == i;
                    assert(before[k] < fewer.len());
                }
            }
        }
    }
}

/// The host part of an address is zero.
pub open spec fn names_no_host(addr: PeerAddr) -> bool {
    match addr {
        PeerAddr::V4 { ip, .. } => ip == 0,
        PeerAddr::V6 { ip, .. } => ip == 0,
    }
}

/// What keeps a node from starting: the first of a difficulty beyond 256 bits, no time to write, no
/// connection to serve, and no address to be reached at. Nothing else does.
pub proof fn lemma_config_fault_is_exact(settings: NodeConfigView)
    ensures
        ({
            let fault: Option<Seq<char>> = config::config_fault(settings);
            let hard: bool = settings.chain.difficulty_zero_bits > 256;
            let mute: bool = settings.network.write_timeout_ms == 0;
            let shut: bool = settings.network.max_inbound_connections == 0;
            let lost: bool = names_no_host(settings.listen_addr) && settings.advertise_addr is None;
            &&& hard ==> fault == Some("difficulty_zero_bits must be at most 256"@)
            &&& !hard && mute ==> fault == Some("write_timeout must be greater than zero"@)
            &&& !hard && !mute && shut ==> fault == Some(
                "max_inbound_connections must be greater than zero"@,
            )
            &&& !hard && !mute && !shut && lost ==> fault == Some(
                "advertise_addr is required when listen_addr is unspecified"@,
            )
            &&& !hard && !mute && !shut && !lost ==> fault is None
        }),
{
}

/// The parameters of a chain unless set otherwise.
pub open spec fn is_default_chain(chain: ChainConfig) -> bool {
    chain.steps_per_block == 16 && chain.samples_per_block == 6 && chain.difficulty_zero_bits == 8
}

/// How a node treats its connections unless set otherwise.
pub open spec fn is_default_network(network: NetworkView) -> bool {
    &&& network.wire.network_id == "chesscoin-local"@
    &&& network.wire.protocol_version == 6
    &&& forall|chain: ChainConfig|
        is_default_chain(chain) ==> network.wire.chain_fingerprint
            == #[trigger] envelope::spec_fingerprint(chain)
    &&& network.max_message_bytes == 1024 * 1024
    &&& network.max_peers == 64
    &&& network.max_inbound_connections == 64
    &&& network.connect_timeout_ms == 500
    &&& network.read_timeout_ms == 5000
    &&& network.write_timeout_ms == 500
}

/// How a node catches up unless set otherwise.
pub open spec fn is_default_sync(sync: SyncConfig) -> bool {
    sync.enabled && sync.interval_ms == 5000 && sync.max_blocks_per_response == 128
        && sync.locator_hashes == 32
}

/// What a node is configured with unless set otherwise.
pub proof fn lemma_defaults_are_told(node_id: Seq<char>, listen_addr: PeerAddr)
    ensures
        ({
            let settings: NodeConfigView = config::default_node(node_id, listen_addr);
            &&& settings.node_id == node_id
            &&& settings.listen_addr == listen_addr
            &&& settings.advertise_addr is None
            &&& settings.peers.len() == 0
            &&& is_default_chain(settings.chain)
            &&& !settings.mine_once_on_start
            &&& settings.miner is None
            &&& settings.storage is None
            &&& is_default_network(settings.network)
            &&& is_default_sync(settings.sync)
        }),
        is_default_network(config::default_network()),
{
    let settings: NodeConfigView = config::default_node(node_id, listen_addr);
    assert forall|chain: ChainConfig| is_default_chain(
        chain,
    ) implies settings.network.wire.chain_fingerprint == #[trigger] envelope::spec_fingerprint(
        chain,
    ) by {
        assert(chain == settings.chain);
    }
}

/// A node before its first peer: what it was configured with, the blocks it starts from and their
/// best branch, nothing counted, and its envelope bound to its own chain.
pub open spec fn is_fresh(
    settings: NodeConfigView,
    bound_addr: PeerAddr,
    forks: ForkView,
    node: NodeView,
) -> bool {
    &&& node.node_id == settings.node_id
    &&& node.bound_addr == bound_addr
    &&& settings.advertise_addr is None ==> node.advertised_addr == bound_addr
    &&& settings.advertise_addr matches Some(addr) ==> node.advertised_addr == addr
    &&& node.forks == forks
    &&& node.active.config == forks.config
    &&& node.active.blocks == forks.spec_best_chain()
    &&& node.peers.len() == 0
    &&& forall|i: int| 0 <= i < 13 ==> #[trigger] event_laws::tally(node.counters)[i] == 0
    &&& node.network.wire.chain_fingerprint == envelope::spec_fingerprint(settings.chain)
    &&& node.network.wire.network_id == settings.network.wire.network_id
    &&& node.network.wire.protocol_version == settings.network.wire.protocol_version
    &&& node.network.max_message_bytes == settings.network.max_message_bytes
    &&& node.network.max_peers == settings.network.max_peers
    &&& node.network.max_inbound_connections == settings.network.max_inbound_connections
    &&& node.network.connect_timeout_ms == settings.network.connect_timeout_ms
    &&& node.network.read_timeout_ms == settings.network.read_timeout_ms
    &&& node.network.write_timeout_ms == settings.network.write_timeout_ms
    &&& node.sync == settings.sync
}

/// A node starts where its settings have no fault and its log, if it has one, loads: fresh with the
/// blocks of the log, or with none, and then with its peers. Otherwise it is told the fault, or why
/// the log does not load.
pub proof fn lemma_start_is_exact(
    settings: NodeConfigView,
    bound_addr: PeerAddr,
    log: Option<Seq<char>>,
) -> (fresh: NodeView)
    ensures
        ({
            let started: Result<(NodeView, LogTail), StartErrorView> = state::spec_start(
                settings,
                bound_addr,
                log,
            );
            let fault: Option<Seq<char>> = config::config_fault(settings);
            &&& fault matches Some(message) ==> started == Err::<
                (NodeView, LogTail),
                StartErrorView,
            >(StartErrorView::Config(message))
            &&& fault is None && log is None ==> {
                &&& is_fresh(
                    settings,
                    bound_addr,
                    fork_choice::nothing_known(settings.chain),
                    fresh,
                )
                &&& started == Ok::<(NodeView, LogTail), StartErrorView>(
                    (state::after_peers(fresh, settings.peers), LogTail::Clean),
                )
            }
            &&& fault is None && log is Some ==> match storage::spec_load(
                settings.chain,
                log->0,
            ) {
                Ok((forks, tail)) => {
                    &&& is_fresh(settings, bound_addr, forks, fresh)
                    &&& started == Ok::<(NodeView, LogTail), StartErrorView>(
                        (state::after_peers(fresh, settings.peers), tail),
                    )
                },
                Err(error) => started == Err::<(NodeView, LogTail), StartErrorView>(
                    StartErrorView::Storage(error),
                ),
            }
        }),
{
    event_laws::lemma_counters_are_told(NodeCounters::spec_zero());
    let forks: ForkView = match log {
        Some(text) => match storage::spec_load(settings.chain, text) {
            Ok((forks, tail)) => forks,
            Err(error) => fork_choice::nothing_known(settings.chain),
        },
        None => fork_choice::nothing_known(settings.chain),
    };
    state::fresh_node(settings, bound_addr, forks)
}

} // verus!
