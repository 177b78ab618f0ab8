use chesscoin::adapters::{DeterministicSampler, ToyHash};
use chesscoin::application::ChainState;
use chesscoin::domain::{Block, Digest};
use chesscoin::node::{
    block_id, Announcements, entropy_from, read_limited_line_from, startup_command, BlockFate, BlockSource,
    IncomingAction, IncomingReadError, LineReader, LoopAction, MinerConfig, NetworkConfig,
    NodeCommand, NodeConfig, NodeState, PeerAddr, ReadStep, Schedule, StartError, StorageConfig,
    SyncConfig, SyncStep,
};
use chesscoin::storage::{encode_record, LogTail};
use chesscoin::wire::{chain_fingerprint, encode_network_message, PeerMessage, WireConfig};

fn settings(node_id: &str) -> NodeConfig {
    let mut config = NodeConfig::localhost_ephemeral(node_id);
    config.chain.difficulty_zero_bits = 0;
    config.chain.steps_per_block = 4;
    config.chain.samples_per_block = 4;
    config
}

fn started(config: &NodeConfig, port: u16) -> NodeState {
    NodeState::start(config, PeerAddr::localhost(port), None)
        .expect("node starts")
        .0
}

fn answer(node: &NodeState, blocks: &[Block]) -> Vec<String> {
    let mut lines: Vec<String> = blocks.iter().map(|block| node.broadcast_line(block)).collect();
    lines.push(node.message_line(&PeerMessage::EndBlocks));
    lines
}

#[test]
fn two_nodes_share_a_mined_block() {
    let mut node_a = started(&settings("node-a"), 1);
    let mut config_b = settings("node-b");
    config_b.peers.push(PeerAddr::localhost(1));
    let mut node_b = started(&config_b, 2);
    assert_eq!(node_b.peers(), &[PeerAddr::localhost(1)]);

    let block = node_b.mine_once(123, 456).expect("block is mined");
    let action = node_a.handle_line(&node_b.broadcast_line(&block));
    node_b.record_broadcast(1, 0);

    let snapshot_a = node_a.snapshot();
    let snapshot_b = node_b.snapshot();
    assert_eq!(snapshot_a.height, 1);
    assert_eq!(snapshot_b.height, 1);
    assert_eq!(snapshot_a.head, snapshot_b.head);
    assert_eq!(snapshot_a.accepted_blocks, 1);
    assert_eq!(snapshot_b.mined_blocks, 1);
    assert_eq!(snapshot_b.outbound_blocks, 1);
    assert_eq!(
        snapshot_a.head.to_hex(),
        "32164749c3cddbc3d8fb848b0764117fb32d29d1e31e29da272e15bd473f94ff"
    );
    match action {
        IncomingAction::Gossip(passed_on) => assert_eq!(passed_on, block),
        other => panic!("{other:?}"),
    }
}

#[test]
fn continuous_miner_produces_multiple_blocks() {
    let mut config = settings("miner");
    config.miner = Some(MinerConfig { interval_ms: 40 });
    let mut node = started(&config, 1);
    let mut schedule = Schedule::new(config.miner, config.sync, 0);

    for now in 0..100 {
        if schedule.mine_due(now) {
            node.mine_once(now, entropy_from(now)).expect("block is mined");
            schedule.mined(now);
        }
    }

    let snapshot = node.snapshot();
    assert!(snapshot.height >= 3, "{snapshot:?}");
    assert!(snapshot.mined_blocks >= 3, "{snapshot:?}");
}

#[test]
fn late_joining_peer_syncs_existing_blocks() {
    let mut node_a = started(&settings("sync-a"), 1);
    node_a.mine_once(1, 2).expect("block is mined");
    node_a.mine_once(3, 4).expect("block is mined");
    assert_eq!(node_a.snapshot().height, 2);

    let mut config_b = settings("sync-b");
    config_b.peers.push(PeerAddr::localhost(1));
    config_b.sync.interval_ms = 20;
    let mut node_b = started(&config_b, 2);
    let request = node_b.sync_request().expect("there is a peer");
    let line = node_b.message_line(&request);
    let blocks = match node_a.handle_line(&line) {
        IncomingAction::Respond(blocks) => blocks,
        other => panic!("{other:?}"),
    };
    let mut steps = Vec::new();
    for line in answer(&node_a, &blocks) {
        steps.push(node_b.handle_sync_line(&line).0);
    }

    let snapshot_a = node_a.snapshot();
    let snapshot_b = node_b.snapshot();
    assert_eq!(steps, vec![SyncStep::More, SyncStep::More, SyncStep::Done]);
    assert_eq!(snapshot_b.height, 2);
    assert_eq!(snapshot_b.head, snapshot_a.head);
    assert_eq!(snapshot_b.synced_blocks, 2);
}

#[test]
fn node_reloads_persisted_blocks() {
    let mut config = settings("persist-a");
    config.storage = Some(StorageConfig {
        data_dir: "data".to_string(),
    });
    let mut node = started(&config, 1);
    let block = node.mine_once(77, 88).expect("block is mined");
    let log = encode_record(&block) + "\n";
    let first = node.snapshot();
    assert_eq!(first.height, 1);

    config.node_id = "persist-b".to_string();
    let (restarted, tail) =
        NodeState::start(&config, PeerAddr::localhost(1), Some(&log)).expect("node restarts");
    let second = restarted.snapshot();

    assert_eq!(tail, LogTail::Clean);
    assert_eq!(second.height, 1);
    assert_eq!(second.head, first.head);
    assert_eq!(second.node_id, "persist-b");
}

#[test]
fn malformed_peer_message_is_counted_and_rejected() {
    let mut node = started(&NodeConfig::localhost_ephemeral("malformed"), 1);
    node.handle_line("NOT_A_MESSAGE\n");

    let snapshot = node.snapshot();

    assert_eq!(snapshot.rejected_blocks, 1);
    assert_eq!(snapshot.malformed_messages, 1);
}

#[test]
fn oversized_peer_message_is_counted_and_rejected_before_decode() {
    let mut config = NodeConfig::localhost_ephemeral("oversized");
    config.network.max_message_bytes = 8;
    let mut node = started(&config, 1);
    let error = read_limited_line_from(b"BLOCK_TOO_LARGE\n", node.network().max_message_bytes)
        .expect_err("line is too long");
    node.handle_read_error(error);

    let snapshot = node.snapshot();

    assert_eq!(snapshot.rejected_blocks, 1);
    assert_eq!(snapshot.oversized_messages, 1);
    assert_eq!(snapshot.malformed_messages, 0);
}

#[test]
fn incompatible_network_message_is_counted() {
    let config = NodeConfig::localhost_ephemeral("network-a");
    let mut node = started(&config, 1);
    let wrong_network = WireConfig {
        network_id: "other-network".to_string(),
        ..WireConfig::default()
    };
    let message = encode_network_message(
        &wrong_network,
        &PeerMessage::GetBlocks {
            from_height: 0,
            limit: 1,
        },
    ) + "\n";
    node.handle_line(&message);

    let snapshot = node.snapshot();

    assert_eq!(snapshot.incompatible_messages, 1);
    assert_eq!(snapshot.malformed_messages, 0);
}

#[test]
fn other_chain_parameters_are_incompatible() {
    let mut node = started(&settings("a"), 1);
    let mut other = settings("b");
    other.chain.samples_per_block = 3;
    let mut sender = started(&other, 2);
    let block = sender.mine_once(1, 2).expect("block is mined");
    node.handle_line(&sender.broadcast_line(&block));
    assert_eq!(node.snapshot().incompatible_messages, 1);
    assert_eq!(node.snapshot().height, 0);
    assert_eq!(
        node.network().wire.chain_fingerprint,
        chain_fingerprint(&settings("a").chain)
    );
}

#[test]
fn unreadable_connection_is_malformed() {
    let mut node = started(&settings("a"), 1);
    node.handle_read_error(IncomingReadError::Io);
    assert_eq!(node.snapshot().malformed_messages, 1);
    assert_eq!(node.snapshot().rejected_blocks, 0);
}

#[test]
fn known_block_is_not_passed_on_again() {
    let mut node = started(&settings("a"), 1);
    let block = node.mine_once(1, 2).expect("block is mined");
    let line = node.broadcast_line(&block);
    assert!(matches!(node.handle_line(&line), IncomingAction::Nothing));
    assert_eq!(node.snapshot().known_blocks, 1);
    assert_eq!(node.snapshot().accepted_blocks, 0);
    assert_eq!(node.snapshot().rejected_blocks, 0);
}

#[test]
fn refused_block_is_counted_by_source() {
    let mut node = started(&settings("a"), 1);
    let mut block = ChainState::new(settings("a").chain).mine_next_block(
        &ToyHash,
        &DeterministicSampler,
        1,
        2,
    );
    block.header.height = 9;
    assert_eq!(
        node.apply_incoming_block(&block, BlockSource::Gossip),
        BlockFate::Refused
    );
    let line = node.broadcast_line(&block);
    let (step, new_block) = node.handle_sync_line(&line);
    assert_eq!(step, SyncStep::Failed);
    assert_eq!(new_block, None);
    node.record_failed_sync();
    node.record_oversized_answer();
    node.record_failed_response();
    let snapshot = node.snapshot();
    assert_eq!(snapshot.rejected_blocks, 1);
    assert_eq!(snapshot.failed_syncs, 2);
    assert_eq!(snapshot.oversized_messages, 1);
    assert_eq!(snapshot.failed_responses, 1);
    assert_eq!(snapshot.height, 0);
    assert_eq!(snapshot.clone(), snapshot);
}

#[test]
fn longer_branch_reorganises_the_active_chain() {
    let mut node = started(&settings("a"), 1);
    let mut other = started(&settings("b"), 2);
    node.mine_once(1, 2).expect("block is mined");
    let first = other.mine_once(3, 4).expect("block is mined");
    let second = other.mine_once(5, 6).expect("block is mined");
    node.handle_line(&other.broadcast_line(&first));
    node.handle_line(&other.broadcast_line(&second));
    let snapshot = node.snapshot();
    assert_eq!(snapshot.height, 2);
    assert_eq!(snapshot.head, block_id(&second));
    assert_eq!(snapshot.known_blocks, 3);
    assert_eq!(snapshot.reorgs, 1);
    assert_eq!(snapshot.accepted_blocks, 2);
    assert_eq!(node.serve_blocks(0, 10), vec![first, second]);
}

#[test]
fn end_of_blocks_out_of_place_is_malformed() {
    let mut node = started(&settings("a"), 1);
    let line = node.message_line(&PeerMessage::EndBlocks);
    node.handle_line(&line);
    assert_eq!(node.snapshot().malformed_messages, 1);
    assert_eq!(node.snapshot().rejected_blocks, 0);
    let hello = node.message_line(&PeerMessage::Hello {
        node_id: "b".to_string(),
        height: 0,
        head: Digest::zero(),
    });
    assert!(matches!(node.handle_line(&hello), IncomingAction::Nothing));
    assert_eq!(node.handle_sync_line(&hello), (SyncStep::Failed, None));
    assert_eq!(node.handle_sync_line("?"), (SyncStep::Failed, None));
    assert_eq!(node.handle_sync_line(&line), (SyncStep::Done, None));
}

#[test]
fn announced_peer_is_learned() {
    let mut node = started(&settings("a"), 1);
    let line = node.message_line(&PeerMessage::Peer {
        addr: "127.0.0.1:9334".to_string(),
    });
    match node.handle_line(&line) {
        IncomingAction::Learn(addr) => assert_eq!(addr, "127.0.0.1:9334"),
        other => panic!("{other:?}"),
    }
}

#[test]
fn served_blocks_are_bounded() {
    let mut config = settings("a");
    config.sync.max_blocks_per_response = 2;
    let mut node = started(&config, 1);
    let mined: Vec<Block> = (0..4)
        .map(|seed| node.mine_once(seed, seed).expect("block is mined"))
        .collect();
    assert_eq!(node.serve_blocks(0, 10), mined[..2].to_vec());
    assert_eq!(node.serve_blocks(3, 10), mined[3..].to_vec());
    assert_eq!(node.serve_blocks(1, 1), mined[1..2].to_vec());
    assert!(node.serve_blocks(4, 10).is_empty());
    assert!(node.serve_blocks(u64::MAX, 10).is_empty());
    assert_eq!(
        node.serve_after(&[Digest::zero(), block_id(&mined[1])], 10),
        mined[2..].to_vec()
    );
    assert_eq!(node.serve_after(&[Digest::zero()], 10), mined[..2].to_vec());
}

#[test]
fn locator_is_newest_first_and_bounded() {
    let mut config = settings("a");
    config.sync.locator_hashes = 2;
    let mut node = started(&config, 1);
    assert!(node.locator().is_empty());
    let mined: Vec<Block> = (0..3)
        .map(|seed| node.mine_once(seed, seed).expect("block is mined"))
        .collect();
    assert_eq!(node.locator(), vec![block_id(&mined[2]), block_id(&mined[1])]);
    assert_eq!(node.sync_request(), None);
}

#[test]
fn peers_are_bounded_and_distinct() {
    let mut config = settings("a");
    config.network.max_peers = 2;
    config.advertise_addr = Some(PeerAddr::localhost(9));
    config.peers = vec![PeerAddr::localhost(2), PeerAddr::localhost(2)];
    let mut node = started(&config, 1);
    assert_eq!(node.peers(), &[PeerAddr::localhost(2)]);
    assert_eq!(node.snapshot().peer_rejections, 1);
    node.add_peer(PeerAddr::localhost(1));
    node.add_peer(PeerAddr::localhost(9));
    node.add_peer(PeerAddr::localhost(3));
    node.add_peer(PeerAddr::localhost(4));
    let snapshot = node.snapshot();
    assert_eq!(
        snapshot.known_peers,
        vec![PeerAddr::localhost(2), PeerAddr::localhost(3)]
    );
    assert_eq!(snapshot.peer_rejections, 4);
    assert!(node.has_room());
}

#[test]
fn peers_are_told_once() {
    let peers = [1, 2, 3].map(PeerAddr::localhost);
    let mut announcements = Announcements::new();
    assert_eq!(announcements.pending(&peers), peers.to_vec());
    announcements.record(PeerAddr::localhost(2));
    announcements.record(PeerAddr::localhost(2));
    assert_eq!(announcements.pending(&peers), vec![peers[0], peers[2]]);
}

#[test]
fn connections_are_bounded() {
    let mut config = settings("a");
    config.network.max_inbound_connections = 2;
    let node = started(&config, 1);
    assert!(node.accepts_connection(1));
    assert!(!node.accepts_connection(2));
}

#[test]
fn node_without_valid_settings_does_not_start() {
    let mut config = settings("a");
    config.chain.difficulty_zero_bits = 257;
    let error = NodeState::start(&config, PeerAddr::localhost(1), None).err();
    assert_eq!(
        error,
        Some(StartError::Config(
            "difficulty_zero_bits must be at most 256".to_string()
        ))
    );
    let broken = NodeState::start(&settings("a"), PeerAddr::localhost(1), Some("?\n")).err();
    assert!(matches!(broken, Some(StartError::Storage(_))));
}

#[test]
fn commands_change_the_schedule() {
    let mut schedule = Schedule::new(None, SyncConfig::default(), 5);
    assert!(!schedule.mine_due(5));
    assert!(schedule.sync_due(5));
    assert_eq!(
        schedule.command(NodeCommand::StartMining(MinerConfig::default()), 7),
        LoopAction::Nothing
    );
    assert!(schedule.mine_due(7));
    schedule.mined(7);
    assert!(!schedule.mine_due(5_006));
    assert!(schedule.mine_due(5_007));
    schedule.synced(7);
    assert!(!schedule.sync_due(5_006));
    schedule.synced(u64::MAX);
    assert_eq!(schedule.next_sync_at, u64::MAX);
    assert_eq!(schedule.command(NodeCommand::StopMining, 8), LoopAction::Nothing);
    assert!(!schedule.mine_due(9_999));
    assert_eq!(schedule.command(NodeCommand::SyncOnce, 8), LoopAction::Sync);
    assert_eq!(
        schedule.command(NodeCommand::AddPeer(PeerAddr::localhost(1)), 8),
        LoopAction::AddPeer(PeerAddr::localhost(1))
    );
    assert_eq!(
        schedule.command(
            NodeCommand::MineOnce {
                training_seed: 1,
                sampling_entropy: 2
            },
            8
        ),
        LoopAction::Mine {
            training_seed: 1,
            sampling_entropy: 2
        }
    );
    assert!(!schedule.stopped);
    schedule.command(NodeCommand::Stop, 8);
    assert!(schedule.stopped);
}

#[test]
fn node_mines_once_on_start_where_told_to() {
    let mut config = settings("a");
    assert_eq!(startup_command(&config, 1, 2), None);
    config.mine_once_on_start = true;
    assert_eq!(
        startup_command(&config, 1, 2),
        Some(NodeCommand::MineOnce {
            training_seed: 1,
            sampling_entropy: 256
        })
    );
}

#[test]
fn lines_are_read_up_to_their_end() {
    assert_eq!(read_limited_line_from(b"", 8), Ok(None));
    assert_eq!(read_limited_line_from(b"ab\ncd", 8), Ok(Some("ab\n".to_string())));
    assert_eq!(read_limited_line_from(b"abc", 3), Ok(Some("abc".to_string())));
    assert_eq!(
        read_limited_line_from(b"abc\n", 3),
        Err(IncomingReadError::Oversized)
    );
    assert_eq!(read_limited_line_from(b"\xff\n", 8), Err(IncomingReadError::Io));
    assert_eq!(
        read_limited_line_from("é\n".as_bytes(), 8),
        Ok(Some("é\n".to_string()))
    );
}

#[test]
fn reader_takes_one_byte_at_a_time() {
    let mut reader = LineReader::new(3);
    assert_eq!(reader.accept(b'a'), ReadStep::More);
    assert_eq!(reader.accept(b'\n'), ReadStep::Complete);
    assert_eq!(reader.finish(), Ok(Some("a\n".to_string())));
    let mut full = LineReader::new(0);
    assert_eq!(full.accept(b'\n'), ReadStep::Oversized);
}

#[test]
fn defaults_are_documented_values() {
    assert_eq!(MinerConfig::default().interval_ms, 5_000);
    let sync = SyncConfig::default();
    assert!(sync.enabled);
    assert_eq!(sync.interval_ms, 5_000);
    assert_eq!(sync.max_blocks_per_response, 128);
    let network = NetworkConfig::default();
    assert_eq!(network.max_message_bytes, 1024 * 1024);
    assert_eq!(network.connect_timeout_ms, 500);
    assert_eq!(network.read_timeout_ms, 5_000);
    assert_eq!(network.wire.network_id, "chesscoin-local");
    let config = NodeConfig::localhost_ephemeral("node");
    assert_eq!(config.listen_addr, PeerAddr::localhost(0));
    assert_eq!(config.clone(), config);
    assert!(config.validate().is_ok());
}

#[test]
fn gossiped_block_is_passed_on_once() {
    let mut sender = started(&settings("a"), 1);
    let mut node = started(&settings("b"), 2);
    let block = sender.mine_once(1, 2).expect("block is mined");
    let line = sender.broadcast_line(&block);
    assert!(matches!(node.handle_line(&line), IncomingAction::Gossip(_)));
    let before = node.snapshot();
    assert!(matches!(node.handle_line(&line), IncomingAction::Nothing));
    assert_eq!(node.snapshot(), before);
    assert_eq!(before.accepted_blocks, 1);
}

#[test]
fn node_without_a_log_starts_empty() {
    let mut config = settings("a");
    config.storage = Some(StorageConfig {
        data_dir: "data".to_string(),
    });
    for log in [None, Some("")] {
        let (node, tail) =
            NodeState::start(&config, PeerAddr::localhost(1), log).expect("node starts");
        assert_eq!(tail, LogTail::Clean);
        assert_eq!(node.snapshot().height, 0);
        assert_eq!(node.snapshot().head, Digest::zero());
    }
}
