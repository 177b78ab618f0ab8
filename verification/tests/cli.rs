use chesscoin::adapters::{DeterministicSampler, ToyHash};
use chesscoin::application::{ChainConfig, ProtocolSimulator, SimulationRequest};
use chesscoin::cli::{
    config_path, final_lines, network_line, parse_config, parse_node_request,
    parse_simulation_request, prepare_simulation, select_command, simulation_lines, startup_lines,
    status_line, verdict, Argument, ConfigEntry, NodeRequest, ParsedNode, ParsedSimulation, Selected,
};
use chesscoin::node::{
    entropy_from, IncomingAction, MinerConfig, NodeState, PeerAddr, Schedule, StartError, SyncStep,
};
use chesscoin::wire::{chain_fingerprint, PeerMessage};

fn words(args: &[&str]) -> Vec<String> {
    args.iter().map(|arg| arg.to_string()).collect()
}

fn addr_of(text: &str) -> Option<PeerAddr> {
    let (host, port) = text.split_once(':')?;
    let port = port.parse().ok()?;
    match host {
        "127.0.0.1" => Some(PeerAddr::V4 {
            ip: 0x7f00_0001,
            port,
        }),
        "0.0.0.0" => Some(PeerAddr::V4 { ip: 0, port }),
        _ => None,
    }
}

fn argument(text: &str) -> Argument {
    Argument {
        text: text.to_string(),
        addr: addr_of(text),
    }
}

fn arguments(args: &[&str]) -> Vec<Argument> {
    args.iter().map(|arg| argument(arg)).collect()
}

fn request(args: &[&str]) -> NodeRequest {
    match parse_node_request(&[], &arguments(args)).expect("options are read") {
        ParsedNode::Run(request) => request,
        ParsedNode::Help => panic!("help was not asked for"),
    }
}

fn start(request: &NodeRequest, port: u16) -> NodeState {
    NodeState::start(&request.config, PeerAddr::localhost(port), None)
        .expect("node starts")
        .0
}

fn shown(addr: &PeerAddr) -> String {
    match addr {
        PeerAddr::V4 { ip, port } => {
            let [a, b, c, d] = ip.to_be_bytes();
            format!("{a}.{b}.{c}.{d}:{port}")
        }
        PeerAddr::V6 { .. } => panic!("only the other kind is used here"),
    }
}

fn printed(node: &NodeState, request: &NodeRequest) -> String {
    let snapshot = node.snapshot();
    let peers: Vec<String> = snapshot.known_peers.iter().map(shown).collect();
    let mut lines = startup_lines(
        &snapshot,
        node.network(),
        request,
        &shown(&snapshot.bound_addr),
        &shown(&snapshot.advertised_addr),
        &peers,
    );
    lines.extend(final_lines(&snapshot));
    lines.join("\n")
}

fn start_message(args: &[&str]) -> String {
    let request = request(args);
    match NodeState::start(&request.config, request.config.listen_addr, None) {
        Err(StartError::Config(message)) => message,
        _ => panic!("the node starts"),
    }
}

#[test]
fn simulate_command_accepts_honest_trace() {
    let parsed = prepare_simulation(&words(&["--steps", "4", "--samples", "4"]));
    let Ok(ParsedSimulation::Run(request)) = parsed else {
        panic!("{parsed:?}")
    };
    let report = ProtocolSimulator::new(ToyHash, DeterministicSampler).run(request);
    let stdout = simulation_lines(&request, &report).join("\n");
    assert!(stdout.contains("outcome              ACCEPT"));
}

#[test]
fn simulate_command_rejects_zero_samples() {
    let stderr = prepare_simulation(&words(&["--steps", "4", "--samples", "0"]))
        .expect_err("zero samples");
    assert!(
        stderr.contains("--samples must be greater than zero"),
        "{stderr}"
    );
}

#[test]
fn simulate_command_rejects_tampering_beyond_the_trace() {
    assert_eq!(
        prepare_simulation(&words(&["--steps", "4", "--tamper-step", "4"])),
        Err("--tamper-step must be less than --steps".to_string())
    );
}

#[test]
fn simulation_report_is_printed() {
    let request = SimulationRequest {
        steps: 8,
        samples: 8,
        tamper_step: Some(3),
        ..SimulationRequest::default()
    };
    let report = ProtocolSimulator::new(ToyHash, DeterministicSampler).run(request);
    let lines = simulation_lines(&request, &report);
    assert_eq!(lines.len(), 23);
    assert_eq!(lines[0], "ChessCoin local protocol simulator");
    assert_eq!(lines[2], "M_t                  [120, -80, 45, 210, -135, 65, 15, -30]");
    assert_eq!(lines[3], "training steps       8");
    assert_eq!(lines[4], "seed                 42");
    assert_eq!(lines[7], "sampling entropy     2026");
    assert_eq!(lines[8], "sampled indices      [0, 1, 2, 3, 4, 5, 6, 7]");
    assert_eq!(lines[9], "tamper applied       step 3");
    assert_eq!(lines[10], "");
    assert_eq!(lines[11], "sample verification");
    assert_eq!(lines[12], "  step   0: commitment=ok transition=ok");
    assert_eq!(lines[15], "  step   3: commitment=fail transition=fail");
    assert_eq!(lines[20], "");
    assert_eq!(lines[21], "outcome              REJECT");
    assert_eq!(lines[22], "failed indices       [3]");
    assert_eq!(verdict(true), "ok");
    assert_eq!(verdict(false), "fail");
}

#[test]
fn simulation_options_are_read() {
    assert_eq!(
        parse_simulation_request(&words(&[
            "--steps", "1", "--samples", "2", "--seed", "3", "--entropy", "4", "--tamper-step", "0",
        ])),
        Ok(ParsedSimulation::Run(SimulationRequest {
            steps: 1,
            samples: 2,
            seed: 3,
            sampling_entropy: 4,
            tamper_step: Some(0),
        }))
    );
    assert_eq!(
        parse_simulation_request(&[]),
        Ok(ParsedSimulation::Run(SimulationRequest::default()))
    );
    assert_eq!(
        parse_simulation_request(&words(&["--help", "--what"])),
        Ok(ParsedSimulation::Help)
    );
    assert_eq!(
        parse_simulation_request(&words(&["--what"])),
        Err("unknown option '--what'".to_string())
    );
    assert_eq!(
        parse_simulation_request(&words(&["--seed"])),
        Err("--seed requires a value".to_string())
    );
    assert_eq!(
        parse_simulation_request(&words(&["--steps", "x", "-h"])),
        Err("--steps received an invalid value".to_string())
    );
}

#[test]
fn commands_are_selected() {
    assert_eq!(select_command(&[]), Ok(Selected::Simulate { skip: 0 }));
    assert_eq!(select_command(&words(&["help"])), Ok(Selected::Help));
    assert_eq!(select_command(&words(&["-h"])), Ok(Selected::Help));
    assert_eq!(
        select_command(&words(&["simulate", "--steps", "1"])),
        Ok(Selected::Simulate { skip: 1 })
    );
    assert_eq!(select_command(&words(&["node"])), Ok(Selected::Node { skip: 1 }));
    assert_eq!(
        select_command(&words(&["--steps", "1"])),
        Ok(Selected::Simulate { skip: 0 })
    );
    assert_eq!(
        select_command(&words(&["wallet"])),
        Err("unknown command 'wallet'".to_string())
    );
}

#[test]
fn node_command_mines_one_block() {
    let request = request(&[
        "--listen",
        "127.0.0.1:0",
        "--mine-once",
        "--run-ms",
        "200",
        "--difficulty",
        "0",
        "--steps",
        "4",
        "--samples",
        "4",
    ]);
    assert!(request.mine_once);
    assert_eq!(request.run_ms, 200);
    let (mut node, _) =
        NodeState::start(&request.config, PeerAddr::localhost(1), None).expect("node starts");
    node.mine_once(request.training_seed, request.sampling_entropy)
        .expect("block is mined");
    let stdout = printed(&node, &request);
    assert!(stdout.contains("ChessCoin node v0.1"));
    assert!(stdout.contains("mining               one block requested"));
    assert!(stdout.contains("final height         1"));
    assert!(stdout.contains("known blocks         1"));
    assert!(stdout.contains("failed responses     0"));
    assert!(status_line(&node.snapshot())
        .starts_with("status               height=1 accepted=0 rejected=0 head="));
}

#[test]
fn node_command_rejects_unmineable_difficulty() {
    let stderr = start_message(&[
        "--listen",
        "127.0.0.1:0",
        "--mine-once",
        "--run-ms",
        "200",
        "--difficulty",
        "257",
        "--steps",
        "4",
        "--samples",
        "4",
    ]);
    assert!(stderr.contains("difficulty_zero_bits"), "{stderr}");
}

#[test]
fn node_command_rejects_zero_write_timeout() {
    let stderr = start_message(&[
        "--listen",
        "127.0.0.1:0",
        "--run-ms",
        "200",
        "--write-timeout-ms",
        "0",
    ]);
    assert!(stderr.contains("write_timeout"), "{stderr}");
}

#[test]
fn node_command_rejects_zero_max_inbound_connections() {
    let stderr = start_message(&[
        "--listen",
        "127.0.0.1:0",
        "--run-ms",
        "200",
        "--max-inbound-connections",
        "0",
    ]);
    assert!(stderr.contains("max_inbound_connections"), "{stderr}");
}

#[test]
fn node_command_requires_advertise_for_unspecified_listener() {
    let stderr = start_message(&["--listen", "0.0.0.0:0", "--run-ms", "1"]);
    assert!(stderr.contains("advertise_addr is required"), "{stderr}");
    let allowed = request(&["--listen", "0.0.0.0:0", "--advertise", "127.0.0.1:39393"]);
    assert!(NodeState::start(&allowed.config, allowed.config.listen_addr, None).is_ok());
}

#[test]
fn node_command_reads_config_file() {
    let held = "listen=127.0.0.1:0\nrun_ms=200\ndifficulty=0\nsteps=4\nsamples=4\nmine_once=true\nmax_message_bytes=4096\nmax_peers=8\nmax_inbound_connections=7\nsync_locator_hashes=16\n";
    let entries: Vec<ConfigEntry> = parse_config(held)
        .expect("config is read")
        .into_iter()
        .map(|(key, value)| ConfigEntry {
            key,
            value: argument(&value),
        })
        .collect();
    assert_eq!(entries.len(), 10);
    let args = arguments(&["--config", "node.conf"]);
    assert_eq!(config_path(&args), Some("node.conf".to_string()));
    let parsed = parse_node_request(&entries, &args).expect("options are read");
    let ParsedNode::Run(request) = parsed else {
        panic!("{parsed:?}")
    };
    assert!(request.mine_once);
    assert_eq!(request.run_ms, 200);
    assert_eq!(request.config.sync.locator_hashes, 16);
    let (mut node, _) =
        NodeState::start(&request.config, PeerAddr::localhost(1), None).expect("node starts");
    node.mine_once(request.training_seed, request.sampling_entropy)
        .expect("block is mined");
    let stdout = printed(&node, &request);
    assert!(stdout.contains("final height         1"), "{stdout}");
    let expected = format!(
        "network              id=chesscoin-local protocol=6 chain={} max_message_bytes=4096 max_peers=8 max_inbound_connections=7",
        chain_fingerprint(&ChainConfig {
            steps_per_block: 4,
            samples_per_block: 4,
            difficulty_zero_bits: 0,
        })
        .to_hex()
    );
    assert_eq!(network_line(node.network()), expected);
    assert!(stdout.contains(&expected), "{stdout}");
}

#[test]
fn node_command_prints_configured_advertise_address() {
    let request = request(&[
        "--listen",
        "127.0.0.1:0",
        "--advertise",
        "127.0.0.1:39393",
        "--run-ms",
        "1",
    ]);
    let stdout = printed(&start(&request, 1), &request);
    assert!(
        stdout.contains("advertising          127.0.0.1:39393"),
        "{stdout}"
    );
    assert!(stdout.contains("listening            127.0.0.1:1\n"), "{stdout}");
    assert!(!stdout.contains("mining"), "{stdout}");
    assert!(!stdout.contains("miner"), "{stdout}");
    assert!(!stdout.contains("mode"), "{stdout}");
}

#[test]
fn node_without_a_limit_says_so() {
    let request = request(&["--peer", "127.0.0.1:2", "--peer", "127.0.0.1:3"]);
    let stdout = printed(&start(&request, 1), &request);
    assert!(stdout.contains("peers                [127.0.0.1:2, 127.0.0.1:3]\n"), "{stdout}");
    assert!(
        stdout.contains("mode                 running until process is stopped\n"),
        "{stdout}"
    );
}

#[test]
fn two_cli_nodes_exchange_a_mined_block() {
    let chain = ["--difficulty", "0", "--steps", "4", "--samples", "4"];
    let request_a = request(
        &[&["--listen", "127.0.0.1:0", "--run-ms", "2500"][..], &chain].concat(),
    );
    let mut node_a = start(&request_a, 1);
    let request_b = request(
        &[
            &[
                "--listen",
                "127.0.0.1:0",
                "--peer",
                "127.0.0.1:1",
                "--mine-once",
                "--run-ms",
                "800",
            ][..],
            &chain,
        ]
        .concat(),
    );
    let mut node_b = start(&request_b, 2);

    let announcement = node_b.message_line(&PeerMessage::Peer {
        addr: shown(&node_b.snapshot().advertised_addr),
    });
    match node_a.handle_line(&announcement) {
        IncomingAction::Learn(text) => {
            node_a.add_peer(addr_of(&text).expect("an address is announced"));
        }
        other => panic!("{other:?}"),
    }
    let block = node_b
        .mine_once(request_b.training_seed, request_b.sampling_entropy)
        .expect("block is mined");
    node_a.handle_line(&node_b.broadcast_line(&block));

    let stdout_b = printed(&node_b, &request_b);
    assert!(stdout_b.contains("final height         1"), "{stdout_b}");
    assert!(stdout_b.contains("mined blocks         1"), "{stdout_b}");
    let stdout_a = printed(&node_a, &request_a);
    assert!(stdout_a.contains("final height         1"), "{stdout_a}");
    assert!(stdout_a.contains("accepted blocks      1"), "{stdout_a}");
    assert!(stdout_a.contains("known peers          1"), "{stdout_a}");
}

#[test]
fn late_cli_node_syncs_existing_block_from_peer() {
    let chain = ["--difficulty", "0", "--steps", "4", "--samples", "4"];
    let request_a = request(
        &[&["--listen", "127.0.0.1:0", "--mine-once", "--run-ms", "1600"][..], &chain].concat(),
    );
    let mut node_a = start(&request_a, 1);
    node_a
        .mine_once(request_a.training_seed, request_a.sampling_entropy)
        .expect("block is mined");
    let request_b = request(
        &[
            &[
                "--listen",
                "127.0.0.1:0",
                "--peer",
                "127.0.0.1:1",
                "--sync-interval-ms",
                "50",
                "--run-ms",
                "700",
            ][..],
            &chain,
        ]
        .concat(),
    );
    let mut node_b = start(&request_b, 2);
    let mut schedule = Schedule::new(request_b.config.miner, request_b.config.sync, 0);
    for now in 0..request_b.run_ms {
        if !schedule.sync_due(now) {
            continue;
        }
        let question = node_b.sync_request().expect("there is a peer");
        let blocks = match node_a.handle_line(&node_b.message_line(&question)) {
            IncomingAction::Respond(blocks) => blocks,
            other => panic!("{other:?}"),
        };
        for block in &blocks {
            assert_eq!(
                node_b.handle_sync_line(&node_a.broadcast_line(block)).0,
                SyncStep::More
            );
        }
        schedule.synced(now);
    }

    let stdout_b = printed(&node_b, &request_b);
    assert!(stdout_b.contains("final height         1"), "{stdout_b}");
    assert!(stdout_b.contains("synced blocks        1"), "{stdout_b}");
}

#[test]
fn node_command_continuously_mines_blocks() {
    let request = request(&[
        "--listen",
        "127.0.0.1:0",
        "--mine",
        "--mine-interval-ms",
        "50",
        "--run-ms",
        "220",
        "--difficulty",
        "0",
        "--steps",
        "4",
        "--samples",
        "4",
    ]);
    let mut node = start(&request, 1);
    let mut schedule = Schedule::new(request.config.miner, request.config.sync, 0);
    for now in 0..request.run_ms {
        if schedule.mine_due(now) {
            node.mine_once(now, entropy_from(now)).expect("block is mined");
            schedule.mined(now);
        }
    }

    let stdout = printed(&node, &request);
    assert!(
        stdout.contains("miner                continuous"),
        "{stdout}"
    );
    assert!(stdout.contains("mined blocks         "), "{stdout}");
    assert!(stdout.contains("known blocks         "), "{stdout}");
    assert!(
        stdout.contains("final height         3")
            || stdout.contains("final height         4")
            || stdout.contains("final height         5"),
        "{stdout}"
    );
}

#[test]
fn options_override_the_config_file() {
    let entries = [
        ConfigEntry {
            key: "steps".to_string(),
            value: argument("9"),
        },
        ConfigEntry {
            key: "mine".to_string(),
            value: argument("true"),
        },
    ];
    let parsed = parse_node_request(
        &entries,
        &arguments(&["--steps", "7", "--mine-interval-ms", "50"]),
    );
    let Ok(ParsedNode::Run(request)) = parsed else {
        panic!("{parsed:?}")
    };
    assert_eq!(request.config.chain.steps_per_block, 7);
    assert_eq!(request.config.miner, Some(MinerConfig { interval_ms: 50 }));
}

#[test]
fn config_complaints_name_line_and_key() {
    assert_eq!(
        parse_config("a=1\n\nnonsense"),
        Err("config line 3 must be key=value".to_string())
    );
    assert_eq!(
        parse_config("key=a=b\r\n"),
        Ok(vec![("key".to_string(), "a=b".to_string())])
    );
    let refused = |key: &str, value: &str| {
        let entry = ConfigEntry {
            key: key.to_string(),
            value: argument(value),
        };
        parse_node_request(&[entry], &[]).expect_err("bad setting")
    };
    assert_eq!(refused("colour", "red"), "unknown config key 'colour'");
    assert_eq!(refused("steps", "red"), "steps received an invalid value");
    assert_eq!(refused("mine", "yes"), "mine received an invalid value");
}

#[test]
fn every_node_option_is_read() {
    let read = request(&[
        "--node-id", "n", "--listen", "127.0.0.1:1", "--advertise", "127.0.0.1:2", "--peer",
        "127.0.0.1:3", "--peer", "127.0.0.1:4", "--network-id", "net", "--protocol-version", "7",
        "--data-dir", "d", "--mine", "--mine-once", "--mine-interval-ms", "5", "--run-ms", "6",
        "--steps", "12", "--samples", "8", "--difficulty", "9", "--max-message-bytes", "10",
        "--max-peers", "11", "--max-inbound-connections", "13", "--connect-timeout-ms", "14",
        "--read-timeout-ms", "15", "--write-timeout-ms", "16", "--sync-interval-ms", "17",
        "--sync-max-blocks", "18", "--sync-locator-hashes", "19", "--no-sync", "--seed", "20",
        "--entropy", "21",
    ]);
    let config = &read.config;
    assert_eq!(config.node_id, "n");
    assert_eq!(config.listen_addr, PeerAddr::localhost(1));
    assert_eq!(config.advertise_addr, Some(PeerAddr::localhost(2)));
    assert_eq!(config.peers, vec![PeerAddr::localhost(3), PeerAddr::localhost(4)]);
    assert_eq!(config.network.wire.network_id, "net");
    assert_eq!(config.network.wire.protocol_version, 7);
    assert_eq!(config.storage.as_ref().map(|held| held.data_dir.as_str()), Some("d"));
    assert_eq!(config.miner, Some(MinerConfig { interval_ms: 5 }));
    assert!(read.mine && read.mine_once);
    assert_eq!(read.run_ms, 6);
    assert_eq!(
        config.chain,
        ChainConfig {
            steps_per_block: 12,
            samples_per_block: 8,
            difficulty_zero_bits: 9
        }
    );
    assert_eq!(config.network.max_message_bytes, 10);
    assert_eq!(config.network.max_peers, 11);
    assert_eq!(config.network.max_inbound_connections, 13);
    assert_eq!(config.network.connect_timeout_ms, 14);
    assert_eq!(config.network.read_timeout_ms, 15);
    assert_eq!(config.network.write_timeout_ms, 16);
    assert!(!config.sync.enabled);
    assert_eq!(config.sync.interval_ms, 17);
    assert_eq!(config.sync.max_blocks_per_response, 18);
    assert_eq!(config.sync.locator_hashes, 19);
    assert_eq!((read.training_seed, read.sampling_entropy), (20, 21));
}

#[test]
fn node_complaints_are_those_of_the_first_bad_option() {
    let refused = |args: &[&str]| {
        parse_node_request(&[], &arguments(args)).expect_err("bad options")
    };
    assert_eq!(refused(&["--what"]), "unknown option '--what'");
    assert_eq!(refused(&["--node_id", "x"]), "unknown option '--node_id'");
    assert_eq!(refused(&["--listen", "nowhere"]), "--listen received an invalid value");
    assert_eq!(refused(&["--steps", "x", "--what"]), "--steps received an invalid value");
    assert_eq!(refused(&["--seed"]), "--seed requires a value");
    assert_eq!(refused(&["--config"]), "--config requires a value");
    assert_eq!(
        refused(&["--steps", "3", "--samples", "4"]),
        "--samples must be less than or equal to --steps"
    );
    assert!(matches!(
        parse_node_request(&[], &arguments(&["-h", "--what"])),
        Ok(ParsedNode::Help)
    ));
}

#[test]
fn config_path_is_the_last_one_named() {
    assert_eq!(config_path(&arguments(&[])), None);
    assert_eq!(config_path(&arguments(&["--config"])), None);
    assert_eq!(
        config_path(&arguments(&["--config", "a", "--config", "b", "--mine"])),
        Some("b".to_string())
    );
    assert_eq!(config_path(&arguments(&["--node-id", "--config", "x"])), None);
}

#[test]
fn settings_before_the_first_bad_one_are_kept() {
    let entries = [("steps", "9"), ("samples", "x"), ("seed", "5")].map(|(key, value)| {
        ConfigEntry {
            key: key.to_string(),
            value: argument(value),
        }
    });
    let mut request = NodeRequest::new();
    assert_eq!(
        request.apply_config(&entries),
        Err("samples received an invalid value".to_string())
    );
    assert_eq!(request.config.chain.steps_per_block, 9);
    assert_eq!(request.config.chain.samples_per_block, 6);
    assert_eq!(request.training_seed, 42);
}
