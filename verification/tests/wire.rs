use chesscoin::adapters::{DeterministicSampler, ToyHash};
use chesscoin::application::{ChainConfig, ChainState};
use chesscoin::domain::{Block, Digest};
use chesscoin::wire::{
    chain_fingerprint, decode_block_message, decode_message, decode_network_message,
    encode_block_message, encode_message, encode_network_message, PeerMessage, WireConfig,
    PROTOCOL_VERSION, WIRE_MAGIC,
};

fn mined_block() -> Block {
    let chain = ChainState::new(ChainConfig {
        steps_per_block: 3,
        samples_per_block: 2,
        difficulty_zero_bits: 0,
    });
    chain.mine_next_block(&ToyHash, &DeterministicSampler, 7, 9)
}

#[test]
fn block_round_trips() {
    let hasher = ToyHash;
    let sampler = DeterministicSampler;
    let chain = ChainState::new(ChainConfig {
        steps_per_block: 3,
        samples_per_block: 2,
        difficulty_zero_bits: 0,
    });
    let block = chain.mine_next_block(&hasher, &sampler, 7, 9);

    let encoded = encode_message(&PeerMessage::Block(Box::new(block.clone())));
    let decoded = decode_message(&encoded).expect("valid wire message");

    assert_eq!(decoded, PeerMessage::Block(Box::new(block)));
}

#[test]
fn hello_round_trips() {
    let message = PeerMessage::Hello {
        node_id: "node|one".to_string(),
        height: 2,
        head: Digest::from_bytes([1; 32]),
    };

    let encoded = encode_message(&message);
    let decoded = decode_message(&encoded).expect("valid hello");

    assert_eq!(decoded, message);
}

#[test]
fn hello_is_written_with_escapes() {
    let message = PeerMessage::Hello {
        node_id: "50%|x".to_string(),
        height: 2,
        head: Digest::from_bytes([1; 32]),
    };
    assert_eq!(
        encode_message(&message),
        format!("HELLO|50%25%7Cx|2|{}", "01".repeat(32))
    );
}

#[test]
fn line_ends_are_cut_off() {
    let block = mined_block();
    let line = encode_block_message(&block) + "\r\n";
    assert_eq!(decode_block_message(&line), Ok(block));
}

#[test]
fn block_without_entries_round_trips() {
    let mut block = mined_block();
    block.trace.entries.clear();
    let line = encode_block_message(&block);
    assert!(line.ends_with('|'));
    assert_eq!(decode_block_message(&line), Ok(block));
}

#[test]
fn requests_round_trip() {
    let messages = [
        PeerMessage::GetBlocks {
            from_height: 3,
            limit: 9,
        },
        PeerMessage::Locate {
            hashes: vec![Digest::from_bytes([1; 32]), Digest::from_bytes([2; 32])],
            limit: 4,
        },
        PeerMessage::Locate {
            hashes: Vec::new(),
            limit: 0,
        },
        PeerMessage::EndBlocks,
        PeerMessage::Peer {
            addr: "127.0.0.1:9333".to_string(),
        },
    ];
    for message in messages {
        assert_eq!(decode_message(&encode_message(&message)), Ok(message.clone()));
    }
}

#[test]
fn text_beyond_ascii_is_read_byte_by_byte() {
    let message = PeerMessage::Hello {
        node_id: "é".to_string(),
        height: 0,
        head: Digest::zero(),
    };
    assert_eq!(
        decode_message(&encode_message(&message)),
        Ok(PeerMessage::Hello {
            node_id: "Ã©".to_string(),
            height: 0,
            head: Digest::zero(),
        })
    );
}

#[test]
fn unknown_kinds_are_refused() {
    assert_eq!(
        decode_message("NOT_A_MESSAGE\n"),
        Err("unknown message type 'NOT_A_MESSAGE'".to_string())
    );
    assert_eq!(decode_message(""), Err("unknown message type ''".to_string()));
}

#[test]
fn wrong_field_counts_are_refused() {
    let refused = |line: &str| decode_message(line).expect_err("wrong field count");
    assert_eq!(refused("HELLO|a|1"), "HELLO requires 3 fields");
    assert_eq!(refused("BLOCK|1"), "BLOCK requires 13 fields");
    assert_eq!(refused("GETBLOCKS|1"), "GETBLOCKS requires 2 fields");
    assert_eq!(refused("LOCATE|1"), "LOCATE requires 2 fields");
    assert_eq!(refused("ENDBLOCKS|1"), "ENDBLOCKS requires 0 fields");
    assert_eq!(refused("PEER"), "PEER requires 1 field");
}

#[test]
fn bad_fields_are_named() {
    let refused = |line: &str| decode_message(line).expect_err("bad field");
    let head = "01".repeat(32);
    assert_eq!(refused(&format!("HELLO|a|x|{head}")), "invalid height: 'x'");
    assert_eq!(refused("HELLO|a|1|00"), "digest hex must be 64 characters");
    assert_eq!(refused(&format!("HELLO|%2|1|{head}")), "truncated escape");
    assert_eq!(refused(&format!("HELLO|%zz|1|{head}")), "invalid escape");
    assert_eq!(refused("GETBLOCKS|-1|1"), "invalid from_height: '-1'");
    assert_eq!(refused("LOCATE|1|00"), "digest hex must be 64 characters");
}

#[test]
fn escape_with_a_plus_sign_is_one_digit() {
    let line = format!("HELLO|a%+fb|1|{}", "01".repeat(32));
    assert_eq!(
        decode_message(&line),
        Ok(PeerMessage::Hello {
            node_id: "a\u{f}b".to_string(),
            height: 1,
            head: Digest::from_bytes([1; 32]),
        })
    );
}

#[test]
fn bad_block_fields_are_named_in_order() {
    let line = encode_block_message(&mined_block());
    let fields: Vec<&str> = line.split('|').collect();
    let with = |at: usize, value: &str| {
        let mut changed: Vec<String> = fields.iter().map(|field| field.to_string()).collect();
        changed[at] = value.to_string();
        decode_message(&changed.join("|")).expect_err("bad field")
    };
    assert_eq!(with(1, "x"), "invalid height: 'x'");
    assert_eq!(with(2, "x"), "digest hex must be 64 characters");
    assert_eq!(with(3, "1_2"), "model requires 8 weights");
    assert_eq!(with(4, "1_2_3_4_5_6_7_y"), "invalid model weight: 'y'");
    assert_eq!(with(6, ""), "invalid training_seed: ''");
    assert_eq!(with(7, "?"), "invalid sampling_entropy: '?'");
    assert_eq!(with(8, "?"), "invalid sample_count: '?'");
    assert_eq!(with(9, "?"), "invalid nonce: '?'");
    assert_eq!(with(13, "a,b"), "trace entry requires 10 fields");
    let mut both: Vec<String> = fields.iter().map(|field| field.to_string()).collect();
    both[10] = "1".to_string();
    both[13] = "a".to_string();
    assert_eq!(
        decode_message(&both.join("|")),
        Err("trace entry requires 10 fields".to_string())
    );
}

#[test]
fn bad_entry_fields_are_named() {
    let line = encode_block_message(&mined_block());
    let fields: Vec<String> = line.split('|').map(|field| field.to_string()).collect();
    let first = fields[13].split(';').next().expect("an entry").to_string();
    let names = [
        (2, "step.index"),
        (3, "step.seed"),
        (4, "step.batch_id"),
        (5, "step.weight_index"),
        (6, "step.gradient"),
        (7, "step.learning_rate_ppm"),
    ];
    for (at, name) in names {
        let mut entry: Vec<String> = first.split(',').map(|field| field.to_string()).collect();
        entry[at] = "z".to_string();
        let mut changed = fields.clone();
        changed[13] = entry.join(",");
        assert_eq!(
            decode_message(&changed.join("|")),
            Err(format!("invalid {name}: 'z'"))
        );
    }
}

#[test]
fn only_a_block_is_taken_for_a_block() {
    assert_eq!(
        decode_block_message("ENDBLOCKS"),
        Err("expected a BLOCK message".to_string())
    );
}

#[test]
fn envelope_round_trips() {
    let wire = WireConfig::default();
    let message = PeerMessage::Block(Box::new(mined_block()));
    let line = encode_network_message(&wire, &message) + "\n";
    assert!(line.starts_with(WIRE_MAGIC));
    assert_eq!(decode_network_message(&line, &wire), Ok(message));
}

#[test]
fn foreign_envelopes_are_refused() {
    let own = WireConfig::default();
    let message = PeerMessage::GetBlocks {
        from_height: 0,
        limit: 1,
    };
    let refused = |sent: &WireConfig| {
        decode_network_message(&encode_network_message(sent, &message), &own)
            .expect_err("foreign envelope")
    };
    let mut version = own.clone();
    version.protocol_version = PROTOCOL_VERSION + 1;
    assert_eq!(refused(&version), "protocol version does not match");
    let mut network = own.clone();
    network.network_id = "other-network".to_string();
    assert_eq!(refused(&network), "network id does not match");
    let mut chain = own.clone();
    chain.chain_fingerprint = Digest::zero();
    assert_eq!(refused(&chain), "chain fingerprint does not match");
    assert_eq!(
        decode_network_message(&encode_message(&message), &own),
        Err("missing network envelope".to_string())
    );
    assert_eq!(
        decode_network_message(&format!("{WIRE_MAGIC}|x|a|b|ENDBLOCKS"), &own),
        Err("invalid protocol_version: 'x'".to_string())
    );
    assert_eq!(
        decode_network_message(
            &format!("{WIRE_MAGIC}|{PROTOCOL_VERSION}|chesscoin-local|b|ENDBLOCKS"),
            &own
        ),
        Err("digest hex must be 64 characters".to_string())
    );
}

#[test]
fn fingerprint_covers_steps_samples_and_difficulty() {
    let config = ChainConfig {
        steps_per_block: 4,
        samples_per_block: 4,
        difficulty_zero_bits: 0,
    };
    assert_eq!(
        chain_fingerprint(&config).to_hex(),
        "97daf3a6fc7dddb46d6591a8f0694009d9a465b052ea45d93a14db922e7fa16f"
    );
    for changed in [
        ChainConfig {
            steps_per_block: 5,
            ..config
        },
        ChainConfig {
            samples_per_block: 3,
            ..config
        },
        ChainConfig {
            difficulty_zero_bits: 1,
            ..config
        },
    ] {
        assert_ne!(chain_fingerprint(&changed), chain_fingerprint(&config));
    }
    assert_eq!(
        WireConfig::default().chain_fingerprint,
        chain_fingerprint(&ChainConfig::default())
    );
}
