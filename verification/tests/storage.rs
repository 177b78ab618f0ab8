use chesscoin::adapters::{DeterministicSampler, ToyHash};
use chesscoin::application::{BlockValidationError, ChainConfig, ChainState, ForkChoiceError};
use chesscoin::domain::Block;
use chesscoin::storage::{decode_record, encode_record, load_chain, repaired, LogTail, StorageError};
use chesscoin::wire::encode_block_message;

fn config() -> ChainConfig {
    ChainConfig {
        steps_per_block: 4,
        samples_per_block: 4,
        difficulty_zero_bits: 0,
    }
}

fn blocks(count: u64) -> Vec<Block> {
    let mut chain = ChainState::new(config());
    for seed in 0..count {
        let block = chain.mine_next_block(&ToyHash, &DeterministicSampler, seed, seed + 7);
        chain
            .apply_block(&ToyHash, &DeterministicSampler, block)
            .expect("block applies");
    }
    chain.blocks().to_vec()
}

fn log_of(blocks: &[Block]) -> String {
    let mut log = String::new();
    for block in blocks {
        log.push_str(&encode_record(block));
        log.push('\n');
    }
    log
}

#[test]
fn record_round_trips() {
    let block = blocks(1).remove(0);
    let line = encode_record(&block);
    assert!(line.starts_with("RECORD|1|"));
    assert_eq!(decode_record(&line), Ok(block.clone()));
    assert_eq!(decode_record(&encode_block_message(&block)), Ok(block));
}

#[test]
fn log_round_trips() {
    let stored = blocks(3);
    let (forks, tail) = load_chain(config(), &log_of(&stored)).expect("log loads");
    assert_eq!(forks.best_chain(), stored);
    assert_eq!(tail, LogTail::Clean);
}

#[test]
fn empty_log_loads() {
    let (forks, tail) = load_chain(config(), "").expect("log loads");
    assert_eq!(forks.known_block_count(), 0);
    assert_eq!(tail, LogTail::Clean);
}

#[test]
fn plain_records_and_blank_lines_load() {
    let stored = blocks(2);
    let log = format!(
        "\r\n{}\r\n \t\u{3000}\n{}\n",
        encode_block_message(&stored[0]),
        encode_record(&stored[1])
    );
    let (forks, tail) = load_chain(config(), &log).expect("log loads");
    assert_eq!(forks.best_height(), 2);
    assert_eq!(tail, LogTail::Clean);
}

#[test]
fn interrupted_append_is_ignored() {
    let stored = blocks(2);
    let whole = log_of(&stored);
    let first = log_of(&stored[..1]).len();
    for cut in [first + 1, first + 20, whole.len() - 2] {
        let (forks, tail) = load_chain(config(), &whole[..cut]).expect("log loads");
        assert_eq!(forks.best_height(), 1);
        assert_eq!(tail, LogTail::Dropped);
    }
}

#[test]
fn whole_record_without_line_end_is_used() {
    let whole = log_of(&blocks(2));
    let (forks, tail) = load_chain(config(), &whole[..whole.len() - 1]).expect("log loads");
    assert_eq!(forks.best_height(), 2);
    assert_eq!(tail, LogTail::Unterminated);
}

#[test]
fn completed_corrupt_record_is_fatal() {
    let whole = log_of(&blocks(2));
    let corrupt = whole.replacen("BLOCK|0|", "BLOCK|9|", 1);
    assert_eq!(
        load_chain(config(), &corrupt).err(),
        Some(StorageError::Invalid {
            line: 1,
            message: "record checksum does not match".to_string()
        })
    );
}

#[test]
fn record_faults_are_named() {
    let line = encode_record(&blocks(1)[0]);
    let refused = |line: &str| decode_record(line).expect_err("bad record");
    assert_eq!(
        refused("RECORD|1|00"),
        "record requires a version, a checksum and a block"
    );
    assert_eq!(
        refused(&line.replacen("RECORD|1|", "RECORD|2|", 1)),
        "unknown record version '2'"
    );
    assert_eq!(
        refused(&line.replacen("RECORD|1|", "RECORD|1|0", 1)),
        "digest hex must be 64 characters"
    );
    assert_eq!(refused("ENDBLOCKS"), "expected a BLOCK message");
    assert_eq!(refused("?"), "unknown message type '?'");
}

#[test]
fn refused_stored_block_is_fatal() {
    let stored = blocks(2);
    let previous_block = stored[1].header.previous_block;
    assert_eq!(
        load_chain(config(), &log_of(&stored[1..])).err(),
        Some(StorageError::Refused {
            line: 1,
            error: ForkChoiceError::UnknownParent { previous_block }
        })
    );
    let mut strict = config();
    strict.samples_per_block = 3;
    assert_eq!(
        load_chain(strict, &log_of(&stored)).err(),
        Some(StorageError::Refused {
            line: 1,
            error: ForkChoiceError::InvalidBlock(BlockValidationError::WrongSampleCount {
                expected: 3,
                actual: 4
            })
        })
    );
}

#[test]
fn repaired_log_takes_further_records() {
    let stored = blocks(3);
    let two = log_of(&stored[..2]);
    let one = log_of(&stored[..1]);
    let cases = [
        (two.clone(), two.clone()),
        (two.clone() + "  ", two.clone()),
        (two[..two.len() - 1].to_string(), two.clone()),
        (two[..two.len() - 2].to_string(), one),
        (String::new(), String::new()),
        ("RECORD".to_string(), String::new()),
    ];
    for (log, whole) in cases {
        let (forks, tail) = load_chain(config(), &log).expect("log loads");
        assert_eq!(repaired(&log, tail), whole);
        let height = forks.best_height();
        let next = encode_record(&stored[height as usize]);
        let (longer, end) =
            load_chain(config(), &format!("{whole}{next}\n")).expect("longer log loads");
        assert_eq!(longer.best_height(), height + 1);
        assert_eq!(end, LogTail::Clean);
    }
}

#[test]
fn no_shorter_chain_is_loaded_in_place_of_a_bad_one() {
    let stored = blocks(3);
    let skipped = [stored[0].clone(), stored[2].clone(), stored[1].clone()];
    let previous_block = stored[2].header.previous_block;
    for tail in ["", "RECORD|1|"] {
        assert_eq!(
            load_chain(config(), &(log_of(&skipped) + tail)).err(),
            Some(StorageError::Refused {
                line: 2,
                error: ForkChoiceError::UnknownParent { previous_block }
            })
        );
    }
}
