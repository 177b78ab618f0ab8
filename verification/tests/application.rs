use chesscoin::application::{
    block_hash, block_header_hash, BlockValidationError, ChainConfig, ChainState, ForkChoiceError,
    ForkChoiceState, ProtocolSimulator, SimulationRequest,
};
use chesscoin::domain::{
    Block, Digest, ModelState, TrainingStep, VerificationOutcome, VerificationSample,
};
use chesscoin::ports::{HashPort, SamplingPort};

#[derive(Clone, Copy)]
struct TestHash;

impl HashPort for TestHash {
    fn spec_digest(&self, _bytes: vstd::seq::Seq<u8>) -> Digest {
        unreachable!("only contracts name it")
    }

    fn digest(&self, bytes: &[u8]) -> Digest {
        let mut lanes = [0_u64; 4];
        for (index, byte) in bytes.iter().enumerate() {
            let lane = index % lanes.len();
            lanes[lane] = lanes[lane]
                .wrapping_mul(1099511628211)
                .wrapping_add(*byte as u64)
                .wrapping_add(index as u64);
        }

        let mut out = [0_u8; 32];
        for (index, lane) in lanes.into_iter().enumerate() {
            out[index * 8..(index + 1) * 8].copy_from_slice(&lane.to_le_bytes());
        }
        Digest::from_bytes(out)
    }
}

#[derive(Clone, Copy)]
struct TestSampler;

impl SamplingPort for TestSampler {
    fn spec_sample_indices(
        &self,
        _trace_len: usize,
        _sample_count: usize,
        _trace_root: Digest,
        _entropy: u64,
    ) -> vstd::seq::Seq<usize> {
        unreachable!("only contracts name it")
    }

    fn sample_indices(
        &self,
        trace_len: usize,
        sample_count: usize,
        _trace_root: Digest,
        _entropy: u64,
    ) -> Vec<usize> {
        (0..trace_len.min(sample_count)).collect()
    }
}

fn simulator() -> ProtocolSimulator<TestHash, TestSampler> {
    ProtocolSimulator::new(TestHash, TestSampler)
}

fn rebind_trace_commitments(block: &mut Block) {
    let simulator = simulator();
    let mut previous_commitment = Digest::zero();
    for entry in &mut block.trace.entries {
        entry.previous_commitment = previous_commitment;
        entry.commitment = simulator.commit_step(previous_commitment, &entry.step);
        previous_commitment = entry.commitment;
    }
    block.trace.root = previous_commitment;
    block.header.trace_root = previous_commitment;
}

#[test]
fn simulation_is_deterministic_for_same_inputs() {
    let request = SimulationRequest {
        steps: 12,
        samples: 4,
        seed: 7,
        sampling_entropy: 99,
        tamper_step: None,
    };

    let first = simulator().run(request.clone());
    let second = simulator().run(request);

    assert_eq!(first.committed_trace.root, second.committed_trace.root);
    assert_eq!(first.sampled_indices, second.sampled_indices);
    assert_eq!(first.outcome, VerificationOutcome::Accepted);
    assert_eq!(second.outcome, VerificationOutcome::Accepted);
}

#[test]
fn honest_trace_accepts() {
    let report = simulator().run(SimulationRequest::default());

    assert!(report.outcome.is_accepted());
    assert!(report.samples.iter().all(VerificationSample::accepted));
}

#[test]
fn sampled_tamper_rejects() {
    let report = simulator().run(SimulationRequest {
        steps: 8,
        samples: 8,
        seed: 42,
        sampling_entropy: 2_026,
        tamper_step: Some(3),
    });

    assert_eq!(report.tamper_applied, Some(3));
    assert!(matches!(
        report.outcome,
        VerificationOutcome::Rejected {
            ref failed_indices
        } if failed_indices == &vec![3]
    ));
}

#[test]
fn unsampled_tamper_can_escape_in_this_probabilistic_demo() {
    let report = simulator().run(SimulationRequest {
        steps: 8,
        samples: 0,
        seed: 42,
        sampling_entropy: 2_026,
        tamper_step: Some(3),
    });

    assert_eq!(report.tamper_applied, Some(3));
    assert!(report.outcome.is_accepted());
}

#[test]
fn mined_block_applies_to_chain() {
    let hasher = TestHash;
    let sampler = TestSampler;
    let mut chain = ChainState::new(ChainConfig {
        steps_per_block: 4,
        samples_per_block: 4,
        difficulty_zero_bits: 0,
    });

    let block = chain.mine_next_block(&hasher, &sampler, 11, 22);
    let hash = chain
        .apply_block(&hasher, &sampler, block)
        .expect("valid block");

    assert_eq!(chain.height(), 1);
    assert_eq!(chain.head_hash(&hasher), hash);
    assert_ne!(chain.current_model(), ModelState::genesis());
}

#[test]
fn header_hash_matches_block_hash() {
    let hasher = TestHash;
    let sampler = TestSampler;
    let chain = ChainState::new(ChainConfig {
        steps_per_block: 4,
        samples_per_block: 4,
        difficulty_zero_bits: 0,
    });
    let block = chain.mine_next_block(&hasher, &sampler, 11, 22);

    assert_eq!(
        block_hash(&hasher, &block),
        block_header_hash(&hasher, &block.header)
    );
}

#[test]
fn block_with_wrong_previous_hash_rejects() {
    let hasher = TestHash;
    let sampler = TestSampler;
    let chain = ChainState::new(ChainConfig {
        steps_per_block: 4,
        samples_per_block: 4,
        difficulty_zero_bits: 0,
    });
    let mut block = chain.mine_next_block(&hasher, &sampler, 11, 22);
    block.header.previous_block = Digest::from_bytes([9; 32]);

    assert_eq!(
        chain.validate_next_block(&hasher, &sampler, &block),
        Err(BlockValidationError::WrongPreviousBlock)
    );
}

#[test]
fn block_with_wrong_trace_length_rejects() {
    let hasher = TestHash;
    let sampler = TestSampler;
    let chain = ChainState::new(ChainConfig {
        steps_per_block: 4,
        samples_per_block: 4,
        difficulty_zero_bits: 0,
    });
    let mut block = chain.mine_next_block(&hasher, &sampler, 11, 22);
    block.trace.entries.pop();

    assert_eq!(
        chain.validate_next_block(&hasher, &sampler, &block),
        Err(BlockValidationError::WrongTraceLength {
            expected: 4,
            actual: 3
        })
    );
}

#[test]
fn block_with_wrong_sample_count_rejects() {
    let hasher = TestHash;
    let sampler = TestSampler;
    let chain = ChainState::new(ChainConfig {
        steps_per_block: 4,
        samples_per_block: 4,
        difficulty_zero_bits: 0,
    });
    let mut block = chain.mine_next_block(&hasher, &sampler, 11, 22);
    block.header.sample_count = 0;

    assert_eq!(
        chain.validate_next_block(&hasher, &sampler, &block),
        Err(BlockValidationError::WrongSampleCount {
            expected: 4,
            actual: 0
        })
    );
}

#[test]
fn block_with_tampered_commitment_chain_rejects() {
    let hasher = TestHash;
    let sampler = TestSampler;
    let chain = ChainState::new(ChainConfig {
        steps_per_block: 4,
        samples_per_block: 4,
        difficulty_zero_bits: 0,
    });
    let mut block = chain.mine_next_block(&hasher, &sampler, 11, 22);
    let mut weights = *block.trace.entries[1].step.state_after.weights();
    weights[0] += 1;
    block.trace.entries[1].step.state_after = ModelState::new(weights);

    assert_eq!(
        chain.validate_next_block(&hasher, &sampler, &block),
        Err(BlockValidationError::WrongTraceRoot)
    );
}

#[test]
fn block_with_disconnected_trace_state_rejects() {
    let hasher = TestHash;
    let sampler = TestSampler;
    let chain = ChainState::new(ChainConfig {
        steps_per_block: 4,
        samples_per_block: 4,
        difficulty_zero_bits: 0,
    });
    let mut block = chain.mine_next_block(&hasher, &sampler, 11, 22);
    block.trace.entries[2].step.state_before = ModelState::genesis();
    rebind_trace_commitments(&mut block);

    assert_eq!(
        chain.validate_next_block(&hasher, &sampler, &block),
        Err(BlockValidationError::WrongTraceContinuity { index: 2 })
    );
}

#[test]
fn block_with_candidate_model_not_matching_trace_tail_rejects() {
    let hasher = TestHash;
    let sampler = TestSampler;
    let chain = ChainState::new(ChainConfig {
        steps_per_block: 4,
        samples_per_block: 4,
        difficulty_zero_bits: 0,
    });
    let mut block = chain.mine_next_block(&hasher, &sampler, 11, 22);
    let mut weights = *block.header.model_after.weights();
    weights[0] = weights[0].saturating_add(99);
    let forged_model = ModelState::new(weights);
    block.trace.candidate_model = forged_model.clone();
    block.header.model_after = forged_model;

    assert_eq!(
        chain.validate_next_block(&hasher, &sampler, &block),
        Err(BlockValidationError::WrongTraceContinuity { index: 4 })
    );
}

#[test]
fn block_with_insufficient_work_rejects() {
    let hasher = TestHash;
    let sampler = TestSampler;
    let easy_chain = ChainState::new(ChainConfig {
        steps_per_block: 4,
        samples_per_block: 4,
        difficulty_zero_bits: 0,
    });
    let strict_chain = ChainState::new(ChainConfig {
        steps_per_block: 4,
        samples_per_block: 4,
        difficulty_zero_bits: 255,
    });
    let block = easy_chain.mine_next_block(&hasher, &sampler, 11, 22);

    assert!(matches!(
        strict_chain.validate_next_block(&hasher, &sampler, &block),
        Err(BlockValidationError::InsufficientWork { .. })
    ));
}

#[test]
fn self_consistent_opening_not_in_committed_trace_rejects() {
    let hasher = TestHash;
    let sampler = TestSampler;
    let simulator = ProtocolSimulator::new(hasher, sampler);
    let committed_trace = simulator.build_trace(42, 4);
    let mut opened_trace = committed_trace.clone();
    let forged_step =
        TrainingStep::deterministic(99, 1, &committed_trace.entries[1].step.state_before);
    let forged_commitment =
        simulator.commit_step(committed_trace.entries[1].previous_commitment, &forged_step);
    opened_trace.entries[1].step = forged_step;
    opened_trace.entries[1].commitment = forged_commitment;

    let sample =
        simulator.verify_sample(42, 1, &committed_trace.entries[1], &opened_trace.entries[1]);

    assert!(!sample.accepted());
    assert!(!sample.commitment_ok);
}

#[test]
fn fork_choice_rejects_unknown_parent() {
    let hasher = TestHash;
    let sampler = TestSampler;
    let chain = ChainState::new(ChainConfig {
        steps_per_block: 4,
        samples_per_block: 4,
        difficulty_zero_bits: 0,
    });
    let mut block = chain.mine_next_block(&hasher, &sampler, 11, 22);
    block.header.previous_block = Digest::from_bytes([8; 32]);
    let mut fork_choice = ForkChoiceState::new(chain.config().clone());

    assert_eq!(
        fork_choice.insert_block(&hasher, &sampler, block),
        Err(ForkChoiceError::UnknownParent {
            previous_block: Digest::from_bytes([8; 32])
        })
    );
}

#[test]
fn fork_choice_accepts_competing_branches_and_selects_extended_tip() {
    let hasher = TestHash;
    let sampler = TestSampler;
    let config = ChainConfig {
        steps_per_block: 4,
        samples_per_block: 4,
        difficulty_zero_bits: 0,
    };
    let mut base_chain = ChainState::new(config.clone());
    let block0 = base_chain.mine_next_block(&hasher, &sampler, 1, 2);
    base_chain
        .apply_block(&hasher, &sampler, block0.clone())
        .expect("block0 applies");

    let branch_a1 = base_chain.mine_next_block(&hasher, &sampler, 3, 4);
    let branch_b1 = base_chain.mine_next_block(&hasher, &sampler, 5, 6);
    let mut branch_a_chain = base_chain.clone();
    branch_a_chain
        .apply_block(&hasher, &sampler, branch_a1.clone())
        .expect("branch a1 applies");
    let branch_a2 = branch_a_chain.mine_next_block(&hasher, &sampler, 7, 8);
    let branch_a2_hash = block_hash(&hasher, &branch_a2);

    let mut fork_choice = ForkChoiceState::new(config);
    fork_choice
        .insert_block(&hasher, &sampler, block0)
        .expect("block0 inserts");
    fork_choice
        .insert_block(&hasher, &sampler, branch_b1)
        .expect("branch b inserts");
    fork_choice
        .insert_block(&hasher, &sampler, branch_a1)
        .expect("branch a1 inserts");
    fork_choice
        .insert_block(&hasher, &sampler, branch_a2)
        .expect("branch a2 inserts");

    assert_eq!(fork_choice.best_height(), 3);
    assert_eq!(fork_choice.best_hash(), branch_a2_hash);
    assert_eq!(fork_choice.best_chain().len(), 3);
}
