use chesscoin::adapters::{DeterministicSampler, ToyHash};
use chesscoin::application::{
    block_hash, validate_block_after, BlockValidationError, ChainConfig, ChainState,
    ForkChoiceError, ForkChoiceState, ParentContext, ProtocolSimulator, SimulationRequest,
};
use chesscoin::domain::{Block, Digest, ModelState, VerificationOutcome};

fn config() -> ChainConfig {
    ChainConfig {
        steps_per_block: 4,
        samples_per_block: 4,
        difficulty_zero_bits: 0,
    }
}

fn mined(chain: &ChainState, seed: u64, entropy: u64) -> Block {
    chain.mine_next_block(&ToyHash, &DeterministicSampler, seed, entropy)
}

fn grown(seeds: &[u64]) -> ChainState {
    let mut chain = ChainState::new(config());
    for seed in seeds {
        let block = mined(&chain, *seed, seed + 1);
        chain
            .apply_block(&ToyHash, &DeterministicSampler, block)
            .expect("block applies");
    }
    chain
}

#[test]
fn default_simulation_has_known_results() {
    let report = ProtocolSimulator::new(ToyHash, DeterministicSampler)
        .run(SimulationRequest::default());
    assert_eq!(
        report.committed_trace.root.to_hex(),
        "af91a0b5475d65edce62d518b2f056c35bbcdd5b2082622dfe0563f262ce8942"
    );
    assert_eq!(
        report.committed_trace.candidate_model,
        ModelState::new([120, -82, 44, 213, -135, 67, 19, -30])
    );
    assert_eq!(report.sampled_indices, vec![2, 3, 5, 7, 9, 10]);
    assert_eq!(report.outcome, VerificationOutcome::Accepted);
    assert_eq!(report.tamper_applied, None);
    assert_eq!(report.clone(), report);
}

#[test]
fn tamper_beyond_the_trace_is_not_applied() {
    let report = ProtocolSimulator::new(ToyHash, DeterministicSampler).run(SimulationRequest {
        steps: 4,
        samples: 4,
        tamper_step: Some(4),
        ..SimulationRequest::default()
    });
    assert_eq!(report.tamper_applied, None);
    assert_eq!(report.opened_trace, report.committed_trace);
    assert!(report.outcome.is_accepted());
}

#[test]
fn tamper_changes_one_weight_of_one_step() {
    let report = ProtocolSimulator::new(ToyHash, DeterministicSampler).run(SimulationRequest {
        steps: 8,
        samples: 8,
        tamper_step: Some(3),
        ..SimulationRequest::default()
    });
    let committed = &report.committed_trace.entries[3];
    let opened = &report.opened_trace.entries[3];
    assert_eq!(
        opened.step.state_after.weights()[0],
        committed.step.state_after.weights()[0] + 1
    );
    assert_eq!(opened.commitment, committed.commitment);
    assert!(!report.samples[3].commitment_ok);
    assert!(!report.samples[3].transition_ok);
    assert_eq!(
        report.outcome,
        VerificationOutcome::Rejected {
            failed_indices: vec![3]
        }
    );
}

#[test]
fn default_block_has_a_known_nonce() {
    let chain = ChainState::new(ChainConfig::default());
    let block = mined(&chain, 42, 2_026);
    assert_eq!(block.header.nonce, 568);
    assert_eq!(
        block_hash(&ToyHash, &block).to_hex(),
        "00e764ff61469bcb61d9a8964e7f19c9ab1f90521630ac5198c1dc77b0cc9cb2"
    );
}

#[test]
fn every_rule_has_its_error() {
    let chain = grown(&[1]);
    let good = mined(&chain, 3, 4);
    let verdict = |block: &Block| chain.validate_next_block(&ToyHash, &DeterministicSampler, block);
    assert_eq!(verdict(&good), Ok(()));

    let mut block = good.clone();
    block.header.height = 5;
    assert_eq!(
        verdict(&block),
        Err(BlockValidationError::WrongHeight {
            expected: 1,
            actual: 5
        })
    );
    let mut block = good.clone();
    block.header.previous_block = Digest::zero();
    assert_eq!(verdict(&block), Err(BlockValidationError::WrongPreviousBlock));
    let mut block = good.clone();
    block.header.model_before = ModelState::new([0; 8]);
    assert_eq!(verdict(&block), Err(BlockValidationError::WrongModelBefore));
    let mut block = good.clone();
    block.trace.initial_model = ModelState::new([0; 8]);
    assert_eq!(verdict(&block), Err(BlockValidationError::WrongModelBefore));
    let mut block = good.clone();
    block.header.model_after = ModelState::new([0; 8]);
    assert_eq!(verdict(&block), Err(BlockValidationError::WrongModelAfter));
    let mut block = good.clone();
    block.header.trace_root = Digest::zero();
    assert_eq!(verdict(&block), Err(BlockValidationError::WrongTraceRoot));
    let mut block = good.clone();
    block.header.training_seed += 1;
    assert_eq!(
        verdict(&block),
        Err(BlockValidationError::InvalidSample { index: 0 })
    );
}

#[test]
fn first_block_follows_the_genesis_context() {
    let block = mined(&ChainState::new(config()), 1, 2);
    assert_eq!(
        validate_block_after(
            &config(),
            &ToyHash,
            &DeterministicSampler,
            &ParentContext::genesis(),
            &block
        ),
        Ok(())
    );
    assert_eq!(ParentContext::genesis().next_height(), 0);
}

#[test]
fn refused_block_leaves_the_chain_alone() {
    let mut chain = grown(&[1]);
    let head = chain.head_hash(&ToyHash);
    let block = chain.blocks()[0].clone();
    assert!(chain
        .apply_block(&ToyHash, &DeterministicSampler, block)
        .is_err());
    assert_eq!(chain.height(), 1);
    assert_eq!(chain.head_hash(&ToyHash), head);
}

#[test]
fn empty_fork_choice_stands_at_genesis() {
    let forks = ForkChoiceState::new(config());
    assert_eq!(forks.best_height(), 0);
    assert_eq!(forks.best_hash(), Digest::zero());
    assert_eq!(forks.best_model(), ModelState::genesis());
    assert_eq!(forks.known_block_count(), 0);
    assert!(forks.best_chain().is_empty());
    assert!(!forks.has_best());
    assert!(!forks.contains_block(Digest::zero()));
    assert_eq!(*forks.config(), config());
}

#[test]
fn inserting_twice_changes_nothing() {
    let block = mined(&ChainState::new(config()), 1, 2);
    let hash = block_hash(&ToyHash, &block);
    let mut forks = ForkChoiceState::new(config());
    assert_eq!(
        forks.insert_block(&ToyHash, &DeterministicSampler, block.clone()),
        Ok(hash)
    );
    assert_eq!(
        forks.insert_block(&ToyHash, &DeterministicSampler, block),
        Ok(hash)
    );
    assert_eq!(forks.known_block_count(), 1);
    assert!(forks.contains_block(hash));
}

#[test]
fn invalid_block_is_refused_by_fork_choice() {
    let mut block = mined(&ChainState::new(config()), 1, 2);
    block.header.sample_count = 0;
    let mut forks = ForkChoiceState::new(config());
    assert_eq!(
        forks.insert_block(&ToyHash, &DeterministicSampler, block),
        Err(ForkChoiceError::InvalidBlock(
            BlockValidationError::WrongSampleCount {
                expected: 4,
                actual: 0
            }
        ))
    );
    assert_eq!(forks.known_block_count(), 0);
}

#[test]
fn arrival_order_does_not_change_the_best_tip() {
    let base = grown(&[1]);
    let left = mined(&base, 3, 4);
    let right = mined(&base, 5, 6);
    let mut winners = Vec::new();
    for blocks in [[&left, &right], [&right, &left]] {
        let mut forks = ForkChoiceState::new(config());
        forks
            .insert_block(&ToyHash, &DeterministicSampler, base.blocks()[0].clone())
            .expect("first block inserts");
        for block in blocks {
            forks
                .insert_block(&ToyHash, &DeterministicSampler, block.clone())
                .expect("branch inserts");
        }
        assert_eq!(forks.known_block_count(), 3);
        winners.push(forks.best_hash());
    }
    assert_eq!(winners[0], winners[1]);
    let left_hash = block_hash(&ToyHash, &left);
    let right_hash = block_hash(&ToyHash, &right);
    let greater = if left_hash.as_bytes() > right_hash.as_bytes() {
        left_hash
    } else {
        right_hash
    };
    assert_eq!(winners[0], greater);
}

#[test]
fn best_chain_applies_block_by_block() {
    let chain = grown(&[1, 2, 3]);
    let mut forks = ForkChoiceState::new(config());
    for block in chain.blocks() {
        forks
            .insert_block(&ToyHash, &DeterministicSampler, block.clone())
            .expect("block inserts");
    }
    assert_eq!(forks.best_chain(), chain.blocks().to_vec());
    assert_eq!(forks.clone().best_chain(), chain.blocks().to_vec());
    assert_eq!(forks.best_model(), chain.current_model());
    assert_eq!(forks.best_hash(), chain.head_hash(&ToyHash));
    let next = forks.mine_next_block(&ToyHash, &DeterministicSampler, 9, 9);
    let hash = forks
        .insert_block(&ToyHash, &DeterministicSampler, next)
        .expect("mined block inserts");
    assert_eq!(forks.best_hash(), hash);
    assert_eq!(forks.best_height(), 4);
}

#[test]
fn any_parent_has_room_for_a_block() {
    let mut hard = config();
    hard.difficulty_zero_bits = 300;
    let forks = ForkChoiceState::new(hard);
    assert!(forks.has_room_on(Digest::zero()));
    assert!(forks.has_room_on(Digest::from_bytes([1; 32])));
}

#[test]
fn whole_sets_of_blocks_may_come_in_any_order() {
    let base = grown(&[1]);
    let left = mined(&base, 3, 4);
    let right = mined(&base, 5, 6);
    let mut longer = base.clone();
    longer
        .apply_block(&ToyHash, &DeterministicSampler, left.clone())
        .expect("block applies");
    let top = mined(&longer, 7, 8);
    let rival = mined(&longer, 9, 10);
    let blocks = [base.blocks()[0].clone(), left, right, top.clone(), rival.clone()];
    let highest = std::cmp::max(
        *block_hash(&ToyHash, &top).as_bytes(),
        *block_hash(&ToyHash, &rival).as_bytes(),
    );
    for order in [
        &[0, 1, 2, 3, 4][..],
        &[0, 2, 1, 4, 3],
        &[0, 1, 3, 4, 2],
        &[0, 1, 4, 2, 3, 0, 4],
    ] {
        let mut forks = ForkChoiceState::new(config());
        for at in order {
            forks
                .insert_block(&ToyHash, &DeterministicSampler, blocks[*at].clone())
                .expect("block inserts");
        }
        assert_eq!(forks.known_block_count(), 5);
        assert_eq!(forks.best_height(), 3);
        assert_eq!(forks.best_hash().as_bytes(), &highest);
    }
}
