use chesscoin::bits::{mix64, read_le, rotate_left, saturating_add, saturating_sub};
use chesscoin::decimal::{i64_text, parse_i64, parse_unsigned, u64_text};
use chesscoin::domain::{
    BlockHeader, Digest, ModelState, TrainingStep, VerificationOutcome, VerificationSample,
};
use chesscoin::text::{chars_of, join_strings, split_chars, starts_with, string_of};

#[test]
fn zero_digest_has_all_bits_zero() {
    assert_eq!(Digest::zero().as_bytes(), &[0; 32]);
    assert_eq!(Digest::zero().leading_zero_bits(), 256);
}

#[test]
fn leading_zero_bits_stop_at_the_first_one() {
    let mut bytes = [0xff; 32];
    assert_eq!(Digest::from_bytes(bytes).leading_zero_bits(), 0);
    bytes[0] = 0;
    bytes[1] = 0x10;
    assert_eq!(Digest::from_bytes(bytes).leading_zero_bits(), 11);
    bytes = [0; 32];
    bytes[31] = 1;
    assert_eq!(Digest::from_bytes(bytes).leading_zero_bits(), 255);
}

#[test]
fn digest_hex_round_trips() {
    let mut bytes = [0; 32];
    for (index, byte) in bytes.iter_mut().enumerate() {
        *byte = (index * 8 + 1) as u8;
    }
    let digest = Digest::from_bytes(bytes);
    assert_eq!(
        digest.to_hex(),
        "0109111921293139414951596169717981899199a1a9b1b9c1c9d1d9e1e9f1f9"
    );
    assert_eq!(Digest::from_hex(&digest.to_hex()), Ok(digest));
    assert_eq!(Digest::from_hex(&digest.to_hex().to_uppercase()), Ok(digest));
}

#[test]
fn digest_hex_of_wrong_length_is_refused() {
    assert_eq!(
        Digest::from_hex("00"),
        Err("digest hex must be 64 characters".to_string())
    );
}

#[test]
fn digest_hex_length_counts_bytes() {
    let text = "é".repeat(32);
    assert_eq!(Digest::from_hex(&text), Err("invalid hex digit".to_string()));
}

#[test]
fn digest_hex_with_other_characters_is_refused() {
    let text = "g".repeat(64);
    assert_eq!(Digest::from_hex(&text), Err("invalid hex digit".to_string()));
}

#[test]
fn genesis_model_has_its_weights() {
    assert_eq!(
        ModelState::genesis().weights(),
        &[120, -80, 45, 210, -135, 65, 15, -30]
    );
    assert_eq!(
        ModelState::genesis().to_text(),
        "[120, -80, 45, 210, -135, 65, 15, -30]"
    );
}

#[test]
fn model_bytes_are_little_endian_words() {
    let mut out = vec![9];
    ModelState::new([1, -1, 256, 0, 0, 0, 0, i64::MIN]).encode(&mut out);
    assert_eq!(out.len(), 65);
    assert_eq!(&out[..9], &[9, 1, 0, 0, 0, 0, 0, 0, 0]);
    assert_eq!(&out[9..17], &[0xff; 8]);
    assert_eq!(&out[17..25], &[0, 1, 0, 0, 0, 0, 0, 0]);
    assert_eq!(&out[57..65], &[0, 0, 0, 0, 0, 0, 0, 0x80]);
}

#[test]
fn first_step_of_seed_forty_two() {
    let step = TrainingStep::deterministic(42, 0, &ModelState::genesis());
    assert_eq!(step.index, 0);
    assert_eq!(step.seed, 42);
    assert_eq!(step.batch_id, 9365548353056479020);
    assert_eq!(step.weight_index, 2);
    assert_eq!(step.gradient, 14);
    assert_eq!(step.learning_rate_ppm, 125_000);
    assert_eq!(step.state_before, ModelState::genesis());
    assert_eq!(
        step.state_after,
        ModelState::new([120, -80, 44, 210, -135, 65, 15, -30])
    );
}

#[test]
fn step_rounds_toward_zero() {
    let small = TrainingStep::deterministic(3, 0, &ModelState::genesis());
    assert_eq!(small.gradient, -7);
    assert_eq!(small.state_after, ModelState::genesis());
    let large = TrainingStep::deterministic(10, 0, &ModelState::genesis());
    assert_eq!(large.gradient, -9);
    assert_eq!(
        large.state_after,
        ModelState::new([120, -79, 45, 210, -135, 65, 15, -30])
    );
}

#[test]
fn step_saturates_at_the_smallest_weight() {
    let mut weights = *ModelState::genesis().weights();
    weights[2] = i64::MIN;
    for seed in 0..4096 {
        let step = TrainingStep::deterministic(seed, 0, &ModelState::new(weights));
        if step.weight_index == 2 && step.gradient >= 8 {
            assert_eq!(step.state_after.weights()[2], i64::MIN);
            return;
        }
    }
    panic!("no seed lowers the weight");
}

#[test]
fn different_steps_have_different_bytes() {
    let first = TrainingStep::deterministic(42, 0, &ModelState::genesis());
    let mut second = first;
    second.gradient = -first.gradient;
    assert_ne!(first.encode(), second.encode());
    assert_eq!(first.encode().len(), 23 + 6 * 8 + 128);
    assert_eq!(&first.encode()[..23], b"chesscoin.trace-step.v1");
}

#[test]
fn different_headers_have_different_bytes() {
    let header = BlockHeader {
        height: 3,
        previous_block: Digest::from_bytes([1; 32]),
        model_before: ModelState::genesis(),
        model_after: ModelState::genesis(),
        trace_root: Digest::from_bytes([2; 32]),
        training_seed: 4,
        sampling_entropy: 5,
        sample_count: 6,
        nonce: 7,
    };
    let mut other = header;
    other.nonce = 8;
    assert_ne!(header.encode(), other.encode());
    assert_eq!(header.encode().len(), 25 + 5 * 8 + 2 * 32 + 2 * 64);
    assert_eq!(&header.encode()[25..33], &[3, 0, 0, 0, 0, 0, 0, 0]);
}

#[test]
fn sample_is_accepted_where_both_checks_hold() {
    for commitment_ok in [false, true] {
        for transition_ok in [false, true] {
            let sample = VerificationSample {
                index: 0,
                commitment_ok,
                transition_ok,
            };
            assert_eq!(sample.accepted(), commitment_ok && transition_ok);
        }
    }
}

#[test]
fn rejected_outcome_is_not_accepted() {
    let outcome = VerificationOutcome::Rejected {
        failed_indices: vec![1],
    };
    assert!(!outcome.is_accepted());
    assert_eq!(outcome.clone(), outcome);
    assert!(VerificationOutcome::Accepted.clone().is_accepted());
}

#[test]
fn words_turn_and_mix() {
    assert_eq!(rotate_left(0x8000_0000_0000_0001, 1), 3);
    assert_eq!(rotate_left(5, 0), 5);
    assert_eq!(mix64(0), 0);
    assert_eq!(read_le(&[0, 1, 2, 0, 0, 0, 0, 0, 0x80], 1), 0x8000_0000_0000_0201);
}

#[test]
fn signed_words_saturate() {
    assert_eq!(saturating_add(i64::MAX, 1), i64::MAX);
    assert_eq!(saturating_add(-2, 1), -1);
    assert_eq!(saturating_sub(i64::MIN, 1), i64::MIN);
    assert_eq!(saturating_sub(i64::MAX, -1), i64::MAX);
    assert_eq!(saturating_sub(3, 5), -2);
}

#[test]
fn numbers_are_written_in_decimal() {
    assert_eq!(u64_text(0), "0");
    assert_eq!(u64_text(u64::MAX), "18446744073709551615");
    assert_eq!(i64_text(i64::MIN), "-9223372036854775808");
    assert_eq!(i64_text(-7), "-7");
}

#[test]
fn numbers_are_read_from_decimal() {
    assert_eq!(parse_unsigned(&chars_of("+007"), 10), Some(7));
    assert_eq!(parse_unsigned(&chars_of("11"), 10), None);
    assert_eq!(parse_unsigned(&chars_of(""), 10), None);
    assert_eq!(parse_unsigned(&chars_of("+"), 10), None);
    assert_eq!(parse_unsigned(&chars_of("1a"), 10), None);
    assert_eq!(
        parse_unsigned(&chars_of("18446744073709551615"), u64::MAX),
        Some(u64::MAX)
    );
    assert_eq!(parse_unsigned(&chars_of("18446744073709551616"), u64::MAX), None);
    assert_eq!(parse_i64(&chars_of("-9223372036854775808")), Some(i64::MIN));
    assert_eq!(parse_i64(&chars_of("9223372036854775808")), None);
    assert_eq!(parse_i64(&chars_of("-")), None);
    assert_eq!(parse_i64(&chars_of("--1")), None);
}

#[test]
fn text_is_built_character_by_character() {
    let chars = chars_of("a|é|");
    assert_eq!(chars, vec!['a', '|', 'é', '|']);
    assert_eq!(string_of(&chars), "a|é|");
    assert_eq!(
        split_chars(&chars, '|'),
        vec![vec!['a'], vec!['é'], Vec::new()]
    );
    assert_eq!(join_strings(&["x".to_string(), "".to_string()], ", "), "x, ");
    assert!(starts_with(&chars, "a|"));
    assert!(!starts_with(&chars, "b"));
}
