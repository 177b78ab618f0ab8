//! Encodings are unambiguous: what is hashed tells what was meant.

use vstd::prelude::*;

use crate::bits;
use crate::domain::block;
use crate::domain::digest;
use crate::domain::model;
use crate::domain::training;
use crate::domain::{BlockHeader, ModelState, TrainingStep, MODEL_WIDTH};

verus! {

/// Equal sequences whose second parts have the same length have equal parts.
proof fn lemma_parts_equal(left: Seq<u8>, left_tail: Seq<u8>, right: Seq<u8>, right_tail: Seq<u8>)
    requires
        left + left_tail == right + right_tail,
        left_tail.len() == right_tail.len(),
    ensures
        left == right,
        left_tail == right_tail,
{
    let whole: Seq<u8> = left + left_tail;
    let cut: int = left.len() as int;
    assert(whole.len() == left.len() + left_tail.len());
    assert((right + right_tail).len() == right.len() + right_tail.len());
    assert(left =~= whole.take(cut));
    assert(right =~= (right + right_tail).take(cut));
    assert(left_tail =~= whole.skip(cut));
    assert(right_tail =~= (right + right_tail).skip(cut));
}

/// Different words have different bytes.
pub proof fn lemma_word_bytes_are_injective(left: u64, right: u64)
    requires
        bits::le_bytes(left) == bits::le_bytes(right),
    ensures
        left == right,
{
    bits::lemma_read_after_write(left);
    bits::lemma_read_after_write(right);
}

/// Different signed words have different two's complements.
proof fn lemma_signed_words(left: i64, right: i64)
    requires
        left as u64 == right as u64,
    ensures
        left == right,
{
    assert(left == right) by (bit_vector)
        requires
            left as u64 == right as u64,
    ;
}

/// Different models have different bytes.
pub proof fn lemma_model_bytes_are_injective(left: ModelState, right: ModelState)
    requires
        left.spec_encode() == right.spec_encode(),
    ensures
        left == right,
{
    broadcast use model::lemma_model_len;

    assert forall|i: int| 0 <= i < MODEL_WIDTH implies left@[i] == right@[i] by {
        let a: Seq<u8> = bits::le_bytes(left@[i] as u64);
        let b: Seq<u8> = bits::le_bytes(right@[i] as u64);
        assert forall|k: int| 0 <= k < 8 implies #[trigger] a[k] == b[k] by {
            let at: int = 8 * i + k;
            assert(at / 8 == i && at % 8 == k && 0 <= at < 64);
            assert(left.spec_encode()[at] == a[k]);
            assert(right.spec_encode()[at] == b[k]);
        }
        assert(a =~= b);
        lemma_word_bytes_are_injective(left@[i] as u64, right@[i] as u64);
        lemma_signed_words(left@[i], right@[i]);
    }
    assert(left@ =~= right@);
    model::lemma_model_ext(left, right);
}

/// Different steps have different bytes, so a commitment covers every field of its step.
pub proof fn lemma_step_bytes_are_injective(left: TrainingStep, right: TrainingStep)
    requires
        training::step_bytes(left) == training::step_bytes(right),
    ensures
        left == right,
{
    broadcast use model::lemma_model_len;

    let tag: Seq<u8> = vstd::utf8::encode_utf8("chesscoin.trace-step.v1"@);
    let a1: Seq<u8> = tag + bits::le_bytes(left.index);
    let b1: Seq<u8> = tag + bits::le_bytes(right.index);
    let a2: Seq<u8> = a1 + bits::le_bytes(left.seed);
    let b2: Seq<u8> = b1 + bits::le_bytes(right.seed);
    let a3: Seq<u8> = a2 + bits::le_bytes(left.batch_id);
    let b3: Seq<u8> = b2 + bits::le_bytes(right.batch_id);
    let a4: Seq<u8> = a3 + bits::le_bytes(left.weight_index as u64);
    let b4: Seq<u8> = b3 + bits::le_bytes(right.weight_index as u64);
    let a5: Seq<u8> = a4 + bits::le_bytes(left.gradient as u64);
    let b5: Seq<u8> = b4 + bits::le_bytes(right.gradient as u64);
    let a6: Seq<u8> = a5 + bits::le_bytes(left.learning_rate_ppm as u64);
    let b6: Seq<u8> = b5 + bits::le_bytes(right.learning_rate_ppm as u64);
    let a7: Seq<u8> = a6 + left.state_before.spec_encode();
    let b7: Seq<u8> = b6 + right.state_before.spec_encode();
    lemma_parts_equal(a7, left.state_after.spec_encode(), b7, right.state_after.spec_encode());
    lemma_parts_equal(a6, left.state_before.spec_encode(), b6, right.state_before.spec_encode());
    lemma_parts_equal(
        a5,
        bits::le_bytes(left.learning_rate_ppm as u64),
        b5,
        bits::le_bytes(right.learning_rate_ppm as u64),
    );
    lemma_parts_equal(
        a4,
        bits::le_bytes(left.gradient as u64),
        b4,
        bits::le_bytes(right.gradient as u64),
    );
    lemma_parts_equal(
        a3,
        bits::le_bytes(left.weight_index as u64),
        b3,
        bits::le_bytes(right.weight_index as u64),
    );
    lemma_parts_equal(a2, bits::le_bytes(left.batch_id), b2, bits::le_bytes(right.batch_id));
    lemma_parts_equal(a1, bits::le_bytes(left.seed), b1, bits::le_bytes(right.seed));
    lemma_parts_equal(tag, bits::le_bytes(left.index), tag, bits::le_bytes(right.index));
    lemma_word_bytes_are_injective(left.index, right.index);
    lemma_word_bytes_are_injective(left.seed, right.seed);
    lemma_word_bytes_are_injective(left.batch_id, right.batch_id);
    lemma_word_bytes_are_injective(left.weight_index as u64, right.weight_index as u64);
    lemma_word_bytes_are_injective(left.gradient as u64, right.gradient as u64);
    lemma_word_bytes_are_injective(left.learning_rate_ppm as u64, right.learning_rate_ppm as u64);
    lemma_signed_words(left.gradient, right.gradient);
    lemma_signed_words(left.learning_rate_ppm, right.learning_rate_ppm);
    lemma_model_bytes_are_injective(left.state_before, right.state_before);
    lemma_model_bytes_are_injective(left.state_after, right.state_after);
}

/// Different headers have different bytes, so a block's hash covers every field of its header.
pub proof fn lemma_header_bytes_are_injective(left: BlockHeader, right: BlockHeader)
    requires
        block::header_bytes(left) == block::header_bytes(right),
    ensures
        left == right,
{
    broadcast use {digest::lemma_digest_len, model::lemma_model_len};

    let tag: Seq<u8> = vstd::utf8::encode_utf8("chesscoin.block-header.v1"@);
    let a1: Seq<u8> = tag + bits::le_bytes(left.height);
    let b1: Seq<u8> = tag + bits::le_bytes(right.height);
    let a2: Seq<u8> = a1 + left.previous_block@;
    let b2: Seq<u8> = b1 + right.previous_block@;
    let a3: Seq<u8> = a2 + left.model_before.spec_encode();
    let b3: Seq<u8> = b2 + right.model_before.spec_encode();
    let a4: Seq<u8> = a3 + left.model_after.spec_encode();
    let b4: Seq<u8> = b3 + right.model_after.spec_encode();
    let a5: Seq<u8> = a4 + left.trace_root@;
    let b5: Seq<u8> = b4 + right.trace_root@;
    let a6: Seq<u8> = a5 + bits::le_bytes(left.training_seed);
    let b6: Seq<u8> = b5 + bits::le_bytes(right.training_seed);
    let a7: Seq<u8> = a6 + bits::le_bytes(left.sampling_entropy);
    let b7: Seq<u8> = b6 + bits::le_bytes(right.sampling_entropy);
    let a8: Seq<u8> = a7 + bits::le_bytes(left.sample_count as u64);
    let b8: Seq<u8> = b7 + bits::le_bytes(right.sample_count as u64);
    lemma_parts_equal(a8, bits::le_bytes(left.nonce), b8, bits::le_bytes(right.nonce));
    lemma_parts_equal(
        a7,
        bits::le_bytes(left.sample_count as u64),
        b7,
        bits::le_bytes(right.sample_count as u64),
    );
    lemma_parts_equal(
        a6,
        bits::le_bytes(left.sampling_entropy),
        b6,
        bits::le_bytes(right.sampling_entropy),
    );
    lemma_parts_equal(
        a5,
        bits::le_bytes(left.training_seed),
        b5,
        bits::le_bytes(right.training_seed),
    );
    lemma_parts_equal(a4, left.trace_root@, b4, right.trace_root@);
    lemma_parts_equal(a3, left.model_after.spec_encode(), b3, right.model_after.spec_encode());
    lemma_parts_equal(a2, left.model_before.spec_encode(), b2, right.model_before.spec_encode());
    lemma_parts_equal(a1, left.previous_block@, b1, right.previous_block@);
    lemma_parts_equal(tag, bits::le_bytes(left.height), tag, bits::le_bytes(right.height));
    lemma_word_bytes_are_injective(left.height, right.height);
    lemma_word_bytes_are_injective(left.training_seed, right.training_seed);
    lemma_word_bytes_are_injective(left.sampling_entropy, right.sampling_entropy);
    lemma_word_bytes_are_injective(left.sample_count as u64, right.sample_count as u64);
    lemma_word_bytes_are_injective(left.nonce, right.nonce);
    lemma_model_bytes_are_injective(left.model_before, right.model_before);
    lemma_model_bytes_are_injective(left.model_after, right.model_after);
    digest::lemma_digest_ext(left.previous_block, right.previous_block);
    digest::lemma_digest_ext(left.trace_root, right.trace_root);
}

} // verus!
