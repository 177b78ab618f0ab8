//! Where each field stands in the bytes that are hashed, and what it says there.

use vstd::prelude::*;

use crate::bits;
use crate::domain::block;
use crate::domain::digest;
use crate::domain::model;
use crate::domain::training;
use crate::domain::{BlockHeader, ModelState, TrainingStep, MODEL_WIDTH};
use crate::word_laws;

verus! {

/// The bytes begin with the characters of a tag, one byte each.
pub open spec fn begins_with(bytes: Seq<u8>, tag: Seq<char>) -> bool {
    &&& tag.len() <= bytes.len()
    &&& forall|i: int| 0 <= i < tag.len() ==> #[trigger] bytes[i] as int == tag[i] as int
}

/// The bytes from `at` on hold the weights of a model, eight bytes each, in two's complement.
pub open spec fn holds_model(bytes: Seq<u8>, at: int, held: ModelState) -> bool {
    forall|k: int|
        0 <= k < MODEL_WIDTH ==> word_laws::number_at(bytes, at + 8 * k) == #[trigger] held@[k]
            as int % word_laws::word_range()
}

/// The bytes of a tag.
pub proof fn lemma_tag(bytes: Seq<u8>, tag: Seq<char>)
    requires
        vstd::utf8::is_ascii_chars(tag),
        begins_with(bytes, tag),
    ensures
        bytes.subrange(0, tag.len() as int) == vstd::utf8::encode_utf8(tag),
{
    vstd::utf8::is_ascii_chars_encode_utf8(tag);
    let encoded: Seq<u8> = vstd::utf8::encode_utf8(tag);
    assert forall|i: int| 0 <= i < tag.len() implies #[trigger] bytes[i] == encoded[i] by {
        assert(encoded[i] == tag[i] as u8);
    }
    assert(bytes.subrange(0, tag.len() as int) =~= encoded);
}

/// The bytes of a model.
pub proof fn lemma_model_part(bytes: Seq<u8>, at: int, held: ModelState)
    requires
        0 <= at,
        at + 64 <= bytes.len(),
        holds_model(bytes, at, held),
    ensures
        bytes.subrange(at, at + 64) == held.spec_encode(),
{
    broadcast use model::lemma_model_len;

    let part: Seq<u8> = bytes.subrange(at, at + 64);
    assert forall|i: int| 0 <= i < 64 implies #[trigger] part[i] == held.spec_encode()[i] by {
        let k: int = i / 8;
        let weight: i64 = held@[k];
        word_laws::lemma_two_complement(weight);
        word_laws::lemma_bytes_add_up(weight as u64, bytes, at + 8 * k);
        assert(bytes.subrange(at + 8 * k, at + 8 * k + 8)[i % 8] == bytes[at + i]);
        assert(bits::le_bytes(weight as u64)[i % 8] == bits::byte_at(weight as u64, i % 8));
    }
    assert(part =~= held.spec_encode());
}

/// The bytes up to one position, and from there to another, are those up to the other.
proof fn lemma_cut(bytes: Seq<u8>, middle: int, end: int)
    requires
        0 <= middle <= end <= bytes.len(),
    ensures
        bytes.subrange(0, middle) + bytes.subrange(middle, end) == bytes.subrange(0, end),
{
    assert(bytes.subrange(0, middle) + bytes.subrange(middle, end) =~= bytes.subrange(0, end));
}

/// A word behind the bytes so far.
pub proof fn lemma_word_part(bytes: Seq<u8>, at: int, value: u64)
    requires
        0 <= at,
        at + 8 <= bytes.len(),
        word_laws::number_at(bytes, at) == value,
    ensures
        bytes.subrange(0, at) + bits::le_bytes(value) == bytes.subrange(0, at + 8),
{
    word_laws::lemma_bytes_add_up(value, bytes, at);
    lemma_cut(bytes, at, at + 8);
}

/// Other bytes behind the bytes so far.
pub proof fn lemma_bytes_part(bytes: Seq<u8>, at: int, part: Seq<u8>)
    requires
        0 <= at,
        at + part.len() <= bytes.len(),
        bytes.subrange(at, at + part.len()) == part,
    ensures
        bytes.subrange(0, at) + part == bytes.subrange(0, at + part.len()),
{
    lemma_cut(bytes, at, at + part.len());
}

/// Bytes that tell every field of a step, each at its place.
pub open spec fn tells_step(bytes: Seq<u8>, step: TrainingStep) -> bool {
    &&& bytes.len() == 199
    &&& begins_with(bytes, "chesscoin.trace-step.v1"@)
    &&& word_laws::number_at(bytes, 23) == step.index
    &&& word_laws::number_at(bytes, 31) == step.seed
    &&& word_laws::number_at(bytes, 39) == step.batch_id
    &&& word_laws::number_at(bytes, 47) == step.weight_index
    &&& word_laws::number_at(bytes, 55) == step.gradient as int % word_laws::word_range()
    &&& word_laws::number_at(bytes, 63) == step.learning_rate_ppm as int % word_laws::word_range()
    &&& holds_model(bytes, 71, step.state_before)
    &&& holds_model(bytes, 135, step.state_after)
}

/// A step is encoded as the bytes that tell every field of it, each at its place, and as no other.
pub proof fn lemma_step_encoding_tells_step(bytes: Seq<u8>, step: TrainingStep)
    requires
        tells_step(bytes, step),
    ensures
        training::step_bytes(step) == bytes,
{
    broadcast use model::lemma_model_len;

    reveal_strlit("chesscoin.trace-step.v1");
    lemma_tag(bytes, "chesscoin.trace-step.v1"@);
    word_laws::lemma_two_complement(step.gradient);
    word_laws::lemma_two_complement(step.learning_rate_ppm);
    lemma_word_part(bytes, 23, step.index);
    lemma_word_part(bytes, 31, step.seed);
    lemma_word_part(bytes, 39, step.batch_id);
    lemma_word_part(bytes, 47, step.weight_index as u64);
    lemma_word_part(bytes, 55, step.gradient as u64);
    lemma_word_part(bytes, 63, step.learning_rate_ppm as u64);
    lemma_model_part(bytes, 71, step.state_before);
    lemma_bytes_part(bytes, 71, step.state_before.spec_encode());
    lemma_model_part(bytes, 135, step.state_after);
    lemma_bytes_part(bytes, 135, step.state_after.spec_encode());
    assert(bytes.subrange(0, 199) =~= bytes);
}

/// Bytes that tell every field of a header, each at its place, and the trace root once more.
pub open spec fn tells_header(bytes: Seq<u8>, header: BlockHeader) -> bool {
    &&& bytes.len() == 289
    &&& begins_with(bytes, "chesscoin.block-header.v1"@)
    &&& word_laws::number_at(bytes, 25) == header.height
    &&& bytes.subrange(33, 65) == header.previous_block@
    &&& holds_model(bytes, 65, header.model_before)
    &&& holds_model(bytes, 129, header.model_after)
    &&& bytes.subrange(193, 225) == header.trace_root@
    &&& word_laws::number_at(bytes, 225) == header.training_seed
    &&& word_laws::number_at(bytes, 233) == header.sampling_entropy
    &&& word_laws::number_at(bytes, 241) == header.sample_count
    &&& word_laws::number_at(bytes, 249) == header.nonce
    &&& bytes.subrange(257, 289) == header.trace_root@
}

/// A header is encoded as the bytes that tell every field of it, each at its place, and as no
/// other; the trace root follows once more where it is hashed.
pub proof fn lemma_header_encoding_tells_header(bytes: Seq<u8>, header: BlockHeader)
    requires
        tells_header(bytes, header),
    ensures
        block::header_bytes(header) + header.trace_root@ == bytes,
        block::header_bytes(header) == bytes.take(257),
{
    broadcast use {digest::lemma_digest_len, model::lemma_model_len};

    reveal_strlit("chesscoin.block-header.v1");
    lemma_tag(bytes, "chesscoin.block-header.v1"@);
    lemma_word_part(bytes, 25, header.height);
    lemma_bytes_part(bytes, 33, header.previous_block@);
    lemma_model_part(bytes, 65, header.model_before);
    lemma_bytes_part(bytes, 65, header.model_before.spec_encode());
    lemma_model_part(bytes, 129, header.model_after);
    lemma_bytes_part(bytes, 129, header.model_after.spec_encode());
    lemma_bytes_part(bytes, 193, header.trace_root@);
    lemma_word_part(bytes, 225, header.training_seed);
    lemma_word_part(bytes, 233, header.sampling_entropy);
    lemma_word_part(bytes, 241, header.sample_count as u64);
    lemma_word_part(bytes, 249, header.nonce);
    assert(bytes.subrange(0, 257) =~= bytes.take(257));
    lemma_bytes_part(bytes, 257, header.trace_root@);
    assert(bytes.subrange(0, 289) =~= bytes);
}

/// The first bytes of a tagged encoding spell its tag.
pub proof fn lemma_spells_tag(bytes: Seq<u8>, tag: Seq<char>)
    requires
        vstd::utf8::is_ascii_chars(tag),
        tag.len() <= bytes.len(),
        bytes.subrange(0, tag.len() as int) == vstd::utf8::encode_utf8(tag),
    ensures
        begins_with(bytes, tag),
{
    vstd::utf8::is_ascii_chars_encode_utf8(tag);
    let encoded: Seq<u8> = vstd::utf8::encode_utf8(tag);
    assert forall|i: int| 0 <= i < tag.len() implies #[trigger] bytes[i] as int
        == tag[i] as int by {
        assert(bytes.subrange(0, tag.len() as int)[i] == bytes[i]);
        assert(encoded[i] == tag[i] as u8);
        assert('\0' <= tag[i] <= '\u{7f}');
    }
}

/// A model reads back from its bytes.
pub proof fn lemma_model_reads_back(bytes: Seq<u8>, at: int, held: ModelState)
    requires
        0 <= at,
        at + 64 <= bytes.len(),
        bytes.subrange(at, at + 64) == held.spec_encode(),
    ensures
        holds_model(bytes, at, held),
{
    broadcast use model::lemma_model_len;

    assert forall|k: int| 0 <= k < MODEL_WIDTH implies word_laws::number_at(bytes, at + 8 * k)
        == #[trigger] held@[k] as int % word_laws::word_range() by {
        let weight: i64 = held@[k];
        let part: Seq<u8> = bytes.subrange(at + 8 * k, at + 8 * k + 8);
        word_laws::lemma_two_complement(weight);
        assert forall|j: int| 0 <= j < 8 implies #[trigger] part[j] == bits::le_bytes(
            weight as u64,
        )[j] by {
            assert(bytes.subrange(at, at + 64)[8 * k + j] == bytes[at + 8 * k + j]);
            assert((8 * k + j) / 8 == k && (8 * k + j) % 8 == j);
        }
        assert(part =~= bits::le_bytes(weight as u64));
        word_laws::lemma_bytes_add_up(weight as u64, bytes, at + 8 * k);
    }
}

/// A word reads back from its bytes.
pub proof fn lemma_word_reads_back(bytes: Seq<u8>, at: int, value: u64)
    requires
        0 <= at,
        at + 8 <= bytes.len(),
        bytes.subrange(at, at + 8) == bits::le_bytes(value),
    ensures
        word_laws::number_at(bytes, at) == value,
{
    word_laws::lemma_bytes_add_up(value, bytes, at);
}

/// Every field of a step reads back from its encoding.
pub proof fn lemma_step_reads_back(step: TrainingStep)
    ensures
        tells_step(training::step_bytes(step), step),
{
    broadcast use model::lemma_model_len;

    reveal_strlit("chesscoin.trace-step.v1");
    vstd::utf8::is_ascii_chars_encode_utf8("chesscoin.trace-step.v1"@);
    let bytes: Seq<u8> = training::step_bytes(step);
    word_laws::lemma_two_complement(step.gradient);
    word_laws::lemma_two_complement(step.learning_rate_ppm);
    assert(bytes.subrange(0, 23) =~= vstd::utf8::encode_utf8("chesscoin.trace-step.v1"@));
    lemma_spells_tag(bytes, "chesscoin.trace-step.v1"@);
    assert(bytes.subrange(23, 31) =~= bits::le_bytes(step.index));
    lemma_word_reads_back(bytes, 23, step.index);
    assert(bytes.subrange(31, 39) =~= bits::le_bytes(step.seed));
    lemma_word_reads_back(bytes, 31, step.seed);
    assert(bytes.subrange(39, 47) =~= bits::le_bytes(step.batch_id));
    lemma_word_reads_back(bytes, 39, step.batch_id);
    assert(bytes.subrange(47, 55) =~= bits::le_bytes(step.weight_index as u64));
    lemma_word_reads_back(bytes, 47, step.weight_index as u64);
    assert(bytes.subrange(55, 63) =~= bits::le_bytes(step.gradient as u64));
    lemma_word_reads_back(bytes, 55, step.gradient as u64);
    assert(bytes.subrange(63, 71) =~= bits::le_bytes(step.learning_rate_ppm as u64));
    lemma_word_reads_back(bytes, 63, step.learning_rate_ppm as u64);
    assert(bytes.subrange(71, 135) =~= step.state_before.spec_encode());
    lemma_model_reads_back(bytes, 71, step.state_before);
    assert(bytes.subrange(135, 199) =~= step.state_after.spec_encode());
    lemma_model_reads_back(bytes, 135, step.state_after);
}

/// Every field of a header reads back from the bytes that its hash covers.
pub proof fn lemma_header_reads_back(header: BlockHeader)
    ensures
        tells_header(block::header_bytes(header) + header.trace_root@, header),
{
    broadcast use {digest::lemma_digest_len, model::lemma_model_len};

    reveal_strlit("chesscoin.block-header.v1");
    vstd::utf8::is_ascii_chars_encode_utf8("chesscoin.block-header.v1"@);
    let bytes: Seq<u8> = block::header_bytes(header) + header.trace_root@;
    assert(bytes.subrange(0, 25) =~= vstd::utf8::encode_utf8("chesscoin.block-header.v1"@));
    lemma_spells_tag(bytes, "chesscoin.block-header.v1"@);
    assert(bytes.subrange(25, 33) =~= bits::le_bytes(header.height));
    lemma_word_reads_back(bytes, 25, header.height);
    assert(bytes.subrange(33, 65) =~= header.previous_block@);
    assert(bytes.subrange(65, 129) =~= header.model_before.spec_encode());
    lemma_model_reads_back(bytes, 65, header.model_before);
    assert(bytes.subrange(129, 193) =~= header.model_after.spec_encode());
    lemma_model_reads_back(bytes, 129, header.model_after);
    assert(bytes.subrange(193, 225) =~= header.trace_root@);
    assert(bytes.subrange(225, 233) =~= bits::le_bytes(header.training_seed));
    lemma_word_reads_back(bytes, 225, header.training_seed);
    assert(bytes.subrange(233, 241) =~= bits::le_bytes(header.sampling_entropy));
    lemma_word_reads_back(bytes, 233, header.sampling_entropy);
    assert(bytes.subrange(241, 249) =~= bits::le_bytes(header.sample_count as u64));
    lemma_word_reads_back(bytes, 241, header.sample_count as u64);
    assert(bytes.subrange(249, 257) =~= bits::le_bytes(header.nonce));
    lemma_word_reads_back(bytes, 249, header.nonce);
    assert(bytes.subrange(257, 289) =~= header.trace_root@);
}

} // verus!
