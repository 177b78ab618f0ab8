//! What commitments, honest traces and the check of one step come down to.

use vstd::prelude::*;

use crate::application::trace;
use crate::domain::block::TraceView;
use crate::domain::digest;
use crate::domain::layout_laws;
use crate::domain::training;
use crate::domain::{Digest, ModelState, TraceEntry, TrainingStep, VerificationSample};
use crate::ports::HashPort;

verus! {

/// Bytes that tell a commitment and the step behind it.
pub open spec fn tells_commitment(bytes: Seq<u8>, previous: Digest, step: TrainingStep) -> bool {
    &&& bytes.len() == 250
    &&& layout_laws::begins_with(bytes, "chesscoin.commit.v1"@)
    &&& bytes.subrange(19, 51) == previous@
    &&& layout_laws::tells_step(bytes.skip(51), step)
}

/// The commitment to a step is the digest of the bytes that tell the commitment before it and every
/// field of the step, whatever the hash function.
pub proof fn lemma_commitment_covers_step<H: HashPort>(
    hasher: H,
    previous: Digest,
    step: TrainingStep,
    bytes: Seq<u8>,
)
    requires
        tells_commitment(bytes, previous, step),
    ensures
        trace::spec_commit(hasher, previous, step) == hasher.spec_digest(bytes),
{
    broadcast use digest::lemma_digest_len;

    reveal_strlit("chesscoin.commit.v1");
    layout_laws::lemma_tag(bytes, "chesscoin.commit.v1"@);
    layout_laws::lemma_bytes_part(bytes, 19, previous@);
    layout_laws::lemma_step_encoding_tells_step(bytes.skip(51), step);
    assert(bytes.subrange(51, 250) =~= bytes.skip(51));
    layout_laws::lemma_bytes_part(bytes, 51, training::step_bytes(step));
    assert(bytes.subrange(0, 250) =~= bytes);
}

/// Bytes that tell a step, behind a tag and a commitment, tell both.
#[verifier::rlimit(50)]
proof fn lemma_told_behind_commitment(previous: Digest, step: TrainingStep, encoded: Seq<u8>)
    requires
        encoded.len() == 199,
        layout_laws::tells_step(encoded, step),
    ensures
        tells_commitment(
            vstd::utf8::encode_utf8("chesscoin.commit.v1"@) + previous@ + encoded,
            previous,
            step,
        ),
{
    broadcast use digest::lemma_digest_len;

    let tag: Seq<u8> = vstd::utf8::encode_utf8("chesscoin.commit.v1"@);
    let bytes: Seq<u8> = tag + previous@ + encoded;
    reveal_strlit("chesscoin.commit.v1");
    vstd::utf8::is_ascii_chars_encode_utf8("chesscoin.commit.v1"@);
    assert(bytes.skip(51) =~= encoded);
    assert(bytes.subrange(19, 51) =~= previous@);
    assert(bytes.subrange(0, 19) =~= tag);
    layout_laws::lemma_spells_tag(bytes, "chesscoin.commit.v1"@);
}

/// There are bytes that tell a given commitment and step.
#[verifier::rlimit(50)]
pub proof fn lemma_commitment_can_be_told(previous: Digest, step: TrainingStep) -> (bytes: Seq<u8>)
    ensures
        tells_commitment(bytes, previous, step),
{
    layout_laws::lemma_step_reads_back(step);
    lemma_told_behind_commitment(previous, step, training::step_bytes(step));
    vstd::utf8::encode_utf8("chesscoin.commit.v1"@) + previous@ + training::step_bytes(step)
}

/// The model that the step at `at` of a run starts from: what the step before it left.
pub open spec fn model_before(
    initial: ModelState,
    entries: Seq<TraceEntry>,
    at: int,
) -> ModelState {
    if at <= 0 {
        initial
    } else {
        entries[at - 1].step.state_after
    }
}

/// The commitment that the entry at `at` of a run follows: zero for the first.
pub open spec fn commitment_before(entries: Seq<TraceEntry>, at: int) -> Digest {
    if at <= 0 {
        Digest::spec_zero()
    } else {
        entries[at - 1].commitment
    }
}

/// Every entry is the step that seed, position and the model before it determine, committed to
/// after the commitment before it.
pub open spec fn is_honest_run<H: HashPort>(
    hasher: H,
    initial: ModelState,
    seed: u64,
    entries: Seq<TraceEntry>,
) -> bool {
    forall|i: int|
        #![trigger entries[i]]
        0 <= i < entries.len() ==> {
            &&& entries[i].previous_commitment == commitment_before(entries, i)
            &&& entries[i].step == TrainingStep::spec_deterministic(
                seed,
                i as u64,
                model_before(initial, entries, i),
            )
            &&& entries[i].commitment == trace::spec_commit(
                hasher,
                commitment_before(entries, i),
                entries[i].step,
            )
        }
}

/// A trace has as many entries as steps were asked for, each honest and bound to the one before it,
/// from the first to the last. Its ends are the initial model and the model that the last step
/// left, and its root is the last commitment.
pub proof fn lemma_trace_is_honest_throughout<H: HashPort>(
    hasher: H,
    initial: ModelState,
    seed: u64,
    steps: usize,
)
    ensures
        ({
            let made: TraceView = trace::honest_trace(hasher, initial, seed, steps as nat);
            &&& made.entries.len() == steps
            &&& made.initial_model == initial
            &&& made.candidate_model == model_before(initial, made.entries, steps as int)
            &&& made.root == commitment_before(made.entries, steps as int)
            &&& is_honest_run(hasher, initial, seed, made.entries)
        }),
{
    let made: TraceView = trace::honest_trace(hasher, initial, seed, steps as nat);
    let entries: Seq<TraceEntry> = made.entries;
    trace::lemma_honest_prefix(hasher, initial, seed, steps as nat, steps as nat);
    assert forall|i: int|
        #![trigger entries[i]]
        0 <= i < entries.len() implies {
        &&& entries[i].previous_commitment == commitment_before(entries, i)
        &&& entries[i].step == TrainingStep::spec_deterministic(
            seed,
            i as u64,
            model_before(initial, entries, i),
        )
        &&& entries[i].commitment == trace::spec_commit(
            hasher,
            commitment_before(entries, i),
            entries[i].step,
        )
    } by {
        trace::lemma_honest_prefix(hasher, initial, seed, steps as nat, i as nat);
        trace::lemma_honest_prefix(hasher, initial, seed, i as nat, i as nat);
        if i > 0 {
            assert(entries.take(i).last() == entries[i - 1]);
        }
    }
}

/// Two steps agree in every field.
pub open spec fn same_step(left: TrainingStep, right: TrainingStep) -> bool {
    &&& left.index == right.index
    &&& left.seed == right.seed
    &&& left.batch_id == right.batch_id
    &&& left.weight_index == right.weight_index
    &&& left.gradient == right.gradient
    &&& left.learning_rate_ppm == right.learning_rate_ppm
    &&& left.state_before == right.state_before
    &&& left.state_after == right.state_after
}

/// The check of an opened entry names its position. The transition passes exactly where the step is
/// the honest one of that position in every field. The commitment passes exactly where both
/// commitments are those committed to and the committed one is that of the opened step.
#[verifier::rlimit(50)]
pub proof fn lemma_check_is_exact<H: HashPort>(
    hasher: H,
    seed: u64,
    index: usize,
    committed: TraceEntry,
    opened: TraceEntry,
)
    ensures
        ({
            let sample: VerificationSample = trace::spec_verify(
                hasher,
                seed,
                index,
                committed,
                opened,
            );
            &&& sample.index == index
            &&& sample.transition_ok <==> opened.step.index as usize == index && same_step(
                opened.step,
                TrainingStep::spec_deterministic(
                    seed,
                    opened.step.index,
                    opened.step.state_before,
                ),
            )
            &&& sample.commitment_ok <==> opened.previous_commitment
                == committed.previous_commitment && opened.commitment == committed.commitment
                && committed.commitment == trace::spec_commit(
                hasher,
                committed.previous_commitment,
                opened.step,
            )
            &&& sample.spec_accepted() <==> sample.commitment_ok && sample.transition_ok
        }),
{
}

/// Changing any one field of an honest step makes its check fail.
#[verifier::rlimit(50)]
pub proof fn lemma_forged_step_is_refused<H: HashPort>(
    hasher: H,
    seed: u64,
    index: usize,
    committed: TraceEntry,
    opened: TraceEntry,
)
    requires
        !same_step(
            opened.step,
            TrainingStep::spec_deterministic(seed, opened.step.index, opened.step.state_before),
        ),
    ensures
        !trace::spec_verify(hasher, seed, index, committed, opened).transition_ok,
        !trace::spec_verify(hasher, seed, index, committed, opened).spec_accepted(),
{
}

} // verus!
