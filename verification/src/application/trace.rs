//! Training traces and the commitments that bind their steps together.

use vstd::prelude::*;

use crate::domain::block::TraceView;
use crate::domain::training;
use crate::domain::{
    Digest, ModelState, TraceEntry, TrainingStep, TrainingTrace, VerificationSample,
};
use crate::ports::HashPort;

verus! {

/// The commitment to a step after the commitment `previous`.
pub open spec fn spec_commit<H: HashPort>(
    hasher: H,
    previous: Digest,
    step: TrainingStep,
) -> Digest {
    hasher.spec_digest(
        vstd::utf8::encode_utf8("chesscoin.commit.v1"@) + previous@ + training::step_bytes(step),
    )
}

/// The last commitment of a run; zero before the first step.
pub open spec fn last_commitment(entries: Seq<TraceEntry>) -> Digest {
    if entries.len() == 0 {
        Digest::spec_zero()
    } else {
        entries.last().commitment
    }
}

/// The model after a run that starts at `initial`.
pub open spec fn last_state(initial: ModelState, entries: Seq<TraceEntry>) -> ModelState {
    if entries.len() == 0 {
        initial
    } else {
        entries.last().step.state_after
    }
}

/// The next entry of an honest run.
pub open spec fn next_entry<H: HashPort>(
    hasher: H,
    initial: ModelState,
    seed: u64,
    entries: Seq<TraceEntry>,
) -> TraceEntry {
    let previous: Digest = last_commitment(entries);
    let step: TrainingStep = TrainingStep::spec_deterministic(
        seed,
        entries.len() as u64,
        last_state(initial, entries),
    );
    TraceEntry {
        previous_commitment: previous,
        step,
        commitment: spec_commit(hasher, previous, step),
    }
}

/// The first `count` entries of an honest run.
pub open spec fn honest_entries<H: HashPort>(
    hasher: H,
    initial: ModelState,
    seed: u64,
    count: nat,
) -> Seq<TraceEntry>
    decreases count,
{
    if count == 0 {
        Seq::empty()
    } else {
        let before: Seq<TraceEntry> = honest_entries(hasher, initial, seed, (count - 1) as nat);
        before.push(next_entry(hasher, initial, seed, before))
    }
}

/// The trace of an honest run of `steps` steps.
pub open spec fn honest_trace<H: HashPort>(
    hasher: H,
    initial: ModelState,
    seed: u64,
    steps: nat,
) -> TraceView {
    let entries: Seq<TraceEntry> = honest_entries(hasher, initial, seed, steps);
    TraceView {
        initial_model: initial,
        candidate_model: last_state(initial, entries),
        entries,
        root: last_commitment(entries),
    }
}

/// The verdict on an opened entry at `index`, against the entry that was committed to.
pub open spec fn spec_verify<H: HashPort>(
    hasher: H,
    seed: u64,
    index: usize,
    committed: TraceEntry,
    opened: TraceEntry,
) -> VerificationSample {
    VerificationSample {
        index,
        commitment_ok: opened.previous_commitment == committed.previous_commitment
            && opened.commitment == committed.commitment && spec_commit(
            hasher,
            committed.previous_commitment,
            opened.step,
        ) == committed.commitment,
        transition_ok: opened.step.index as usize == index && opened.step
            == TrainingStep::spec_deterministic(
            seed,
            opened.step.index,
            opened.step.state_before,
        ),
    }
}

/// The entry at `at` is bound to the entry before it, and its commitment is that of its step.
pub open spec fn entry_is_bound<H: HashPort>(hasher: H, entries: Seq<TraceEntry>, at: int) -> bool {
    let previous: Digest = last_commitment(entries.take(at));
    &&& entries[at].previous_commitment == previous
    &&& entries[at].commitment == spec_commit(hasher, previous, entries[at].step)
}

/// The step at `at` starts from the model that the step before it left.
pub open spec fn entry_continues(initial: ModelState, entries: Seq<TraceEntry>, at: int) -> bool {
    entries[at].step.state_before == last_state(initial, entries.take(at))
}

/// An honest run has the length asked for, and its prefixes are the shorter runs.
pub proof fn lemma_honest_prefix<H: HashPort>(
    hasher: H,
    initial: ModelState,
    seed: u64,
    count: nat,
    at: nat,
)
    requires
        at <= count,
    ensures
        honest_entries(hasher, initial, seed, count).len() == count,
        honest_entries(hasher, initial, seed, count).take(at as int) == honest_entries(
            hasher,
            initial,
            seed,
            at,
        ),
        at < count ==> honest_entries(hasher, initial, seed, count)[at as int] == next_entry(
            hasher,
            initial,
            seed,
            honest_entries(hasher, initial, seed, at),
        ),
    decreases count,
{
    let entries: Seq<TraceEntry> = honest_entries(hasher, initial, seed, count);
    if count > 0 {
        let before: Seq<TraceEntry> = honest_entries(hasher, initial, seed, (count - 1) as nat);
        if at < count {
            lemma_honest_prefix(hasher, initial, seed, (count - 1) as nat, at);
            assert(entries.take(at as int) =~= before.take(at as int));
            if at == count - 1 {
                assert(before.take(at as int) =~= before);
            }
        } else {
            lemma_honest_prefix(hasher, initial, seed, (count - 1) as nat, (count - 1) as nat);
            assert(entries.take(at as int) =~= entries);
        }
    } else {
        assert(entries.take(0) =~= entries);
    }
}

/// The commitment to a step after the commitment `previous`.
pub fn commit<H: HashPort>(hasher: &H, previous: Digest, step: &TrainingStep) -> (commitment:
    Digest)
    ensures
        commitment == spec_commit(*hasher, previous, *step),
{
    let encoded_step: Vec<u8> = step.encode();
    let mut bytes: Vec<u8> = Vec::new();
    bytes.extend_from_slice("chesscoin.commit.v1".as_bytes());
    assert(bytes@ =~= vstd::utf8::encode_utf8("chesscoin.commit.v1"@));
    previous.append_to(&mut bytes);
    let ghost head: Seq<u8> = bytes@;
    bytes.extend_from_slice(encoded_step.as_slice());
    assert(bytes@ =~= head + encoded_step@);
    hasher.digest(bytes.as_slice())
}

/// Runs `steps` steps of training from `initial_model`, committing to each.
pub fn build<H: HashPort>(hasher: &H, initial_model: ModelState, seed: u64, steps: usize) -> (trace:
    TrainingTrace)
    ensures
        trace@ == honest_trace(*hasher, initial_model, seed, steps as nat),
        trace.entries@.len() == steps,
{
    let mut state: ModelState = initial_model;
    let mut previous_commitment: Digest = Digest::zero();
    let mut entries: Vec<TraceEntry> = Vec::new();
    let mut index: usize = 0;
    while index < steps
        invariant
            index <= steps,
            entries@.len() == index,
            entries@ == honest_entries(*hasher, initial_model, seed, index as nat),
            state == last_state(initial_model, entries@),
            previous_commitment == last_commitment(entries@),
        decreases steps - index,
    {
        let step: TrainingStep = TrainingStep::deterministic(seed, index as u64, &state);
        let commitment: Digest = commit(hasher, previous_commitment, &step);
        state = step.state_after;
        entries.push(TraceEntry { previous_commitment, step, commitment });
        previous_commitment = commitment;
        index += 1;
    }
    TrainingTrace { initial_model, candidate_model: state, entries, root: previous_commitment }
}

/// The verdict on an opened entry at `index`, against the entry that was committed to.
pub fn verify<H: HashPort>(
    hasher: &H,
    seed: u64,
    index: usize,
    committed_entry: &TraceEntry,
    opened_entry: &TraceEntry,
) -> (sample: VerificationSample)
    ensures
        sample == spec_verify(*hasher, seed, index, *committed_entry, *opened_entry),
{
    let expected_step: TrainingStep = TrainingStep::deterministic(
        seed,
        opened_entry.step.index,
        &opened_entry.step.state_before,
    );
    let expected_commitment: Digest = commit(
        hasher,
        committed_entry.previous_commitment,
        &opened_entry.step,
    );
    VerificationSample {
        index,
        commitment_ok: opened_entry.previous_commitment == committed_entry.previous_commitment
            && opened_entry.commitment == committed_entry.commitment && expected_commitment
            == committed_entry.commitment,
        transition_ok: (#[verifier::truncate] (opened_entry.step.index as usize)) == index
            && expected_step == opened_entry.step,
    }
}

/// An honest entry passes its own check, whatever the hash function.
pub proof fn lemma_honest_entry_is_accepted<H: HashPort>(
    hasher: H,
    initial: ModelState,
    seed: u64,
    steps: usize,
    at: usize,
)
    requires
        at < steps,
    ensures
        ({
            let entries: Seq<TraceEntry> = honest_entries(hasher, initial, seed, steps as nat);
            &&& entries.len() == steps
            &&& spec_verify(
                hasher,
                seed,
                at,
                entries[at as int],
                entries[at as int],
            ).spec_accepted()
            &&& entry_is_bound(hasher, entries, at as int)
            &&& entry_continues(initial, entries, at as int)
        }),
{
    lemma_honest_prefix(hasher, initial, seed, steps as nat, at as nat);
    lemma_honest_prefix(hasher, initial, seed, at as nat, at as nat);
}

} // verus!
