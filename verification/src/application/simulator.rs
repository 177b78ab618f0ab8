//! The local simulator: train, commit, open, sample, verify.

use vstd::prelude::*;

use crate::adapters;
use crate::adapters::DeterministicSampler;
use crate::application::trace;
use crate::bits;
use crate::domain::block::{OutcomeView, TraceView};
use crate::domain::model;
use crate::domain::training;
use crate::domain::{
    Digest, ModelState, TraceEntry, TrainingStep, TrainingTrace, VerificationOutcome,
    VerificationSample,
};
use crate::ports::{HashPort, SamplingPort};

verus! {

/// What to simulate.
#[derive(Clone, Copy, Debug, PartialEq, Eq)]
pub struct SimulationRequest {
    pub steps: usize,
    pub samples: usize,
    pub seed: u64,
    pub sampling_entropy: u64,
    pub tamper_step: Option<usize>,
}

impl Default for SimulationRequest {
    fn default() -> (request: Self)
        ensures
            request == (SimulationRequest {
                steps: 16,
                samples: 6,
                seed: 42,
                sampling_entropy: 2_026,
                tamper_step: None,
            }),
    {
        SimulationRequest {
            steps: 16,
            samples: 6,
            seed: 42,
            sampling_entropy: 2_026,
            tamper_step: None,
        }
    }
}

/// What a simulation did and how it ended.
#[derive(Debug, PartialEq, Eq)]
pub struct SimulationReport {
    pub committed_trace: TrainingTrace,
    pub opened_trace: TrainingTrace,
    pub sampled_indices: Vec<usize>,
    pub samples: Vec<VerificationSample>,
    pub outcome: VerificationOutcome,
    pub tamper_applied: Option<usize>,
}

/// What a report holds.
#[verifier::ext_equal]
pub struct ReportView {
    pub committed_trace: TraceView,
    pub opened_trace: TraceView,
    pub sampled_indices: Seq<usize>,
    pub samples: Seq<VerificationSample>,
    pub outcome: OutcomeView,
    pub tamper_applied: Option<usize>,
}

impl View for SimulationReport {
    type V = ReportView;

    open spec fn view(&self) -> ReportView {
        ReportView {
            committed_trace: self.committed_trace@,
            opened_trace: self.opened_trace@,
            sampled_indices: self.sampled_indices@,
            samples: self.samples@,
            outcome: self.outcome@,
            tamper_applied: self.tamper_applied,
        }
    }
}

impl Clone for SimulationReport {
    fn clone(&self) -> (copy: Self)
        ensures
            copy@ == self@,
    {
        let sampled_indices: Vec<usize> = self.sampled_indices.clone();
        let samples: Vec<VerificationSample> = self.samples.clone();
        assert(sampled_indices@ =~= self.sampled_indices@);
        assert(samples@ =~= self.samples@);
        SimulationReport {
            committed_trace: self.committed_trace.clone(),
            opened_trace: self.opened_trace.clone(),
            sampled_indices,
            samples,
            outcome: self.outcome.clone(),
            tamper_applied: self.tamper_applied,
        }
    }
}

/// The tampering that a request asks for, where the trace has that step.
pub open spec fn spec_tamper_applied(request: SimulationRequest) -> Option<usize> {
    match request.tamper_step {
        Some(index) => if index < request.steps {
            Some(index)
        } else {
            None
        },
        None => None,
    }
}

/// The entry with the first weight of its resulting model raised by one, up to the 64-bit bound.
pub open spec fn tampered(entry: TraceEntry) -> TraceEntry {
    let weights: Seq<i64> = entry.step.state_after@;
    TraceEntry {
        step: TrainingStep {
            state_after: ModelState::of(weights.update(0, bits::clamp_i64(weights[0] + 1))),
            ..entry.step
        },
        ..entry
    }
}

/// The trace as it is opened: with the tampered entry, where there is one.
pub open spec fn opened(committed: TraceView, tamper: Option<usize>) -> TraceView {
    match tamper {
        Some(index) => TraceView {
            entries: committed.entries.update(
                index as int,
                tampered(committed.entries[index as int]),
            ),
            ..committed
        },
        None => committed,
    }
}

/// The indices of the samples that were not accepted, in order.
pub open spec fn failed(samples: Seq<VerificationSample>) -> Seq<usize>
    decreases samples.len(),
{
    if samples.len() == 0 {
        Seq::empty()
    } else if samples.last().spec_accepted() {
        failed(samples.drop_last())
    } else {
        failed(samples.drop_last()).push(samples.last().index)
    }
}

/// The outcome that a list of samples leads to.
pub open spec fn outcome_of(samples: Seq<VerificationSample>) -> OutcomeView {
    if failed(samples).len() == 0 {
        OutcomeView::Accepted
    } else {
        OutcomeView::Rejected { failed_indices: failed(samples) }
    }
}

/// The report of a simulation.
pub open spec fn spec_run<H: HashPort, S: SamplingPort>(
    hasher: H,
    sampler: S,
    request: SimulationRequest,
) -> ReportView {
    let committed: TraceView = trace::honest_trace(
        hasher,
        ModelState::spec_genesis(),
        request.seed,
        request.steps as nat,
    );
    let tamper: Option<usize> = spec_tamper_applied(request);
    let shown: TraceView = opened(committed, tamper);
    let indices: Seq<usize> = sampler.spec_sample_indices(
        request.steps,
        request.samples,
        committed.root,
        request.sampling_entropy,
    );
    let samples: Seq<VerificationSample> = indices.map_values(
        |index: usize|
            trace::spec_verify(
                hasher,
                request.seed,
                index,
                committed.entries[index as int],
                shown.entries[index as int],
            ),
    );
    ReportView {
        committed_trace: committed,
        opened_trace: shown,
        sampled_indices: indices,
        samples,
        outcome: outcome_of(samples),
        tamper_applied: tamper,
    }
}

/// Every index that the sampler gives for this request is a step of the trace.
pub open spec fn sample_is_in_range<H: HashPort, S: SamplingPort>(
    hasher: H,
    sampler: S,
    request: SimulationRequest,
) -> bool {
    let indices: Seq<usize> = spec_run(hasher, sampler, request).sampled_indices;
    forall|i: int| 0 <= i < indices.len() ==> #[trigger] indices[i] < request.steps
}

/// Runs the protocol with a hash function and a sampler.
pub struct ProtocolSimulator<H, S> {
    hasher: H,
    sampler: S,
}

impl<H, S> ProtocolSimulator<H, S> where H: HashPort, S: SamplingPort {
    pub closed spec fn hash_port(&self) -> H {
        self.hasher
    }

    pub closed spec fn sampling_port(&self) -> S {
        self.sampler
    }

    pub fn new(hasher: H, sampler: S) -> (simulator: Self)
        ensures
            simulator.hash_port() == hasher,
            simulator.sampling_port() == sampler,
    {
        ProtocolSimulator { hasher, sampler }
    }

    /// Trains, commits, opens, samples and verifies.
    pub fn run(&self, request: SimulationRequest) -> (report: SimulationReport)
        requires
            sample_is_in_range(self.hash_port(), self.sampling_port(), request),
        ensures
            report@ == spec_run(self.hash_port(), self.sampling_port(), request),
    {
        let committed_trace: TrainingTrace = self.build_trace(request.seed, request.steps);
        let mut opened_trace: TrainingTrace = committed_trace.clone();
        let tamper_applied: Option<usize> = match request.tamper_step {
            Some(index) => if index < opened_trace.entries.len() {
                Some(index)
            } else {
                None
            },
            None => None,
        };
        if let Some(index) = tamper_applied {
            let changed: TraceEntry = tamper_trace_step(opened_trace.entries[index]);
            opened_trace.entries.set(index, changed);
        }
        assert(opened_trace@ == opened(committed_trace@, tamper_applied));

        let sampled_indices: Vec<usize> = self.sampler.sample_indices(
            committed_trace.entries.len(),
            request.samples,
            committed_trace.root,
            request.sampling_entropy,
        );
        let ghost expected: ReportView = spec_run(self.hasher, self.sampler, request);
        assert(sampled_indices@ == expected.sampled_indices);

        let mut samples: Vec<VerificationSample> = Vec::new();
        let mut failed_indices: Vec<usize> = Vec::new();
        let mut at: usize = 0;
        while at < sampled_indices.len()
            invariant
                at <= sampled_indices@.len(),
                expected == spec_run(self.hasher, self.sampler, request),
                sampled_indices@ == expected.sampled_indices,
                sample_is_in_range(self.hasher, self.sampler, request),
                committed_trace@ == expected.committed_trace,
                opened_trace@ == expected.opened_trace,
                committed_trace.entries@.len() == request.steps,
                opened_trace.entries@.len() == request.steps,
                samples@ == expected.samples.take(at as int),
                failed_indices@ == failed(samples@),
            decreases sampled_indices@.len() - at,
        {
            let index: usize = sampled_indices[at];
            assert(expected.sampled_indices[at as int] < request.steps);
            let sample: VerificationSample = self.verify_sample(
                request.seed,
                index,
                &committed_trace.entries[index],
                &opened_trace.entries[index],
            );
            assert(sample == expected.samples[at as int]);
            samples.push(sample);
            assert(samples@.drop_last() =~= expected.samples.take(at as int));
            if !sample.accepted() {
                failed_indices.push(sample.index);
            }
            at += 1;
            assert(samples@ =~= expected.samples.take(at as int));
        }
        assert(expected.samples.take(at as int) =~= expected.samples);

        let outcome: VerificationOutcome = if failed_indices.is_empty() {
            VerificationOutcome::Accepted
        } else {
            VerificationOutcome::Rejected { failed_indices }
        };
        SimulationReport {
            committed_trace,
            opened_trace,
            sampled_indices,
            samples,
            outcome,
            tamper_applied,
        }
    }

    /// The honest trace from the genesis model.
    pub fn build_trace(&self, seed: u64, steps: usize) -> (trace: TrainingTrace)
        ensures
            trace@ == trace::honest_trace(
                self.hash_port(),
                ModelState::spec_genesis(),
                seed,
                steps as nat,
            ),
            trace.entries@.len() == steps,
    {
        self.build_trace_from(ModelState::genesis(), seed, steps)
    }

    /// The honest trace from `initial_model`.
    pub fn build_trace_from(&self, initial_model: ModelState, seed: u64, steps: usize) -> (trace:
        TrainingTrace)
        ensures
            trace@ == trace::honest_trace(self.hash_port(), initial_model, seed, steps as nat),
            trace.entries@.len() == steps,
    {
        trace::build(&self.hasher, initial_model, seed, steps)
    }

    /// The verdict on an opened entry at `index`, against the entry that was committed to.
    pub fn verify_sample(
        &self,
        seed: u64,
        index: usize,
        committed_entry: &TraceEntry,
        opened_entry: &TraceEntry,
    ) -> (sample: VerificationSample)
        ensures
            sample == trace::spec_verify(
                self.hash_port(),
                seed,
                index,
                *committed_entry,
                *opened_entry,
            ),
    {
        trace::verify(&self.hasher, seed, index, committed_entry, opened_entry)
    }

    /// The commitment to a step after the commitment `previous_commitment`.
    pub fn commit_step(&self, previous_commitment: Digest, step: &TrainingStep) -> (commitment:
        Digest)
        ensures
            commitment == trace::spec_commit(self.hash_port(), previous_commitment, *step),
    {
        trace::commit(&self.hasher, previous_commitment, step)
    }
}

/// The members of `indices` that equal `wanted`, in order.
pub open spec fn occurrences(indices: Seq<usize>, wanted: usize) -> Seq<usize>
    decreases indices.len(),
{
    if indices.len() == 0 {
        Seq::empty()
    } else if indices.last() == wanted {
        occurrences(indices.drop_last(), wanted).push(wanted)
    } else {
        occurrences(indices.drop_last(), wanted)
    }
}

/// Samples fail exactly at `bad`: the failed indices are the occurrences of it.
proof fn lemma_failed_at(samples: Seq<VerificationSample>, indices: Seq<usize>, bad: usize)
    requires
        samples.len() == indices.len(),
        forall|i: int|
            0 <= i < samples.len() ==> (#[trigger] samples[i]).index == indices[i]
                && samples[i].spec_accepted() == (indices[i] != bad),
    ensures
        failed(samples) == occurrences(indices, bad),
    decreases samples.len(),
{
    if samples.len() > 0 {
        let fewer: Seq<VerificationSample> = samples.drop_last();
        assert forall|i: int| 0 <= i < fewer.len() implies (#[trigger] fewer[i]).index
            == indices.drop_last()[i] && fewer[i].spec_accepted() == (indices.drop_last()[i]
            != bad) by {
            assert(fewer[i] == samples[i]);
        }
        lemma_failed_at(fewer, indices.drop_last(), bad);
        assert(samples.last() == samples[samples.len() - 1]);
    }
}

/// Where every sample was accepted, none failed.
proof fn lemma_none_failed(samples: Seq<VerificationSample>)
    requires
        forall|i: int| 0 <= i < samples.len() ==> (#[trigger] samples[i]).spec_accepted(),
    ensures
        failed(samples) == Seq::<usize>::empty(),
    decreases samples.len(),
{
    if samples.len() > 0 {
        lemma_none_failed(samples.drop_last());
        assert(samples.last() == samples[samples.len() - 1]);
    }
}

proof fn lemma_occurrences(indices: Seq<usize>, wanted: usize)
    ensures
        indices.contains(wanted) <==> occurrences(indices, wanted).len() > 0,
    decreases indices.len(),
{
    if indices.len() > 0 {
        lemma_occurrences(indices.drop_last(), wanted);
        if indices.last() == wanted {
            assert(indices[indices.len() - 1] == wanted);
        } else {
            if indices.contains(wanted) {
                let k: int = choose|k: int| 0 <= k < indices.len() && indices[k] == wanted;
                assert(indices.drop_last()[k] == wanted);
            }
            if indices.drop_last().contains(wanted) {
                let k: int = choose|k: int|
                    0 <= k < indices.drop_last().len() && indices.drop_last()[k] == wanted;
                assert(indices[k] == wanted);
            }
        }
    }
}

/// An honest run is accepted, and so is each of its samples.
pub proof fn lemma_honest_run_is_accepted<H: HashPort, S: SamplingPort>(
    hasher: H,
    sampler: S,
    request: SimulationRequest,
)
    requires
        spec_tamper_applied(request) is None,
        sample_is_in_range(hasher, sampler, request),
    ensures
        spec_run(hasher, sampler, request).outcome is Accepted,
        forall|i: int|
            0 <= i < spec_run(hasher, sampler, request).samples.len() ==> (#[trigger] spec_run(
                hasher,
                sampler,
                request,
            ).samples[i]).spec_accepted(),
{
    let report: ReportView = spec_run(hasher, sampler, request);
    assert forall|i: int| 0 <= i < report.samples.len() implies (
    #[trigger] report.samples[i]).spec_accepted() by {
        assert(report.sampled_indices[i] < request.steps);
        trace::lemma_honest_entry_is_accepted(
            hasher,
            ModelState::spec_genesis(),
            request.seed,
            request.steps,
            report.sampled_indices[i],
        );
    }
    lemma_none_failed(report.samples);
}

/// Tampering with a step changes the verdict on that step alone: a run is rejected exactly where
/// the step is sampled, and names it. The resulting weight must have room to grow.
pub proof fn lemma_tamper_is_rejected_where_sampled<H: HashPort, S: SamplingPort>(
    hasher: H,
    sampler: S,
    request: SimulationRequest,
)
    requires
        sample_is_in_range(hasher, sampler, request),
        spec_tamper_applied(request) matches Some(index) && spec_run(
            hasher,
            sampler,
            request,
        ).committed_trace.entries[index as int].step.state_after@[0] < i64::MAX,
    ensures
        ({
            let report: ReportView = spec_run(hasher, sampler, request);
            let index: usize = spec_tamper_applied(request)->0;
            &&& report.sampled_indices.contains(index) ==> report.outcome
                == OutcomeView::Rejected {
                failed_indices: occurrences(report.sampled_indices, index),
            }
            &&& !report.sampled_indices.contains(index) ==> report.outcome is Accepted
        }),
{
    broadcast use model::lemma_model_len;

    let report: ReportView = spec_run(hasher, sampler, request);
    let bad: usize = spec_tamper_applied(request)->0;
    let genesis: ModelState = ModelState::spec_genesis();
    assert forall|i: int| 0 <= i < report.samples.len() implies (
    #[trigger] report.samples[i]).index == report.sampled_indices[i]
        && report.samples[i].spec_accepted() == (report.sampled_indices[i] != bad) by {
        let at: usize = report.sampled_indices[i];
        assert(at < request.steps);
        trace::lemma_honest_entry_is_accepted(hasher, genesis, request.seed, request.steps, at);
        if at == bad {
            let honest: TraceEntry = report.committed_trace.entries[bad as int];
            let weights: Seq<i64> = honest.step.state_after@;
            let raised: Seq<i64> = weights.update(0, bits::clamp_i64(weights[0] + 1));
            ModelState::lemma_of(raised);
            assert(raised[0] != weights[0]);
            assert(report.opened_trace.entries[bad as int] == tampered(honest));
            assert(tampered(honest).step.state_after@ == raised);
        } else {
            assert(report.opened_trace.entries[at as int]
                == report.committed_trace.entries[at as int]);
        }
    }
    lemma_failed_at(report.samples, report.sampled_indices, bad);
    lemma_occurrences(report.sampled_indices, bad);
}

/// After `count` honest steps from genesis no weight has moved by more than twice as much.
pub proof fn lemma_weights_stay_near_genesis<H: HashPort>(
    hasher: H,
    seed: u64,
    count: nat,
    weight: int,
)
    requires
        0 <= weight < model::MODEL_WIDTH,
    ensures
        ({
            let reached: ModelState = trace::last_state(
                ModelState::spec_genesis(),
                trace::honest_entries(hasher, ModelState::spec_genesis(), seed, count),
            );
            -2 * count <= reached@[weight] - ModelState::genesis_weights()[weight] <= 2 * count
        }),
    decreases count,
{
    let genesis: ModelState = ModelState::spec_genesis();
    ModelState::lemma_of(ModelState::genesis_weights());
    if count > 0 {
        let before: Seq<TraceEntry> = trace::honest_entries(
            hasher,
            genesis,
            seed,
            (count - 1) as nat,
        );
        lemma_weights_stay_near_genesis(hasher, seed, (count - 1) as nat, weight);
        training::lemma_step_is_small(
            seed,
            before.len() as u64,
            trace::last_state(genesis, before),
        );
    }
}

/// In a trace of ordinary length every resulting weight has room to grow.
pub proof fn lemma_tamper_is_visible<H: HashPort>(hasher: H, seed: u64, steps: usize, at: usize)
    requires
        at < steps <= 0x1000_0000_0000_0000,
    ensures
        trace::honest_trace(hasher, ModelState::spec_genesis(), seed, steps as nat).entries[
            at as int
        ].step.state_after@[0] < i64::MAX,
{
    let genesis: ModelState = ModelState::spec_genesis();
    trace::lemma_honest_prefix(hasher, genesis, seed, steps as nat, at as nat);
    trace::lemma_honest_prefix(hasher, genesis, seed, (at + 1) as nat, at as nat);
    lemma_weights_stay_near_genesis(hasher, seed, (at + 1) as nat, 0);
}

/// The deterministic sampler stays within the trace, for every request and hash function.
pub proof fn lemma_deterministic_sample_is_in_range<H: HashPort>(
    hasher: H,
    sampler: DeterministicSampler,
    request: SimulationRequest,
)
    ensures
        sample_is_in_range(hasher, sampler, request),
{
    adapters::lemma_sample_is_sound(
        request.steps,
        request.samples,
        spec_run(hasher, sampler, request).committed_trace.root,
        request.sampling_entropy,
    );
}

/// Two runs of one request with the same ports report the same.
pub proof fn lemma_run_is_deterministic<H: HashPort, S: SamplingPort>(
    hasher: H,
    sampler: S,
    request: SimulationRequest,
    first: SimulationReport,
    second: SimulationReport,
)
    requires
        first@ == spec_run(hasher, sampler, request),
        second@ == spec_run(hasher, sampler, request),
    ensures
        first@ == second@,
{
}

fn tamper_trace_step(entry: TraceEntry) -> (changed: TraceEntry)
    ensures
        changed == tampered(entry),
{
    broadcast use model::lemma_model_len;

    let mut weights: [i64; model::MODEL_WIDTH] = *entry.step.state_after.weights();
    weights[0] = bits::saturating_add(weights[0], 1);
    let mut changed: TraceEntry = entry;
    changed.step.state_after = ModelState::new(weights);
    changed
}

} // verus!
