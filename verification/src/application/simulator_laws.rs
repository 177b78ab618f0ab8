//! What a simulation reports, told from the request and the ports.

use vstd::prelude::*;

use crate::application::simulator;
use crate::application::simulator::{ReportView, SimulationRequest};
use crate::application::trace;
use crate::application::trace_laws;
use crate::bits;
use crate::domain::block::{OutcomeView, TraceView};
use crate::domain::digest;
use crate::domain::model;
use crate::domain::{Digest, ModelState, TraceEntry, TrainingStep, VerificationSample};
use crate::ports::{HashPort, SamplingPort};

verus! {

/// Every chain starts from these eight weights, and from a hash of zero bytes.
pub proof fn lemma_genesis_values()
    ensures
        ModelState::spec_genesis()@ == seq![
            120i64,
            -80i64,
            45i64,
            210i64,
            -135i64,
            65i64,
            15i64,
            -30i64,
        ],
        forall|i: int| 0 <= i < 32 ==> #[trigger] Digest::spec_zero()@[i] == 0,
{
    broadcast use digest::lemma_digest_len;

    ModelState::lemma_of(ModelState::genesis_weights());
    Digest::lemma_of(Seq::new(32, |i: int| 0u8));
}

/// The two entries differ in one place: the first weight of the resulting model, which has grown by
/// one, unless it is the greatest there is.
pub open spec fn is_tampered(before: TraceEntry, after: TraceEntry) -> bool {
    &&& after.previous_commitment == before.previous_commitment
    &&& after.commitment == before.commitment
    &&& after.step.index == before.step.index
    &&& after.step.seed == before.step.seed
    &&& after.step.batch_id == before.step.batch_id
    &&& after.step.weight_index == before.step.weight_index
    &&& after.step.gradient == before.step.gradient
    &&& after.step.learning_rate_ppm == before.step.learning_rate_ppm
    &&& after.step.state_before == before.step.state_before
    &&& forall|i: int|
        1 <= i < 8 ==> #[trigger] after.step.state_after@[i] == before.step.state_after@[i]
    &&& after.step.state_after@[0] - before.step.state_after@[0] == if before.step.state_after@[0]
        == i64::MAX {
        0int
    } else {
        1int
    }
}

/// The opened trace is the committed one, but for the tampered entry, where there is one.
pub open spec fn is_opened(committed: TraceView, opened: TraceView, tamper: Option<usize>) -> bool {
    &&& opened.initial_model == committed.initial_model
    &&& opened.candidate_model == committed.candidate_model
    &&& opened.root == committed.root
    &&& opened.entries.len() == committed.entries.len()
    &&& forall|i: int|
        #![trigger opened.entries[i]]
        0 <= i < opened.entries.len() ==> if tamper is Some && tamper->0 == i {
            is_tampered(committed.entries[i], opened.entries[i])
        } else {
            opened.entries[i] == committed.entries[i]
        }
}

/// The positions, in increasing order, at which a sample did not pass, name the failed indices.
pub open spec fn names_failures(
    samples: Seq<VerificationSample>,
    failed: Seq<usize>,
    positions: Seq<int>,
) -> bool {
    &&& positions.len() == failed.len()
    &&& forall|j: int, k: int| 0 <= j < k < positions.len() ==> positions[j] < positions[k]
    &&& forall|k: int|
        0 <= k < positions.len() ==> {
            &&& 0 <= #[trigger] positions[k] < samples.len()
            &&& failed[k] == samples[positions[k]].index
        }
    &&& forall|i: int|
        0 <= i < samples.len() ==> (positions.contains(i) <==> !((
        #[trigger] samples[i]).commitment_ok && samples[i].transition_ok))
}

/// Where the failures stand.
spec fn failure_positions(samples: Seq<VerificationSample>) -> Seq<int>
    decreases samples.len(),
{
    if samples.len() == 0 {
        Seq::empty()
    } else if samples.last().commitment_ok && samples.last().transition_ok {
        failure_positions(samples.drop_last())
    } else {
        failure_positions(samples.drop_last()).push(samples.len() - 1)
    }
}

proof fn lemma_failures_are_named(samples: Seq<VerificationSample>)
    ensures
        names_failures(samples, simulator::failed(samples), failure_positions(samples)),
    decreases samples.len(),
{
    let positions: Seq<int> = failure_positions(samples);
    if samples.len() > 0 {
        let fewer: Seq<VerificationSample> = samples.drop_last();
        let before: Seq<int> = failure_positions(fewer);
        lemma_failures_are_named(fewer);
        assert forall|k: int| 0 <= k < positions.len() implies {
            &&& 0 <= #[trigger] positions[k] < samples.len()
            &&& simulator::failed(samples)[k] == samples[positions[k]].index
        } by {
            if k < before.len() {
                assert(positions[k] == before[k]);
                assert(fewer[before[k]] == samples[before[k]]);
            }
        }
        assert forall|i: int| 0 <= i < samples.len() implies (positions.contains(i) <==> !((
        #[trigger] samples[i]).commitment_ok && samples[i].transition_ok)) by {
            if i < fewer.len() {
                assert(fewer[i] == samples[i]);
                if positions.contains(i) {
                    let k: int = choose|k: int| 0 <= k < positions.len() && positions[k] == i;
                    assert(before[k] == i);
                }
                if before.contains(i) {
                    let k: int = choose|k: int| 0 <= k < before.len() && before[k] == i;
                    assert(positions[k] == i);
                }
            } else {
                if positions.len() > before.len() {
                    assert(positions[before.len() as int] == i);
                } else if positions.contains(i) {
                    let k: int = choose|k: int| 0 <= k < before.len() && before[k] == i;
                    assert(before[k] < fewer.len());
                }
            }
        }
    }
}

/// How a list of samples ends: accepted where all of them passed, else with the indices of those
/// that did not, in their order.
pub open spec fn is_outcome(samples: Seq<VerificationSample>, outcome: OutcomeView) -> bool {
    match outcome {
        OutcomeView::Accepted => forall|i: int|
            0 <= i < samples.len() ==> (#[trigger] samples[i]).commitment_ok
                && samples[i].transition_ok,
        OutcomeView::Rejected { failed_indices } => {
            &&& failed_indices.len() > 0
            &&& exists|positions: Seq<int>| #[trigger]
                names_failures(samples, failed_indices, positions)
        },
    }
}

/// What every run reports: an honest trace from the genesis model, the trace as it is opened, what
/// the sampler gives for its root, a check of each sampled step and how that ends.
pub proof fn lemma_run_is_reported<H: HashPort, S: SamplingPort>(
    hasher: H,
    sampler: S,
    request: SimulationRequest,
)
    ensures
        ({
            let report: ReportView = simulator::spec_run(hasher, sampler, request);
            let committed: TraceView = report.committed_trace;
            &&& committed.entries.len() == request.steps
            &&& committed.initial_model == ModelState::spec_genesis()
            &&& committed.candidate_model == if request.steps == 0 {
                ModelState::spec_genesis()
            } else {
                committed.entries[request.steps - 1].step.state_after
            }
            &&& committed.root == if request.steps == 0 {
                Digest::spec_zero()
            } else {
                committed.entries[request.steps - 1].commitment
            }
            &&& trace_laws::is_honest_run(
                hasher,
                ModelState::spec_genesis(),
                request.seed,
                committed.entries,
            )
            &&& forall|index: usize|
                report.tamper_applied == Some(index) <==> request.tamper_step == Some(index)
                    && index < request.steps
            &&& is_opened(committed, report.opened_trace, report.tamper_applied)
            &&& report.sampled_indices == sampler.spec_sample_indices(
                request.steps,
                request.samples,
                committed.root,
                request.sampling_entropy,
            )
            &&& report.samples.len() == report.sampled_indices.len()
            &&& is_outcome(report.samples, report.outcome)
        }),
{
    let report: ReportView = simulator::spec_run(hasher, sampler, request);
    let committed: TraceView = report.committed_trace;
    trace_laws::lemma_trace_is_honest_throughout(
        hasher,
        ModelState::spec_genesis(),
        request.seed,
        request.steps,
    );
    lemma_opening(committed, report.tamper_applied);
    lemma_outcome(report.samples);
}

proof fn lemma_opening(committed: TraceView, tamper: Option<usize>)
    requires
        tamper matches Some(index) ==> index < committed.entries.len(),
    ensures
        is_opened(committed, simulator::opened(committed, tamper), tamper),
{
    broadcast use model::lemma_model_len;

    let opened: TraceView = simulator::opened(committed, tamper);
    if tamper is Some {
        let before: TraceEntry = committed.entries[tamper->0 as int];
        let weights: Seq<i64> = before.step.state_after@;
        let raised: Seq<i64> = weights.update(0, bits::clamp_i64(weights[0] + 1));
        ModelState::lemma_of(raised);
        assert(simulator::tampered(before).step.state_after@ == raised);
        assert(is_tampered(before, simulator::tampered(before)));
    }
}

proof fn lemma_outcome(samples: Seq<VerificationSample>)
    ensures
        is_outcome(samples, simulator::outcome_of(samples)),
{
    lemma_failures_are_named(samples);
    let positions: Seq<int> = failure_positions(samples);
    if positions.len() == 0 {
        assert forall|i: int| 0 <= i < samples.len() implies (#[trigger] samples[i]).commitment_ok
            && samples[i].transition_ok by {
            assert(!positions.contains(i));
        }
    } else {
        assert(names_failures(samples, simulator::failed(samples), positions));
        assert(simulator::outcome_of(samples)->failed_indices == simulator::failed(samples));
    }
}

/// Every sampled step of a run is checked, by itself: the transition passes exactly where the
/// opened step is the honest one of that position in every field, and the commitment exactly where
/// the opened entry is bound to what was committed to.
#[verifier::rlimit(50)]
pub proof fn lemma_every_sample_is_checked<H: HashPort, S: SamplingPort>(
    hasher: H,
    sampler: S,
    request: SimulationRequest,
    at: int,
)
    requires
        0 <= at < simulator::spec_run(hasher, sampler, request).sampled_indices.len(),
    ensures
        ({
            let report: ReportView = simulator::spec_run(hasher, sampler, request);
            let index: usize = report.sampled_indices[at];
            let committed: TraceEntry = report.committed_trace.entries[index as int];
            let opened: TraceEntry = report.opened_trace.entries[index as int];
            let sample: VerificationSample = report.samples[at];
            &&& sample.index == index
            &&& sample.transition_ok <==> opened.step.index as usize == index
                && trace_laws::same_step(
                opened.step,
                TrainingStep::spec_deterministic(
                    request.seed,
                    opened.step.index,
                    opened.step.state_before,
                ),
            )
            &&& sample.commitment_ok <==> opened.previous_commitment
                == committed.previous_commitment && opened.commitment == committed.commitment
                && committed.commitment == trace::spec_commit(
                hasher,
                committed.previous_commitment,
                opened.step,
            )
        }),
{
}

} // verus!
