//! Traces, blocks and the outcome of checking them.

use vstd::prelude::*;

use crate::bits;
use crate::domain::digest::Digest;
use crate::domain::model::ModelState;
use crate::domain::training::TrainingStep;

verus! {

/// The header of a block: what its hash covers.
#[derive(Clone, Copy, Debug, PartialEq, Eq)]
pub struct BlockHeader {
    pub height: u64,
    pub previous_block: Digest,
    pub model_before: ModelState,
    pub model_after: ModelState,
    pub trace_root: Digest,
    pub training_seed: u64,
    pub sampling_entropy: u64,
    pub sample_count: usize,
    pub nonce: u64,
}

/// The bytes of a header, in the order of its fields, after a tag.
pub open spec fn header_bytes(header: BlockHeader) -> Seq<u8> {
    vstd::utf8::encode_utf8("chesscoin.block-header.v1"@) + bits::le_bytes(header.height)
        + header.previous_block@ + header.model_before.spec_encode()
        + header.model_after.spec_encode() + header.trace_root@ + bits::le_bytes(
        header.training_seed,
    ) + bits::le_bytes(header.sampling_entropy) + bits::le_bytes(header.sample_count as u64)
        + bits::le_bytes(header.nonce)
}

impl BlockHeader {
    /// The bytes of the header.
    pub fn encode(&self) -> (bytes: Vec<u8>)
        ensures
            bytes@ == header_bytes(*self),
    {
        let mut out: Vec<u8> = Vec::with_capacity(256);
        out.extend_from_slice("chesscoin.block-header.v1".as_bytes());
        assert(out@ =~= vstd::utf8::encode_utf8("chesscoin.block-header.v1"@));
        bits::push_le_bytes(&mut out, self.height);
        self.previous_block.append_to(&mut out);
        self.model_before.encode(&mut out);
        self.model_after.encode(&mut out);
        self.trace_root.append_to(&mut out);
        bits::push_le_bytes(&mut out, self.training_seed);
        bits::push_le_bytes(&mut out, self.sampling_entropy);
        bits::push_le_bytes(&mut out, self.sample_count as u64);
        bits::push_le_bytes(&mut out, self.nonce);
        out
    }
}

/// A step of a trace, bound to the commitment before it.
#[derive(Clone, Copy, Debug, PartialEq, Eq)]
pub struct TraceEntry {
    pub previous_commitment: Digest,
    pub step: TrainingStep,
    pub commitment: Digest,
}

/// A whole training run: the models at its ends, its steps, and the last commitment.
#[derive(Debug, PartialEq, Eq)]
pub struct TrainingTrace {
    pub initial_model: ModelState,
    pub candidate_model: ModelState,
    pub entries: Vec<TraceEntry>,
    pub root: Digest,
}

/// What a trace holds.
#[verifier::ext_equal]
pub struct TraceView {
    pub initial_model: ModelState,
    pub candidate_model: ModelState,
    pub entries: Seq<TraceEntry>,
    pub root: Digest,
}

impl View for TrainingTrace {
    type V = TraceView;

    open spec fn view(&self) -> TraceView {
        TraceView {
            initial_model: self.initial_model,
            candidate_model: self.candidate_model,
            entries: self.entries@,
            root: self.root,
        }
    }
}

impl Clone for TrainingTrace {
    fn clone(&self) -> (copy: Self)
        ensures
            copy@ == self@,
    {
        TrainingTrace {
            initial_model: self.initial_model,
            candidate_model: self.candidate_model,
            entries: copy_entries(&self.entries),
            root: self.root,
        }
    }
}

fn copy_entries(entries: &Vec<TraceEntry>) -> (copy: Vec<TraceEntry>)
    ensures
        copy@ == entries@,
{
    let mut copy: Vec<TraceEntry> = Vec::with_capacity(entries.len());
    let mut index: usize = 0;
    while index < entries.len()
        invariant
            index <= entries@.len(),
            copy@ == entries@.take(index as int),
        decreases entries@.len() - index,
    {
        copy.push(entries[index]);
        index += 1;
        assert(entries@.take(index as int) =~= entries@.take(index - 1).push(entries@[index - 1]));
    }
    assert(entries@.take(index as int) =~= entries@);
    copy
}

/// A block: a header and the trace it commits to.
#[derive(Debug, PartialEq, Eq)]
pub struct Block {
    pub header: BlockHeader,
    pub trace: TrainingTrace,
}

/// What a block holds.
#[verifier::ext_equal]
pub struct BlockView {
    pub header: BlockHeader,
    pub trace: TraceView,
}

impl View for Block {
    type V = BlockView;

    open spec fn view(&self) -> BlockView {
        BlockView { header: self.header, trace: self.trace@ }
    }
}

impl Clone for Block {
    fn clone(&self) -> (copy: Self)
        ensures
            copy@ == self@,
    {
        Block { header: self.header, trace: self.trace.clone() }
    }
}

/// The verdict on one sampled step.
#[derive(Clone, Copy, Debug, PartialEq, Eq, Structural)]
pub struct VerificationSample {
    pub index: usize,
    pub commitment_ok: bool,
    pub transition_ok: bool,
}

impl VerificationSample {
    pub open spec fn spec_accepted(self) -> bool {
        self.commitment_ok && self.transition_ok
    }

    /// Whether both the commitment and the transition held.
    pub fn accepted(&self) -> (accepted: bool)
        ensures
            accepted == self.spec_accepted(),
    {
        self.commitment_ok && self.transition_ok
    }
}

/// The verdict on a whole opening.
#[derive(Debug, PartialEq, Eq)]
pub enum VerificationOutcome {
    Accepted,
    Rejected { failed_indices: Vec<usize> },
}

/// What an outcome tells: the failed indices, where there are any.
pub enum OutcomeView {
    Accepted,
    Rejected { failed_indices: Seq<usize> },
}

impl View for VerificationOutcome {
    type V = OutcomeView;

    open spec fn view(&self) -> OutcomeView {
        match self {
            VerificationOutcome::Accepted => OutcomeView::Accepted,
            VerificationOutcome::Rejected { failed_indices } => OutcomeView::Rejected {
                failed_indices: failed_indices@,
            },
        }
    }
}

impl Clone for VerificationOutcome {
    fn clone(&self) -> (copy: Self)
        ensures
            copy@ == self@,
    {
        match self {
            VerificationOutcome::Accepted => VerificationOutcome::Accepted,
            VerificationOutcome::Rejected { failed_indices } => {
                let copied: Vec<usize> = failed_indices.clone();
                assert(copied@ =~= failed_indices@);
                VerificationOutcome::Rejected { failed_indices: copied }
            },
        }
    }
}

impl VerificationOutcome {
    pub fn is_accepted(&self) -> (accepted: bool)
        ensures
            accepted == (self@ is Accepted),
    {
        matches!(self, VerificationOutcome::Accepted)
    }
}

} // verus!
