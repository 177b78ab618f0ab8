//! Boundaries for replaceable infrastructure: hashing and sampling.

use vstd::prelude::*;

use crate::domain::Digest;

verus! {

/// A hash function. What it gives depends on the bytes alone.
pub trait HashPort {
    /// The digest of `bytes`.
    spec fn spec_digest(&self, bytes: Seq<u8>) -> Digest;

    fn digest(&self, bytes: &[u8]) -> (digest: Digest)
        ensures
            digest == self.spec_digest(bytes@),
    ;
}

impl<T> HashPort for &T where T: HashPort + ?Sized {
    open spec fn spec_digest(&self, bytes: Seq<u8>) -> Digest {
        (**self).spec_digest(bytes)
    }

    fn digest(&self, bytes: &[u8]) -> (digest: Digest) {
        (**self).digest(bytes)
    }
}

/// A choice of trace steps to check. What it gives depends on its arguments alone.
pub trait SamplingPort {
    /// The indices that are sampled.
    spec fn spec_sample_indices(
        &self,
        trace_len: usize,
        sample_count: usize,
        trace_root: Digest,
        entropy: u64,
    ) -> Seq<usize>;

    fn sample_indices(
        &self,
        trace_len: usize,
        sample_count: usize,
        trace_root: Digest,
        entropy: u64,
    ) -> (indices: Vec<usize>)
        ensures
            indices@ == self.spec_sample_indices(trace_len, sample_count, trace_root, entropy),
    ;
}

impl<T> SamplingPort for &T where T: SamplingPort + ?Sized {
    open spec fn spec_sample_indices(
        &self,
        trace_len: usize,
        sample_count: usize,
        trace_root: Digest,
        entropy: u64,
    ) -> Seq<usize> {
        (**self).spec_sample_indices(trace_len, sample_count, trace_root, entropy)
    }

    fn sample_indices(
        &self,
        trace_len: usize,
        sample_count: usize,
        trace_root: Digest,
        entropy: u64,
    ) -> (indices: Vec<usize>) {
        (**self).sample_indices(trace_len, sample_count, trace_root, entropy)
    }
}

} // verus!
