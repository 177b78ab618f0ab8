//! One deterministic training step.

use vstd::prelude::*;

use crate::bits;
use crate::domain::model;
use crate::domain::model::{ModelState, MODEL_WIDTH};

verus! {

/// Spreads the step index over the word before it meets the seed.
pub const INDEX_SPREAD: u64 = 0x9e37_79b9_7f4a_7c15;

/// Sets the batch identifier apart from the weight choice.
pub const BATCH_SALT: u64 = 0xa076_1d64_78bd_642f;

/// Learning rate of every step, in parts per million.
pub const LEARNING_RATE_PPM: i64 = 125_000;

/// A step of training: what it read, what it changed, and the models around it.
#[derive(Clone, Copy, Debug, Eq)]
pub struct TrainingStep {
    pub index: u64,
    pub seed: u64,
    pub batch_id: u64,
    pub weight_index: usize,
    pub gradient: i64,
    pub learning_rate_ppm: i64,
    pub state_before: ModelState,
    pub state_after: ModelState,
}

impl PartialEq for TrainingStep {
    fn eq(&self, other: &Self) -> (r: bool) {
        self.index == other.index && self.seed == other.seed && self.batch_id == other.batch_id
            && self.weight_index == other.weight_index && self.gradient == other.gradient
            && self.learning_rate_ppm == other.learning_rate_ppm && self.state_before
            == other.state_before && self.state_after == other.state_after
    }
}

impl vstd::std_specs::cmp::PartialEqSpecImpl for TrainingStep {
    open spec fn obeys_eq_spec() -> bool {
        true
    }

    open spec fn eq_spec(&self, other: &Self) -> bool {
        *self == *other
    }
}

/// Integer division that rounds toward zero, for a positive divisor.
pub open spec fn quotient_toward_zero(dividend: int, divisor: int) -> int {
    if dividend >= 0 {
        dividend / divisor
    } else {
        -((-dividend) / divisor)
    }
}

/// The word that decides weight and batch of a step.
pub open spec fn step_word(seed: u64, index: u64) -> u64 {
    bits::spec_mix64(seed ^ index.wrapping_mul(INDEX_SPREAD))
}

/// The gradient accumulator after the first `count` weights have been folded in.
pub open spec fn gradient_word(
    seed: u64,
    index: u64,
    weights: Seq<i64>,
    mixed: u64,
    count: nat,
) -> u64
    decreases count,
{
    if count == 0 {
        seed.wrapping_add(bits::spec_rotate_left(index, 17))
    } else {
        let offset: nat = (count - 1) as nat;
        let lane: u64 = (weights[offset as int] as u64).wrapping_mul((offset + 3) as u64);
        bits::spec_mix64(
            gradient_word(seed, index, weights, mixed, offset) ^ lane ^ bits::spec_rotate_left(
                mixed,
                offset as u32,
            ),
        )
    }
}

/// The gradient of a step, between -20 and 20.
pub open spec fn spec_gradient(seed: u64, index: u64, state: ModelState, mixed: u64) -> i64 {
    ((gradient_word(seed, index, state@, mixed, MODEL_WIDTH as nat) % 41) - 20) as i64
}

/// How far a gradient moves the chosen weight down.
pub open spec fn weight_delta(gradient: i64) -> int {
    quotient_toward_zero(gradient * LEARNING_RATE_PPM, 1_000_000)
}

/// The weights after moving weight `at` down by `delta`, without leaving the 64-bit range.
pub open spec fn moved_weights(weights: Seq<i64>, at: int, delta: int) -> Seq<i64> {
    weights.update(at, bits::clamp_i64(weights[at] - delta))
}

/// The bytes of a step, in the order of its fields, after a tag.
pub open spec fn step_bytes(step: TrainingStep) -> Seq<u8> {
    vstd::utf8::encode_utf8("chesscoin.trace-step.v1"@) + bits::le_bytes(step.index)
        + bits::le_bytes(step.seed) + bits::le_bytes(step.batch_id) + bits::le_bytes(
        step.weight_index as u64,
    ) + bits::le_bytes(step.gradient as u64) + bits::le_bytes(step.learning_rate_ppm as u64)
        + step.state_before.spec_encode() + step.state_after.spec_encode()
}

impl TrainingStep {
    /// The step that seed, index and model determine.
    pub open spec fn spec_deterministic(
        seed: u64,
        index: u64,
        state_before: ModelState,
    ) -> TrainingStep {
        let mixed: u64 = step_word(seed, index);
        let weight_index: usize = (mixed % 8) as usize;
        let gradient: i64 = spec_gradient(seed, index, state_before, mixed);
        TrainingStep {
            index,
            seed,
            batch_id: bits::spec_mix64(mixed ^ BATCH_SALT),
            weight_index,
            gradient,
            learning_rate_ppm: LEARNING_RATE_PPM,
            state_before,
            state_after: ModelState::of(
                moved_weights(state_before@, weight_index as int, weight_delta(gradient)),
            ),
        }
    }

    /// The step that seed, index and model determine.
    pub fn deterministic(seed: u64, index: u64, state_before: &ModelState) -> (step: Self)
        ensures
            step == TrainingStep::spec_deterministic(seed, index, *state_before),
    {
        broadcast use model::lemma_model_len;

        let mixed: u64 = bits::mix64(seed ^ index.wrapping_mul(INDEX_SPREAD));
        let weight_index: usize = (mixed % 8) as usize;
        let batch_id: u64 = bits::mix64(mixed ^ BATCH_SALT);
        let gradient: i64 = deterministic_gradient(seed, index, state_before, mixed);

        let mut next_weights: [i64; MODEL_WIDTH] = *state_before.weights();
        let delta: i64 = (gradient * LEARNING_RATE_PPM) / 1_000_000;
        next_weights[weight_index] = bits::saturating_sub(next_weights[weight_index], delta);
        assert(next_weights@ =~= moved_weights(
            state_before@,
            weight_index as int,
            weight_delta(gradient),
        ));

        TrainingStep {
            index,
            seed,
            batch_id,
            weight_index,
            gradient,
            learning_rate_ppm: LEARNING_RATE_PPM,
            state_before: *state_before,
            state_after: ModelState::new(next_weights),
        }
    }

    /// The bytes under which the step enters a commitment.
    pub fn encode(&self) -> (bytes: Vec<u8>)
        ensures
            bytes@ == step_bytes(*self),
    {
        let mut out: Vec<u8> = Vec::with_capacity(256);
        out.extend_from_slice("chesscoin.trace-step.v1".as_bytes());
        assert(out@ =~= vstd::utf8::encode_utf8("chesscoin.trace-step.v1"@));
        bits::push_le_bytes(&mut out, self.index);
        bits::push_le_bytes(&mut out, self.seed);
        bits::push_le_bytes(&mut out, self.batch_id);
        bits::push_le_bytes(&mut out, self.weight_index as u64);
        bits::push_le_bytes(&mut out, #[verifier::truncate] (self.gradient as u64));
        bits::push_le_bytes(&mut out, #[verifier::truncate] (self.learning_rate_ppm as u64));
        self.state_before.encode(&mut out);
        self.state_after.encode(&mut out);
        out
    }
}

fn deterministic_gradient(seed: u64, index: u64, state: &ModelState, mixed: u64) -> (gradient: i64)
    ensures
        gradient == spec_gradient(seed, index, *state, mixed),
        -20 <= gradient <= 20,
{
    broadcast use model::lemma_model_len;

    let weights: &[i64; MODEL_WIDTH] = state.weights();
    let mut accumulator: u64 = seed.wrapping_add(bits::rotate_left(index, 17));
    let mut offset: usize = 0;
    while offset < MODEL_WIDTH
        invariant
            offset <= MODEL_WIDTH,
            weights@ == state@,
            accumulator == gradient_word(seed, index, state@, mixed, offset as nat),
        decreases MODEL_WIDTH - offset,
    {
        let weight: i64 = weights[offset];
        let lane: u64 = (#[verifier::truncate] (weight as u64)).wrapping_mul(offset as u64 + 3);
        accumulator = bits::mix64(accumulator ^ lane ^ bits::rotate_left(mixed, offset as u32));
        offset += 1;
    }
    ((accumulator % 41) as i64) - 20
}

/// A step moves one weight by at most two and leaves the others alone.
pub proof fn lemma_step_is_small(seed: u64, index: u64, state_before: ModelState)
    ensures
        ({
            let step: TrainingStep = TrainingStep::spec_deterministic(seed, index, state_before);
            &&& step.weight_index < MODEL_WIDTH
            &&& -20 <= step.gradient <= 20
            &&& forall|i: int|
                0 <= i < MODEL_WIDTH && i != step.weight_index ==> #[trigger] step.state_after@[i]
                    == state_before@[i]
            &&& -2 <= step.state_after@[step.weight_index as int]
                - state_before@[step.weight_index as int] <= 2
        }),
{
    broadcast use model::lemma_model_len;

    let step: TrainingStep = TrainingStep::spec_deterministic(seed, index, state_before);
    ModelState::lemma_of(
        moved_weights(state_before@, step.weight_index as int, weight_delta(step.gradient)),
    );
}

} // verus!
