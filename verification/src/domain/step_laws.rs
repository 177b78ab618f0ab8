//! What a training step does, told from the numbers it reads and changes.

use vstd::prelude::*;

use crate::bits;
use crate::domain::model;
use crate::domain::training;
use crate::domain::{ModelState, TrainingStep, MODEL_WIDTH};
use crate::word_laws;

verus! {

/// The word that a step draws its choices from: the mix of the seed and the spread index.
pub open spec fn is_drawn(seed: u64, index: u64, drawn: u64) -> bool {
    word_laws::unmixed(drawn) == seed ^ word_laws::word(index * 0x9e37_79b9_7f4a_7c15)
}

/// For every seed, index and model: the weight that a step changes is the drawn word modulo eight,
/// its batch is mixed from the drawn word and a salt, and it names what it was made from.
pub proof fn lemma_step_choices(seed: u64, index: u64, state: ModelState, drawn: u64)
    requires
        is_drawn(seed, index, drawn),
    ensures
        ({
            let step: TrainingStep = TrainingStep::spec_deterministic(seed, index, state);
            &&& step.index == index
            &&& step.seed == seed
            &&& step.state_before == state
            &&& step.weight_index == drawn as int % 8
            &&& word_laws::unmixed(step.batch_id) == drawn ^ 0xa076_1d64_78bd_642f
            &&& step.learning_rate_ppm == 125_000
        }),
{
    word_laws::lemma_wrapping_is_modular(index, 0x9e37_79b9_7f4a_7c15);
    word_laws::lemma_mixing_reaches(drawn);
    word_laws::lemma_mixing_is_undone(drawn ^ 0xa076_1d64_78bd_642f);
}

/// Nine words, each of which is mixed from the one before it, the next weight and the drawn word;
/// the first comes from seed and index.
pub open spec fn folds_weights(
    seed: u64,
    index: u64,
    state: ModelState,
    drawn: u64,
    folds: Seq<u64>,
) -> bool {
    &&& folds.len() == 9
    &&& folds[0] == word_laws::word(seed + word_laws::turned(index, 17))
    &&& forall|k: int|
        0 <= k < MODEL_WIDTH ==> word_laws::unmixed(#[trigger] folds[k + 1]) == folds[k]
            ^ word_laws::word(state@[k] * (k + 3)) ^ word_laws::turned(drawn, k as nat)
}

/// One weight more has been folded in.
proof fn lemma_fold(
    seed: u64,
    index: u64,
    state: ModelState,
    drawn: u64,
    folds: Seq<u64>,
    count: nat,
)
    requires
        folds_weights(seed, index, state, drawn, folds),
        count <= MODEL_WIDTH,
    ensures
        training::gradient_word(seed, index, state@, drawn, count) == folds[count as int],
    decreases count,
{
    if count == 0 {
        word_laws::lemma_turning_moves_bits(index, 17);
        word_laws::lemma_wrapping_is_modular(seed, word_laws::turned(index, 17));
    } else {
        let k: int = count - 1;
        lemma_fold(seed, index, state, drawn, folds, k as nat);
        let weight: i64 = state@[k];
        let lane: u64 = (weight as u64).wrapping_mul((k + 3) as u64);
        word_laws::lemma_two_complement(weight);
        word_laws::lemma_wrapping_is_modular(weight as u64, (k + 3) as u64);
        vstd::arithmetic::div_mod::lemma_mul_mod_noop_left(
            weight as int,
            k + 3,
            word_laws::word_range(),
        );
        assert(lane == word_laws::word(weight * (k + 3)));
        word_laws::lemma_turning_moves_bits(drawn, k as u32);
        word_laws::lemma_mixing_reaches(folds[k + 1]);
        assert(word_laws::unmixed(folds[k + 1]) == folds[k] ^ lane ^ word_laws::turned(
            drawn,
            k as nat,
        ));
    }
}

/// For every seed, index and model alike: the gradient, raised by 20, is what the last word that
/// the weights are folded into leaves modulo 41.
pub proof fn lemma_gradient_is_remainder(
    seed: u64,
    index: u64,
    state: ModelState,
    drawn: u64,
    folds: Seq<u64>,
)
    requires
        is_drawn(seed, index, drawn),
        folds_weights(seed, index, state, drawn, folds),
    ensures
        TrainingStep::spec_deterministic(seed, index, state).gradient + 20 == folds[8] as int % 41,
{
    word_laws::lemma_wrapping_is_modular(index, 0x9e37_79b9_7f4a_7c15);
    word_laws::lemma_mixing_reaches(drawn);
    lemma_fold(seed, index, state, drawn, folds, 8);
}

/// Every seed, index and model has a drawn word and nine words that fold its weights.
pub proof fn lemma_weights_can_be_folded(seed: u64, index: u64, state: ModelState) -> (made: (
    u64,
    Seq<u64>,
))
    ensures
        is_drawn(seed, index, made.0),
        folds_weights(seed, index, state, made.0, made.1),
{
    let drawn: u64 = bits::spec_mix64(seed ^ word_laws::word(index * 0x9e37_79b9_7f4a_7c15));
    word_laws::lemma_mixing_is_undone(seed ^ word_laws::word(index * 0x9e37_79b9_7f4a_7c15));
    let folds: Seq<u64> = folded(seed, index, state, drawn, 8);
    lemma_folded(seed, index, state, drawn, 8);
    (drawn, folds)
}

/// The words that fold the first weights.
spec fn folded(seed: u64, index: u64, state: ModelState, drawn: u64, count: nat) -> Seq<u64>
    decreases count,
{
    if count == 0 {
        seq![word_laws::word(seed + word_laws::turned(index, 17))]
    } else {
        let before: Seq<u64> = folded(seed, index, state, drawn, (count - 1) as nat);
        let k: int = count - 1;
        before.push(
            bits::spec_mix64(
                before.last() ^ word_laws::word(state@[k] * (k + 3)) ^ word_laws::turned(
                    drawn,
                    k as nat,
                ),
            ),
        )
    }
}

proof fn lemma_folded(seed: u64, index: u64, state: ModelState, drawn: u64, count: nat)
    ensures
        ({
            let folds: Seq<u64> = folded(seed, index, state, drawn, count);
            &&& folds.len() == count + 1
            &&& folds[0] == word_laws::word(seed + word_laws::turned(index, 17))
            &&& forall|k: int|
                0 <= k < count ==> word_laws::unmixed(#[trigger] folds[k + 1]) == folds[k]
                    ^ word_laws::word(state@[k] * (k + 3)) ^ word_laws::turned(drawn, k as nat)
        }),
    decreases count,
{
    if count > 0 {
        let before: Seq<u64> = folded(seed, index, state, drawn, (count - 1) as nat);
        let folds: Seq<u64> = folded(seed, index, state, drawn, count);
        lemma_folded(seed, index, state, drawn, (count - 1) as nat);
        let last: int = count - 1;
        word_laws::lemma_mixing_is_undone(
            before.last() ^ word_laws::word(state@[last] * (last + 3)) ^ word_laws::turned(
                drawn,
                last as nat,
            ),
        );
        assert forall|k: int| 0 <= k < count implies word_laws::unmixed(#[trigger] folds[k + 1])
            == folds[k] ^ word_laws::word(state@[k] * (k + 3)) ^ word_laws::turned(
            drawn,
            k as nat,
        ) by {
            if k < last {
                assert(folds[k + 1] == before[k + 1]);
                assert(folds[k] == before[k]);
            }
        }
    }
}

/// For every seed, index and model alike: a step lowers the chosen weight by an eighth of its
/// gradient, cut off toward zero and within the 64-bit bounds, and leaves the other weights alone.
pub proof fn lemma_step_lowers_weight(seed: u64, index: u64, state: ModelState, delta: int)
    requires
        ({
            let gradient: int = TrainingStep::spec_deterministic(
                seed,
                index,
                state,
            ).gradient as int;
            ||| gradient >= 0 && 8 * delta <= gradient < 8 * delta + 8
            ||| gradient <= 0 && 8 * delta - 8 < gradient <= 8 * delta
        }),
    ensures
        ({
            let step: TrainingStep = TrainingStep::spec_deterministic(seed, index, state);
            let at: int = step.weight_index as int;
            let lowered: int = state@[at] - delta;
            &&& i64::MIN <= lowered <= i64::MAX ==> step.state_after@[at] == lowered
            &&& lowered > i64::MAX ==> step.state_after@[at] == i64::MAX
            &&& lowered < i64::MIN ==> step.state_after@[at] == i64::MIN
            &&& forall|i: int|
                0 <= i < MODEL_WIDTH && i != at ==> #[trigger] step.state_after@[i] == state@[i]
            &&& step.state_after@.len() == MODEL_WIDTH
        }),
{
    broadcast use model::lemma_model_len;

    let step: TrainingStep = TrainingStep::spec_deterministic(seed, index, state);
    let at: int = step.weight_index as int;
    ModelState::lemma_of(
        training::moved_weights(state@, at, training::weight_delta(step.gradient)),
    );
    let gradient: int = step.gradient as int;
    assert(training::weight_delta(step.gradient) == delta);
}

} // verus!
