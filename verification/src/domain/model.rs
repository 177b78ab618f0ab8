//! The model under training: a fixed number of integer weights.

use vstd::prelude::*;

use crate::bits;
use crate::decimal;
use crate::text;

verus! {

/// Number of weights in a model.
pub const MODEL_WIDTH: usize = 8;

/// The weights of the chess model.
#[derive(Clone, Copy, Debug, Eq)]
pub struct ModelState {
    weights: [i64; MODEL_WIDTH],
}

/// A model is its eight weights.
impl View for ModelState {
    type V = Seq<i64>;

    closed spec fn view(&self) -> Seq<i64> {
        self.weights@
    }
}

impl PartialEq for ModelState {
    fn eq(&self, other: &Self) -> (r: bool) {
        let mut i: usize = 0;
        while i < MODEL_WIDTH
            invariant
                i <= MODEL_WIDTH,
                forall|j: int| 0 <= j < i ==> self@[j] == other@[j],
            decreases MODEL_WIDTH - i,
        {
            if self.weights[i] != other.weights[i] {
                return false;
            }
            i += 1;
        }
        proof {
            assert(self@ =~= other@);
            lemma_model_ext(*self, *other);
        }
        true
    }
}

impl vstd::std_specs::cmp::PartialEqSpecImpl for ModelState {
    open spec fn obeys_eq_spec() -> bool {
        true
    }

    open spec fn eq_spec(&self, other: &Self) -> bool {
        *self == *other
    }
}

/// A model has eight weights.
pub broadcast proof fn lemma_model_len(model: ModelState)
    ensures
        (#[trigger] model@).len() == MODEL_WIDTH,
{
}

/// Two models with the same weights are the same model.
pub proof fn lemma_model_ext(left: ModelState, right: ModelState)
    requires
        left@ == right@,
    ensures
        left == right,
{
    assert(left.weights =~= right.weights) by {
        assert forall|i: int| 0 <= i < MODEL_WIDTH implies left.weights[i] == right.weights[i] by {
            assert(left.weights@[i] == right.weights@[i]);
        }
    }
}

/// The bytes of `weights`, eight a weight in two's complement, least significant first.
pub open spec fn weight_bytes(weights: Seq<i64>) -> Seq<u8> {
    Seq::new(8 * weights.len(), |i: int| bits::byte_at(weights[i / 8] as u64, i % 8))
}

/// The decimal texts of `weights`.
pub open spec fn weight_texts(weights: Seq<i64>) -> Seq<Seq<char>> {
    weights.map_values(|weight: i64| decimal::int_text(weight as int))
}

/// The decimal texts of `weights`, with `separator` between neighbours.
pub open spec fn joined_weights(weights: Seq<i64>, separator: Seq<char>) -> Seq<char> {
    text::join(weight_texts(weights), separator)
}

impl ModelState {
    /// The model with the given eight weights.
    pub closed spec fn of(w: Seq<i64>) -> ModelState {
        ModelState { weights: [w[0], w[1], w[2], w[3], w[4], w[5], w[6], w[7]] }
    }

    /// `of` gives the model whose weights these are.
    pub proof fn lemma_of(w: Seq<i64>)
        requires
            w.len() == MODEL_WIDTH,
        ensures
            ModelState::of(w)@ == w,
    {
        assert(ModelState::of(w)@ =~= w);
    }

    /// The weights that every chain starts from.
    pub open spec fn genesis_weights() -> Seq<i64> {
        seq![120i64, -80i64, 45i64, 210i64, -135i64, 65i64, 15i64, -30i64]
    }

    /// The model that every chain starts from.
    pub open spec fn spec_genesis() -> ModelState {
        ModelState::of(ModelState::genesis_weights())
    }

    /// The 64 bytes under which the model enters a commitment.
    pub open spec fn spec_encode(self) -> Seq<u8> {
        weight_bytes(self@)
    }

    /// The model with the given weights.
    pub fn new(weights: [i64; MODEL_WIDTH]) -> (model: Self)
        ensures
            model@ == weights@,
            model == ModelState::of(weights@),
    {
        let model: ModelState = ModelState { weights };
        proof {
            ModelState::lemma_of(weights@);
            lemma_model_ext(model, ModelState::of(weights@));
        }
        model
    }

    /// The model that every chain starts from.
    pub fn genesis() -> (model: Self)
        ensures
            model == ModelState::spec_genesis(),
            model@ == ModelState::genesis_weights(),
    {
        let model: ModelState = ModelState { weights: [120, -80, 45, 210, -135, 65, 15, -30] };
        proof {
            let weights: Seq<i64> = ModelState::genesis_weights();
            ModelState::lemma_of(weights);
            assert(model@ =~= weights);
            lemma_model_ext(model, ModelState::of(weights));
        }
        model
    }

    pub fn weights(&self) -> (weights: &[i64; MODEL_WIDTH])
        ensures
            weights@ == self@,
    {
        &self.weights
    }

    /// Appends the 64 bytes under which the model enters a commitment.
    pub fn encode(&self, out: &mut Vec<u8>)
        ensures
            final(out)@ == old(out)@ + self.spec_encode(),
    {
        let mut i: usize = 0;
        while i < MODEL_WIDTH
            invariant
                i <= MODEL_WIDTH,
                out@ == old(out)@ + self.spec_encode().take(8 * i),
            decreases MODEL_WIDTH - i,
        {
            let weight: i64 = self.weights[i];
            bits::push_le_bytes(out, #[verifier::truncate] (weight as u64));
            i += 1;
            assert(self.spec_encode().take(8 * i) =~= self.spec_encode().take(8 * i - 8)
                + bits::le_bytes(weight as u64));
        }
        assert(self.spec_encode().take(64) =~= self.spec_encode());
    }

    /// The weights in decimal, with `separator` between neighbours.
    pub fn join_weights(&self, separator: &str) -> (text: String)
        ensures
            text@ == joined_weights(self@, separator@),
    {
        let mut out: String = String::new();
        let mut i: usize = 0;
        while i < MODEL_WIDTH
            invariant
                i <= MODEL_WIDTH,
                out@ == joined_weights(self@.take(i as int), separator@),
            decreases MODEL_WIDTH - i,
        {
            if i > 0 {
                out.append(separator);
            }
            decimal::push_i64(&mut out, self.weights[i]);
            i += 1;
            assert(weight_texts(self@.take(i as int)).drop_last() =~= weight_texts(
                self@.take(i - 1),
            ));
        }
        assert(self@.take(8) =~= self@);
        out
    }

    /// The model as a bracketed list of its weights.
    pub fn to_text(&self) -> (text: String)
        ensures
            text@ == "["@ + joined_weights(self@, ", "@) + "]"@,
    {
        let mut out: String = "[".to_string();
        let list: String = self.join_weights(", ");
        out.append(list.as_str());
        out.append("]");
        out
    }
}

} // verus!
