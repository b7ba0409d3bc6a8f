//! The trainer: the dataset and the greedy accept-or-revert decision of
//! stochastic hill-climbing.
//!
//! The aggregate error of a network over the dataset is a floating-point sum
//! computed by the collaborator that runs the forward passes; the trainer's
//! verified part is the decision made of every candidate error — keep the
//! mutation only when it strictly improves, else undo it — and the law that
//! this greedy rule never lets the running error rise. The error convention is
//! the plain sum over all rows of the per-row sums of absolute differences,
//! not an average.

use crate::network::{agree_except, params_equal, NeuralNet};
use crate::scalar::{float_le, is_nan_bits, le_bits};
use vstd::prelude::*;

verus! {

/// The dataset: aligned rows of input patterns and label patterns; row `k` of
/// the inputs corresponds to row `k` of the outputs.
pub struct TrainingData {
    pub inputs: Vec<Vec<u32>>,
    pub outputs: Vec<Vec<u32>>,
}

/// Owns a read-only dataset and judges candidate errors against the running
/// error.
pub struct Trainer {
    training_data: TrainingData,
}

/// What one mutate-evaluate-judge step leaves as the running error: the
/// candidate only when it is strictly below the current error, else the
/// current error — a tie is rejected.
pub open spec fn step_result(current: u32, candidate: u32) -> u32 {
    if float_le(current, candidate) {
        current
    } else {
        candidate
    }
}

/// The running error left by greedily folding a sequence of candidate errors.
pub open spec fn climb_result(init: u32, candidates: Seq<u32>) -> u32
    decreases candidates.len(),
{
    if candidates.len() == 0 {
        init
    } else {
        climb_result(step_result(init, candidates[0]), candidates.drop_first())
    }
}

impl Trainer {
    /// Input and label rows stay aligned for the trainer's whole life.
    #[verifier::type_invariant]
    pub closed spec fn wf(self) -> bool {
        self.training_data.inputs@.len() == self.training_data.outputs@.len()
    }

    /// How many rows the dataset has.
    pub closed spec fn n_rows(self) -> int {
        self.training_data.inputs@.len() as int
    }

    /// The input patterns of row `k`.
    pub closed spec fn input_row_model(self, k: int) -> Seq<u32> {
        self.training_data.inputs@[k]@
    }

    /// The label patterns of row `k`.
    pub closed spec fn output_row_model(self, k: int) -> Seq<u32> {
        self.training_data.outputs@[k]@
    }

    /// Takes ownership of the dataset. Aligned lengths are the caller's
    /// contract; the trainer never validates them later.
    pub fn new(data: TrainingData) -> (r: Trainer)
        requires
            data.inputs@.len() == data.outputs@.len(),
        ensures
            r.n_rows() == data.inputs@.len(),
            forall|k: int|
                0 <= k < r.n_rows() ==> #[trigger] r.input_row_model(k) == data.inputs@[k]@,
            forall|k: int|
                0 <= k < r.n_rows() ==> #[trigger] r.output_row_model(k) == data.outputs@[k]@,
    {
        Trainer { training_data: data }
    }

    /// How many rows the dataset has.
    pub fn row_count(&self) -> (r: usize)
        ensures
            r == self.n_rows(),
    {
        self.training_data.inputs.len()
    }

    /// The input patterns of row `k`.
    pub fn input_row(&self, k: usize) -> (r: &Vec<u32>)
        requires
            k < self.n_rows(),
        ensures
            r@ == self.input_row_model(k as int),
    {
        &self.training_data.inputs[k]
    }

    /// The label patterns of row `k`.
    pub fn output_row(&self, k: usize) -> (r: &Vec<u32>)
        requires
            k < self.n_rows(),
        ensures
            r@ == self.output_row_model(k as int),
    {
        proof {
            use_type_invariant(self);
        }
        &self.training_data.outputs[k]
    }

    /// One accept-or-revert decision of the hill-climbing loop, judged on the
    /// error patterns: a candidate error at or above the current one — a tie
    /// included — is rejected, so the network's pending edit is undone and
    /// the current error kept; only a strictly better candidate keeps the
    /// mutation and becomes the running error. A NaN candidate is accepted,
    /// since no comparison ranks it at or above anything.
    pub fn train_step(&self, net: &mut NeuralNet, current: u32, candidate: u32) -> (r: u32)
        requires
            old(net).wf(),
        ensures
            r == step_result(current, candidate),
            final(net).wf(),
            final(net).in_arity() == old(net).in_arity(),
            final(net).pending() == old(net).pending(),
            float_le(current, candidate) ==> match old(net).pending() {
                Option::None => params_equal(*old(net), *final(net)),
                Option::Some((l, rr, snap)) => agree_except(*old(net), *final(net), l, rr)
                    && final(net).neuron_model(l, rr) == snap,
            },
            !float_le(current, candidate) ==> params_equal(*old(net), *final(net)),
            !is_nan_bits(current) && !is_nan_bits(candidate) ==> float_le(r, current),
    {
        if le_bits(current, candidate) {
            net.undo_edit();
            current
        } else {
            candidate
        }
    }
}

/// Law (monotonic improvement): starting from a non-NaN error and greedily
/// folding any sequence of non-NaN candidate errors — exactly what a training
/// run of `k` iterations does with its `k + 1` candidate errors — the running
/// error never ends above the starting error.
pub proof fn lemma_hill_climb_monotone(init: u32, candidates: Seq<u32>)
    requires
        !is_nan_bits(init),
        forall|i: int| 0 <= i < candidates.len() ==> !is_nan_bits(#[trigger] candidates[i]),
    ensures
        !is_nan_bits(climb_result(init, candidates)),
        float_le(climb_result(init, candidates), init),
    decreases candidates.len(),
{
    if candidates.len() > 0 {
        let next = step_result(init, candidates[0]);
        assert(!is_nan_bits(candidates[0]));
        assert forall|i: int|
            0 <= i < candidates.drop_first().len() implies !is_nan_bits(
            #[trigger] candidates.drop_first()[i],
        ) by {
            assert(candidates.drop_first()[i] == candidates[i + 1]);
        }
        lemma_hill_climb_monotone(next, candidates.drop_first());
    }
}

} // verus!
