//! One neuron: a weight per input, a bias, an activation tag.

use crate::activation::ActivationFn;
use crate::rng;
use crate::scalar;
use vstd::prelude::*;

verus! {

/// The mathematical content of a neuron: its weight patterns, its bias
/// pattern and its activation tag.
#[verifier::ext_equal]
pub struct NeuronModel {
    pub weights: Seq<u32>,
    pub bias: u32,
    pub activation: ActivationFn,
}

/// A neuron. Every scalar is a binary32 bit pattern (see `scalar`). The
/// weight count is fixed when the owning layer is built and no operation of
/// this library changes it afterwards.
#[derive(Debug)]
pub struct Neuron {
    pub weights: Vec<u32>,
    pub bias: u32,
    pub activation: ActivationFn,
}

impl View for Neuron {
    type V = NeuronModel;

    open spec fn view(&self) -> NeuronModel {
        NeuronModel { weights: self.weights@, bias: self.bias, activation: self.activation }
    }
}

impl Neuron {
    /// A neuron with the given number of inputs, every weight the zero
    /// pattern (the bits of 0.0), the given bias pattern and activation.
    pub fn new(n_inputs: usize, bias: u32, func: ActivationFn) -> (r: Neuron)
        ensures
            r@.weights.len() == n_inputs,
            forall|i: int| 0 <= i < n_inputs ==> r@.weights[i] == 0u32,
            r@.bias == bias,
            r@.activation == func,
    {
        let mut weights: Vec<u32> = Vec::new();
        while weights.len() < n_inputs
            invariant
                weights@.len() <= n_inputs,
                forall|i: int| 0 <= i < weights@.len() ==> weights@[i] == 0u32,
            decreases n_inputs - weights.len(),
        {
            weights.push(0);
        }
        Neuron { weights, bias, activation: func }
    }

    /// A neuron whose weights and bias are uniform samples on `[0, 1)` drawn
    /// from the given generator.
    pub fn new_random(generator: &mut rand::rngs::StdRng, n_inputs: usize, func: ActivationFn) -> (r: Neuron)
        ensures
            r@.weights.len() == n_inputs,
            forall|i: int| 0 <= i < n_inputs ==> r@.weights[i] < scalar::ONE_BITS,
            r@.bias < scalar::ONE_BITS,
            r@.activation == func,
    {
        let mut weights: Vec<u32> = Vec::new();
        while weights.len() < n_inputs
            invariant
                weights@.len() <= n_inputs,
                forall|i: int| 0 <= i < weights@.len() ==> weights@[i] < scalar::ONE_BITS,
            decreases n_inputs - weights.len(),
        {
            weights.push(scalar::unit_bits(rng::random_bits(generator)));
        }
        let bias = scalar::unit_bits(rng::random_bits(generator));
        Neuron { weights, bias, activation: func }
    }

    /// Overwrites the weight at the given position; everything else is kept.
    pub fn change_weight(&mut self, index: usize, value: u32)
        requires
            index < old(self)@.weights.len(),
        ensures
            final(self)@.weights == old(self)@.weights.update(index as int, value),
            final(self)@.bias == old(self)@.bias,
            final(self)@.activation == old(self)@.activation,
    {
        self.weights.set(index, value);
    }

    /// Overwrites the bias; everything else is kept.
    pub fn change_bias(&mut self, value: u32)
        ensures
            final(self)@ == (NeuronModel { bias: value, ..old(self)@ }),
    {
        self.bias = value;
    }

    /// An owned copy whose model equals this neuron's.
    pub fn snapshot(&self) -> (r: Neuron)
        ensures
            r@ == self@,
    {
        let r = Neuron {
            weights: copy_bits(&self.weights),
            bias: self.bias,
            activation: self.activation,
        };
        proof {
            assert(r@ =~= self@);
        }
        r
    }
}

/// An owned copy of a vector of scalar patterns.
pub(crate) fn copy_bits(v: &Vec<u32>) -> (r: Vec<u32>)
    ensures
        r@ == v@,
{
    let mut r: Vec<u32> = Vec::new();
    let mut i: usize = 0;
    while i < v.len()
        invariant
            i <= v@.len(),
            r@.len() == i,
            forall|j: int| 0 <= j < i ==> r@[j] == v@[j],
        decreases v@.len() - i,
    {
        r.push(v[i]);
        i = i + 1;
    }
    proof {
        assert(r@ =~= v@);
    }
    r
}

} // verus!
