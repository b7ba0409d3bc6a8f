//! The activation tags a neuron can carry.

use vstd::prelude::*;

verus! {

/// The per-neuron nonlinearity applied after the weighted sum plus bias.
/// The tag only names the function; the engine evaluating it works on
/// floating-point values and stands outside the verified core.
#[derive(Clone, Copy, Debug, PartialEq, Eq, Structural)]
pub enum ActivationFn {
    /// `max(x, 0)`; the activation of a freshly built neuron.
    ReLU,
    /// The identity.
    Linear,
    /// `1 / (1 + exp(-x))`.
    Sigmoid,
    /// The hyperbolic tangent.
    Tanh,
}

impl Default for ActivationFn {
    fn default() -> (r: Self)
        ensures
            r == ActivationFn::ReLU,
    {
        ActivationFn::ReLU
    }
}

} // verus!
