//! A minimal feedforward neural-network core trained by stochastic
//! hill-climbing.
//!
//! Every scalar of the network (weights, biases, inputs, labels, errors) is an
//! IEEE 754 binary32 value carried as its raw 32-bit pattern, so that the
//! verified code can state exact facts about signs, magnitudes and ordering.
//! The rounding arithmetic itself (dot products, activations, error sums) is
//! floating point and lives with the unverified collaborator that drives the
//! training loop; everything that can be stated exactly over bit patterns is
//! verified here: network construction, topology well-formedness (which is
//! what makes the forward pass's scratch buffers safe), the single-slot
//! edit/undo mechanism, the uniform-sample encoding, and the greedy
//! accept-or-revert decision of the trainer.

pub mod activation;
pub mod network;
pub mod neuron;
pub mod rng;
pub mod scalar;
pub mod trainer;
