//! The single-slot edit mechanism: one scalar changes per commit, and the
//! most recent edit — only that one — can be rolled back exactly.

use hillnet::activation::ActivationFn;
use hillnet::network::{EditTarget, NeuralNet};
use rand::rngs::StdRng;
use rand::{Rng, SeedableRng};

const LEARNING_RATE: f32 = 0.055731735;

fn params(net: &NeuralNet) -> Vec<Vec<(Vec<u32>, u32, ActivationFn)>> {
    let mut out = Vec::new();
    for l in 0..net.layer_count() {
        let mut layer = Vec::new();
        for r in 0..net.layer_len(l) {
            let n = net.neuron(l, r);
            layer.push((n.weights.clone(), n.bias, n.activation));
        }
        out.push(layer);
    }
    out
}

fn perturbed(rng: &mut StdRng, current: u32) -> u32 {
    let sign = if rng.gen_bool(0.5) { -1.0f32 } else { 1.0f32 };
    (f32::from_bits(current) + rng.gen::<f32>() * sign * LEARNING_RATE).to_bits()
}

fn sample_net(rng: &mut StdRng) -> NeuralNet {
    NeuralNet::new(3)
        .push_random_layer(rng, 5, ActivationFn::Tanh)
        .push_random_layer(rng, 2, ActivationFn::Sigmoid)
}

#[test]
fn edit_then_undo_restores_every_parameter() {
    let mut rng = StdRng::seed_from_u64(7);
    let mut net = sample_net(&mut rng);
    let before = params(&net);
    for _ in 0..100 {
        let plan = net.random_edit(&mut rng);
        net.commit_edit(&plan, perturbed(&mut rng, plan.current));
        net.undo_edit();
        assert_eq!(params(&net), before);
    }
}

#[test]
fn commit_changes_exactly_the_chosen_scalar() {
    let mut rng = StdRng::seed_from_u64(8);
    let mut net = sample_net(&mut rng);
    for _ in 0..100 {
        let before = params(&net);
        let plan = net.random_edit(&mut rng);
        let value = perturbed(&mut rng, plan.current);
        net.commit_edit(&plan, value);
        let after = params(&net);
        let mut expected = before.clone();
        match plan.target {
            EditTarget::Weight(i) => {
                assert_eq!(plan.current, before[plan.layer][plan.row].0[i]);
                expected[plan.layer][plan.row].0[i] = value;
            }
            EditTarget::Bias => {
                assert_eq!(plan.current, before[plan.layer][plan.row].1);
                expected[plan.layer][plan.row].1 = value;
            }
        }
        assert_eq!(after, expected);
    }
}

#[test]
fn undo_without_pending_edit_is_a_no_op() {
    let mut rng = StdRng::seed_from_u64(9);
    let mut net = sample_net(&mut rng);
    let before = params(&net);
    assert!(!net.has_pending_edit());
    net.undo_edit();
    assert_eq!(params(&net), before);
}

#[test]
fn second_edit_discards_the_first_rollback() {
    let mut rng = StdRng::seed_from_u64(10);
    let mut net = sample_net(&mut rng);
    let plan1 = net.random_edit(&mut rng);
    net.commit_edit(&plan1, perturbed(&mut rng, plan1.current));
    let after_first = params(&net);
    let plan2 = net.random_edit(&mut rng);
    net.commit_edit(&plan2, perturbed(&mut rng, plan2.current));
    net.undo_edit();
    // Only the second edit is rolled back; the first stays for good.
    assert_eq!(params(&net), after_first);
    assert!(net.has_pending_edit());
}

#[test]
fn random_layers_sample_the_unit_interval() {
    let mut rng = StdRng::seed_from_u64(11);
    let net = NeuralNet::new(4).push_random_layer(&mut rng, 6, ActivationFn::ReLU);
    for r in 0..net.layer_len(0) {
        let n = net.neuron(0, r);
        assert_eq!(n.weights.len(), 4);
        assert_eq!(n.activation, ActivationFn::ReLU);
        for &w in &n.weights {
            let v = f32::from_bits(w);
            assert!((0.0..1.0).contains(&v), "weight {v} outside [0, 1)");
        }
        let b = f32::from_bits(n.bias);
        assert!((0.0..1.0).contains(&b), "bias {b} outside [0, 1)");
    }
}
