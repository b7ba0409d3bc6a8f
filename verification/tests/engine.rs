//! The forward pass over networks built through the library: the builders fix
//! every parameter exactly, so a reference evaluation on f32 values checks
//! them end to end.

use hillnet::activation::ActivationFn;
use hillnet::network::NeuralNet;

fn activate(func: ActivationFn, x: f32) -> f32 {
    match func {
        ActivationFn::Linear => x,
        ActivationFn::ReLU => f32::from_bits(hillnet::scalar::relu_bits(x.to_bits())),
        ActivationFn::Sigmoid => 1.0 / (1.0 + (-x).exp()),
        ActivationFn::Tanh => x.tanh(),
    }
}

/// The reference forward pass: two scratch buffers sized to fit every layer's
/// input and output, swapped after each layer.
fn run_oracle(net: &NeuralNet, input: &[f32], n_out: usize) -> Vec<f32> {
    let buf_len = net.longest_layer().max(net.input_arity());
    let mut a = vec![0.0f32; buf_len];
    let mut b = vec![0.0f32; buf_len];
    a[..input.len()].copy_from_slice(input);
    for l in 0..net.layer_count() {
        for r in 0..net.layer_len(l) {
            let n = net.neuron(l, r);
            let mut acc = f32::from_bits(n.bias);
            for (w, x) in n.weights.iter().zip(a.iter()) {
                acc += f32::from_bits(*w) * *x;
            }
            b[r] = activate(n.activation, acc);
        }
        std::mem::swap(&mut a, &mut b);
    }
    a[..n_out].to_vec()
}

fn bits_row(row: Vec<f32>) -> Vec<u32> {
    row.into_iter().map(f32::to_bits).collect()
}

fn bits_rows(rows: Vec<Vec<f32>>) -> Vec<Vec<u32>> {
    rows.into_iter().map(bits_row).collect()
}

#[test]
fn minimal_test() {
    let net = NeuralNet::new(1)
        .add_layer(10, ActivationFn::ReLU)
        .add_layer(5, ActivationFn::Linear);
    assert_eq!(run_oracle(&net, &[1.0], 5), vec![0.0f32; 5]);
}

#[test]
fn better_test() {
    let net = NeuralNet::new(2)
        .add_layer(4, ActivationFn::ReLU)
        .with_weights(bits_rows(vec![
            vec![1.1, -0.93],
            vec![-0.9, -0.96],
            vec![1.2, 0.81],
            vec![-0.91, 0.95],
        ]))
        .with_bias(bits_row(vec![0.048, 0.12, 0.083, -0.02]))
        .add_layer(1, ActivationFn::Linear)
        .with_weights(bits_rows(vec![vec![-1.4, 1.3, 1.4, -1.3]]));
    assert!(run_oracle(&net, &[3.0, 3.0], 1)[0] > 0.0);
    assert!(run_oracle(&net, &[-3.0, -3.0], 1)[0] > 0.0);
    assert!(run_oracle(&net, &[3.0, -3.0], 1)[0] < 0.0);
    assert!(run_oracle(&net, &[-3.0, 3.0], 1)[0] < 0.0);
}

#[test]
fn zero_weight_baseline_maps_finite_inputs_to_zero() {
    for func in [ActivationFn::Linear, ActivationFn::ReLU] {
        let net = NeuralNet::new(3).add_layer(4, func);
        for input in [
            [0.0f32, 0.0, 0.0],
            [1.0, -2.0, 3.5],
            [3.4e38, -3.4e38, 1.0e-40],
            [-123456.78, 0.055731735, -1.0],
        ] {
            let out = run_oracle(&net, &input, 4);
            assert_eq!(out, vec![0.0f32; 4], "zero net under {func:?} on {input:?}");
        }
    }
}

#[test]
fn single_linear_neuron_scales_its_input() {
    let net = NeuralNet::new(1)
        .add_layer(1, ActivationFn::Linear)
        .with_weights(bits_rows(vec![vec![3.0]]))
        .with_bias(bits_row(vec![0.0]));
    assert_eq!(run_oracle(&net, &[2.0], 1), vec![6.0f32]);
}

#[test]
fn builder_reports_widths_and_buffer_length() {
    let net = NeuralNet::new(7)
        .add_layer(4, ActivationFn::ReLU)
        .add_layer(9, ActivationFn::Tanh)
        .add_layer(2, ActivationFn::Linear);
    assert_eq!(net.layer_count(), 3);
    assert_eq!(net.layer_len(0), 4);
    assert_eq!(net.layer_len(1), 9);
    assert_eq!(net.layer_len(2), 2);
    assert_eq!(net.last_layer_len(), 2);
    assert_eq!(net.longest_layer(), 9);
    assert_eq!(net.input_arity(), 7);
    assert_eq!(net.neuron(0, 0).weights.len(), 7);
    assert_eq!(net.neuron(1, 3).weights.len(), 4);
    assert_eq!(net.neuron(2, 1).weights.len(), 9);
    assert!(!net.has_pending_edit());
}
