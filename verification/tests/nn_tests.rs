use neuroevo::EngineError;
use neuroevo::fx::{FX_LIM, FX_ONE};
use neuroevo::nn::{ActivationFunc, NN, activate, threshold};
use neuroevo::rng::RandomSource;

/// A single-layer network with two logical inputs, one output, and
/// explicit weights `[w_a, w_b, w_bias]`.
fn tiny_net(weights: Vec<i64>, activ: ActivationFunc, mut_rate: i64) -> NN {
    NN {
        config: vec![3, 1],
        weights: vec![vec![weights]],
        activ_func: activ,
        mut_rate,
    }
}

#[test]
fn relu_is_exact() {
    assert_eq!(activate(ActivationFunc::ReLU, -5), 0);
    assert_eq!(activate(ActivationFunc::ReLU, 0), 0);
    assert_eq!(activate(ActivationFunc::ReLU, 7), 7);
}

#[test]
fn hard_sigmoid_is_exact() {
    assert_eq!(activate(ActivationFunc::Sigmoid, 0), 500_000);
    assert_eq!(activate(ActivationFunc::Sigmoid, 1_000_000), 750_000);
    assert_eq!(activate(ActivationFunc::Sigmoid, 2_000_000), FX_ONE);
    assert_eq!(activate(ActivationFunc::Sigmoid, 5_000_000), FX_ONE);
    assert_eq!(activate(ActivationFunc::Sigmoid, -2_000_000), 0);
    assert_eq!(activate(ActivationFunc::Sigmoid, -1_000_000), 250_000);
}

#[test]
fn hard_tanh_is_exact() {
    assert_eq!(activate(ActivationFunc::Tanh, 500_000), 500_000);
    assert_eq!(activate(ActivationFunc::Tanh, 2_000_000), FX_ONE);
    assert_eq!(activate(ActivationFunc::Tanh, -2_000_000), -FX_ONE);
}

#[test]
fn decoding_threshold_is_high_only_for_sigmoid() {
    assert_eq!(threshold(ActivationFunc::Sigmoid), 850_000);
    assert_eq!(threshold(ActivationFunc::ReLU), 0);
    assert_eq!(threshold(ActivationFunc::Tanh), 0);
}

#[test]
fn feed_forward_computes_the_exact_weighted_sum() {
    let n = tiny_net(vec![FX_ONE, FX_ONE, 0], ActivationFunc::ReLU, 0);
    let out = n.feed_forward(&vec![2 * FX_ONE, 3 * FX_ONE]).unwrap();
    assert_eq!(out, vec![5 * FX_ONE]);
}

#[test]
fn feed_forward_adds_the_bias_unit() {
    // Zero input weights: only the bias weight times the implicit one.
    let n = tiny_net(vec![0, 0, 250_000], ActivationFunc::ReLU, 0);
    let out = n.feed_forward(&vec![FX_ONE, FX_ONE]).unwrap();
    assert_eq!(out, vec![250_000]);
}

#[test]
fn feed_forward_applies_activation_to_the_output_layer() {
    let n = tiny_net(vec![FX_ONE, FX_ONE, 0], ActivationFunc::Sigmoid, 0);
    let out = n.feed_forward(&vec![2 * FX_ONE, 3 * FX_ONE]).unwrap();
    // Pre-activation 5.0 saturates the hard sigmoid at 1.0.
    assert_eq!(out, vec![FX_ONE]);
}

#[test]
fn feed_forward_output_width_matches_topology() {
    let mut rng = RandomSource::new(7);
    let n = NN::new(&vec![5, 6, 4], 0, ActivationFunc::Tanh, &mut rng);
    let out = n.feed_forward(&vec![0, 0, 0, 0, 0]).unwrap();
    assert_eq!(out.len(), 4);
}

#[test]
fn feed_forward_rejects_wrong_input_width() {
    let mut rng = RandomSource::new(7);
    let n = NN::new(&vec![5, 6, 4], 0, ActivationFunc::Tanh, &mut rng);
    assert_eq!(n.feed_forward(&vec![1, 2, 3]), Err(EngineError::DimensionMismatch));
}

#[test]
fn new_builds_bias_augmented_topology() {
    let mut rng = RandomSource::new(11);
    let n = NN::new(&vec![2, 3, 1], 500_000, ActivationFunc::ReLU, &mut rng);
    assert_eq!(n.config, vec![3, 4, 1]);
    assert_eq!(n.weights.len(), 2);
    assert_eq!(n.weights[0].len(), 3);
    assert_eq!(n.weights[0][0].len(), 3);
    assert_eq!(n.weights[1].len(), 1);
    assert_eq!(n.weights[1][0].len(), 4);
    for m in &n.weights {
        for row in m {
            for &w in row {
                assert!(-FX_LIM <= w && w <= FX_LIM);
            }
        }
    }
    assert_eq!(n.mut_rate, 500_000);
}

#[test]
fn crossover_copies_every_gene_from_a_parent() {
    let mut rng = RandomSource::new(3);
    let a = tiny_net(vec![FX_ONE, FX_ONE, FX_ONE], ActivationFunc::Sigmoid, 100_000);
    let b = tiny_net(vec![2 * FX_ONE, 2 * FX_ONE, 2 * FX_ONE], ActivationFunc::Tanh, 900_000);
    let c = NN::crossover(&a, &b, &mut rng).unwrap();
    assert_eq!(c.config, a.config);
    assert_eq!(c.activ_func, ActivationFunc::Sigmoid);
    assert_eq!(c.mut_rate, 100_000);
    for &w in &c.weights[0][0] {
        assert!(w == FX_ONE || w == 2 * FX_ONE);
    }
}

#[test]
fn crossover_rejects_differing_topologies() {
    let mut rng = RandomSource::new(3);
    let a = tiny_net(vec![FX_ONE, FX_ONE, FX_ONE], ActivationFunc::ReLU, 0);
    let b = NN {
        config: vec![4, 1],
        weights: vec![vec![vec![0, 0, 0, 0]]],
        activ_func: ActivationFunc::ReLU,
        mut_rate: 0,
    };
    assert!(matches!(NN::crossover(&a, &b, &mut rng), Err(EngineError::ConfigMismatch)));
}

#[test]
fn mutate_with_zero_rate_changes_nothing() {
    let mut rng = RandomSource::new(5);
    let mut n = NN::new(&vec![3, 4, 2], 0, ActivationFunc::ReLU, &mut rng);
    let before = n.weights.clone();
    n.mutate(&mut rng);
    assert_eq!(n.weights, before);
}

#[test]
fn mutate_with_full_rate_replaces_the_weights() {
    let mut rng = RandomSource::new(5);
    let mut n = NN::new(&vec![3, 4, 2], FX_ONE, ActivationFunc::ReLU, &mut rng);
    let before = n.weights.clone();
    n.mutate(&mut rng);
    assert_ne!(n.weights, before);
    for m in &n.weights {
        for row in m {
            for &w in row {
                assert!(-6 * FX_ONE <= w && w <= 6 * FX_ONE);
            }
        }
    }
}
