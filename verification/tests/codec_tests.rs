use neuroevo::EngineError;
use neuroevo::fx::FX_ONE;
use neuroevo::nn::{ActivationFunc, NN};
use neuroevo::rng::RandomSource;

fn sample_net() -> NN {
    let mut rng = RandomSource::new(42);
    NN::new(&vec![5, 6, 3, 4], 250_000, ActivationFunc::Sigmoid, &mut rng)
}

#[test]
fn round_trip_reproduces_the_network_exactly() {
    let n = sample_net();
    let bytes = n.export();
    let m = NN::import(&bytes).unwrap();
    assert_eq!(m.config, n.config);
    assert_eq!(m.weights, n.weights);
    assert_eq!(m.activ_func, n.activ_func);
    assert_eq!(m.mut_rate, n.mut_rate);
}

#[test]
fn round_trip_preserves_inference() {
    let n = sample_net();
    let m = NN::import(&n.export()).unwrap();
    let inputs = vec![FX_ONE, -FX_ONE, 300_000, -300_000, 750_000];
    assert_eq!(m.feed_forward(&inputs), n.feed_forward(&inputs));
}

#[test]
fn export_is_deterministic_and_stable_under_reimport() {
    let n = sample_net();
    let bytes = n.export();
    assert_eq!(bytes, n.export());
    let m = NN::import(&bytes).unwrap();
    assert_eq!(m.export(), bytes);
}

#[test]
fn import_rejects_garbage() {
    assert_eq!(NN::import(&vec![1, 2, 3]), Err(EngineError::IOError));
}

#[test]
fn import_rejects_the_empty_snapshot() {
    assert_eq!(NN::import(&Vec::new()), Err(EngineError::IOError));
}

#[test]
fn import_rejects_a_bad_sign_byte() {
    let n = sample_net();
    let mut bytes = n.export();
    bytes[0] = 2;
    assert_eq!(NN::import(&bytes), Err(EngineError::IOError));
}

#[test]
fn import_rejects_a_truncated_snapshot() {
    let n = sample_net();
    let mut bytes = n.export();
    bytes.truncate(bytes.len() - 9);
    assert_eq!(NN::import(&bytes), Err(EngineError::IOError));
}

#[test]
fn import_rejects_an_undersized_topology() {
    // A single value: topology length one, below the minimum of two.
    let mut bytes = vec![0u8];
    bytes.extend_from_slice(&[1, 0, 0, 0, 0, 0, 0, 0]);
    assert_eq!(NN::import(&bytes), Err(EngineError::IOError));
}
