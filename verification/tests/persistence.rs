//! Persistence round trips and the serialization error cases.

use neural_network::activations::{ActivationFn, Relu, Sigmoid, Tanh};
use neural_network::convolution::ConvolutionLayer;
use neural_network::dense::DenseLayer;
use neural_network::layer::LayerType;
use neural_network::loss::MSE;
use neural_network::network::{Net, Network};
use neural_network::{NNError, SCALE};

fn fx(units: i64) -> i64 {
    units * SCALE
}

fn mixed_net(seed: u64) -> Network {
    Network::new(vec![
        Net::Layer(LayerType::Conv(
            ConvolutionLayer::new_seeded((1, 6, 6), (2, 3), seed).unwrap(),
        )),
        Net::Activation(ActivationFn::Tanh(Tanh::default())),
        Net::Layer(LayerType::Dense(DenseLayer::new_seeded(32, 5, seed + 1))),
        Net::Activation(ActivationFn::Sigmoid(Sigmoid::default())),
        Net::Layer(LayerType::Dense(DenseLayer::new_seeded(5, 3, seed + 2))),
        Net::Activation(ActivationFn::Relu(Relu::default())),
    ])
}

/// `load(save(network))` predicts exactly what the original predicts, for a
/// set of probe inputs, and re-saving gives the same bytes.
#[test]
fn save_load_roundtrip_preserves_predictions() {
    let mut net = mixed_net(21);
    // Train a little first so the parameters are not fresh.
    let samples: Vec<Vec<i64>> = (0..4)
        .map(|s| (0..36).map(|i| ((i * 37 + s * 101) % 130000) - 65000).collect())
        .collect();
    let targets: Vec<Vec<i64>> = (0..4)
        .map(|s| (0..3).map(|i| if i == s % 3 { fx(1) } else { 0 }).collect())
        .collect();
    net.train(&MSE, &samples, &targets, SCALE / 10, 3).unwrap();

    let bytes = net.save();
    let loaded = Network::from_bytes(&bytes).unwrap();
    for probe in &samples {
        assert_eq!(net.predict_ref(probe).unwrap(), loaded.predict_ref(probe).unwrap());
    }
    assert_eq!(loaded.save(), bytes);
}

/// `from_slice` replaces the receiver, exactly like the original network.
#[test]
fn from_slice_replaces_network() {
    let net = mixed_net(33);
    let bytes = net.save();
    let mut other = Network::new(vec![]);
    other.from_slice(&bytes).unwrap();
    let probe: Vec<i64> = (0..36).map(|i| (i * 1000) - 18000).collect();
    assert_eq!(net.predict_ref(&probe).unwrap(), other.predict_ref(&probe).unwrap());
}

/// Truncated or corrupted buffers are serialization errors.
#[test]
fn malformed_bytes_are_rejected() {
    let net = mixed_net(44);
    let bytes = net.save();
    // Truncation: drop the last byte (a partial token).
    let mut cut = bytes.clone();
    cut.pop();
    assert_eq!(Network::from_bytes(&cut).unwrap_err(), NNError::SerializationError);
    // Truncation at a token boundary: drop the last whole token.
    let shorter = bytes[..bytes.len() - 8].to_vec();
    assert_eq!(
        Network::from_bytes(&shorter).unwrap_err(),
        NNError::SerializationError
    );
    // A bad layer tag.
    let mut bad = bytes.clone();
    bad[8] = 99;
    assert_eq!(Network::from_bytes(&bad).unwrap_err(), NNError::SerializationError);
    // Trailing garbage after a well-formed model.
    let mut long = bytes.clone();
    long.extend_from_slice(&[0u8; 8]);
    assert_eq!(Network::from_bytes(&long).unwrap_err(), NNError::SerializationError);
    // The empty buffer has no layer count.
    assert_eq!(Network::from_bytes(&vec![]).unwrap_err(), NNError::SerializationError);
}

/// An empty network round-trips too.
#[test]
fn empty_network_roundtrip() {
    let net = Network::new(vec![]);
    let bytes = net.save();
    assert_eq!(bytes.len(), 16);
    let loaded = Network::from_bytes(&bytes).unwrap();
    assert_eq!(loaded.save(), bytes);
}
