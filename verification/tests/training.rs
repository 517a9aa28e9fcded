//! End-to-end training scenarios, the trainer's single-worker agreement with
//! plain training, and the persistence round trip.

use neural_network::activations::{ActivationFn, Sigmoid, Tanh};
use neural_network::dense::DenseLayer;
use neural_network::layer::LayerType;
use neural_network::loss::MSE;
use neural_network::network::{Net, Network};
use neural_network::trainer::Trainer;
use neural_network::{NNError, SCALE};

fn fx(units: i64) -> i64 {
    units * SCALE
}

fn xor_data() -> (Vec<Vec<i64>>, Vec<Vec<i64>>) {
    (
        vec![vec![0, 0], vec![0, fx(1)], vec![fx(1), 0], vec![fx(1), fx(1)]],
        vec![vec![0], vec![fx(1)], vec![fx(1)], vec![0]],
    )
}

fn dense_tanh_net(sizes: &[(usize, usize)], seed: u64) -> Network {
    let mut parts: Vec<Net> = Vec::new();
    for (i, (n_in, n_out)) in sizes.iter().enumerate() {
        parts.push(Net::Layer(LayerType::Dense(DenseLayer::new_seeded(
            *n_in,
            *n_out,
            seed + i as u64,
        ))));
        parts.push(Net::Activation(ActivationFn::Tanh(Tanh::default())));
    }
    Network::new(parts)
}

fn dense_sigmoid_net(sizes: &[(usize, usize)], seed: u64) -> Network {
    let mut parts: Vec<Net> = Vec::new();
    for (i, (n_in, n_out)) in sizes.iter().enumerate() {
        parts.push(Net::Layer(LayerType::Dense(DenseLayer::new_seeded(
            *n_in,
            *n_out,
            seed + i as u64,
        ))));
        parts.push(Net::Activation(ActivationFn::Sigmoid(Sigmoid::default())));
    }
    Network::new(parts)
}

/// Train a 2-4-1 tanh network on XOR; every prediction must land within 0.5
/// of its target. A handful of fixed seeds is tried so the test does not
/// hinge on one lucky draw; the run is fully deterministic.
#[test]
fn xor_scenario() {
    let (samples, targets) = xor_data();
    let lr = SCALE / 10;
    let mut solved = false;
    for seed in 1..=6u64 {
        let mut net = dense_tanh_net(&[(2, 4), (4, 1)], seed * 100);
        net.train(&MSE, &samples, &targets, lr, 10000).unwrap();
        let mut ok = true;
        for (x, y) in samples.iter().zip(targets.iter()) {
            let p = net.predict(x).unwrap();
            if (p[0] - y[0]).abs() > SCALE / 2 {
                ok = false;
            }
        }
        if ok {
            solved = true;
            break;
        }
    }
    assert!(solved, "no tried seed learned XOR");
}

/// Train a 784-50-10 sigmoid classifier on a small synthetic digit batch;
/// the training-set accuracy must beat random chance (one in ten).
#[test]
fn digit_classifier_beats_chance() {
    let n_classes = 10usize;
    let mut samples: Vec<Vec<i64>> = Vec::new();
    let mut targets: Vec<Vec<i64>> = Vec::new();
    for d in 0..n_classes {
        // Each class lights its own block of twenty pixels.
        let mut img = vec![0i64; 784];
        for p in 0..20 {
            img[d * 40 + p] = fx(1);
        }
        samples.push(img);
        let mut one_hot = vec![0i64; 10];
        one_hot[d] = fx(1);
        targets.push(one_hot);
    }
    let mut net = dense_sigmoid_net(&[(784, 50), (50, 10)], 11);
    net.train(&MSE, &samples, &targets, SCALE / 2, 60).unwrap();
    let mut correct = 0usize;
    for (x, y) in samples.iter().zip(targets.iter()) {
        let p = net.predict(x).unwrap();
        let pred_class = p
            .iter()
            .enumerate()
            .max_by_key(|(_, v)| **v)
            .map(|(i, _)| i)
            .unwrap();
        let true_class = y
            .iter()
            .enumerate()
            .max_by_key(|(_, v)| **v)
            .map(|(i, _)| i)
            .unwrap();
        if pred_class == true_class {
            correct += 1;
        }
    }
    assert!(
        correct * 10 > n_classes,
        "accuracy {correct}/10 is not above chance"
    );
}

/// Running the partitioned trainer with one worker is bit-for-bit identical
/// to plain sequential training: same parameters (compared through the
/// serialized bytes) and same reported losses.
#[test]
fn single_worker_trainer_matches_plain_training() {
    let (samples, targets) = xor_data();
    let lr = SCALE / 10;
    let mut plain = dense_tanh_net(&[(2, 4), (4, 1)], 500);
    let mut mastered = plain.clone();
    let plain_losses = plain.train(&MSE, &samples, &targets, lr, 25).unwrap();
    let trainer_losses =
        Trainer::run(&mut mastered, &MSE, &samples, &targets, lr, 25, 1).unwrap();
    assert_eq!(plain_losses, trainer_losses);
    assert_eq!(plain.save(), mastered.save());
}

/// Several workers split the set; the tail of an uneven split is dropped.
#[test]
fn trainer_partitions_and_reports_per_epoch() {
    let (samples, targets) = xor_data();
    let mut net = dense_tanh_net(&[(2, 4), (4, 1)], 900);
    let losses = Trainer::run(&mut net, &MSE, &samples, &targets, SCALE / 10, 3, 2).unwrap();
    assert_eq!(losses.len(), 3);
    // Mismatched sample and target counts are rejected.
    let mut net2 = dense_tanh_net(&[(2, 4), (4, 1)], 901);
    assert_eq!(
        Trainer::run(&mut net2, &MSE, &samples, &targets[..3].to_vec(), SCALE / 10, 1, 1)
            .unwrap_err(),
        NNError::ShapeError
    );
}

/// The machine-sized trainer entry point runs and reports one loss per
/// epoch.
#[test]
fn cpu_trainer_runs() {
    let (samples, targets) = xor_data();
    let mut net = dense_tanh_net(&[(2, 4), (4, 1)], 1200);
    let losses = Trainer::cpu(&mut net, &MSE, &samples, &targets, SCALE / 10, 2).unwrap();
    assert_eq!(losses.len(), 2);
}

/// Training reports one mean loss per epoch, and on a learnable problem the
/// loss goes down.
#[test]
fn training_reports_decreasing_loss() {
    let (samples, targets) = xor_data();
    let mut net = dense_tanh_net(&[(2, 4), (4, 1)], 100);
    let losses = net.train(&MSE, &samples, &targets, SCALE / 10, 2000).unwrap();
    assert_eq!(losses.len(), 2000);
    assert!(losses[1999] < losses[0], "loss did not decrease: {} -> {}", losses[0], losses[1999]);
}
