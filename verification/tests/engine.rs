//! Exact-value tests of the layers, the loss, the activations and the error
//! taxonomy.

use neural_network::activations::{sigmoid_fx, tanh_fx, Activation, ActivationFn, Relu, Sigmoid,
    Tanh};
use neural_network::convolution::ConvolutionLayer;
use neural_network::dense::DenseLayer;
use neural_network::fixed::{div_fx, mul_fx, sub_fx};
use neural_network::layer::{LayerOutput, LayerType};
use neural_network::loss::{Loss, MSE};
use neural_network::network::{Net, Network};
use neural_network::{NNError, SCALE};

fn fx(units: i64) -> i64 {
    units * SCALE
}

#[test]
fn dense_forward_exact() {
    // y = W x + b with W = [[1, 2], [0, 1]], b = [1/2, 0], x = [1, 1].
    let weights = vec![vec![fx(1), fx(2)], vec![0, fx(1)]];
    let biases = vec![SCALE / 2, 0];
    let mut layer = DenseLayer::with_params(weights, biases, 2).unwrap();
    let out = layer.f_prop(&vec![fx(1), fx(1)]).unwrap();
    match out {
        LayerOutput::Dense(v) => assert_eq!(v, vec![fx(3) + SCALE / 2, fx(1)]),
        _ => panic!("dense layer must produce a dense value"),
    }
}

#[test]
fn dense_forward_output_length_matches_output_size() {
    let mut layer = DenseLayer::new(7, 4);
    let out = layer.f_prop(&vec![fx(1); 7]).unwrap();
    match out {
        LayerOutput::Dense(v) => assert_eq!(v.len(), 4),
        _ => panic!("dense layer must produce a dense value"),
    }
}

#[test]
fn dense_backward_input_gradient_length_matches_input_size() {
    let mut layer = DenseLayer::new(7, 4);
    layer.f_prop(&vec![fx(1); 7]).unwrap();
    let grad = layer.b_prop(&vec![SCALE / 4; 4], SCALE / 10).unwrap();
    assert_eq!(grad.len(), 7);
}

#[test]
fn dense_backward_exact_update() {
    // One neuron, w = [1], b = [0], x = [2], gradient [1], rate 1/2:
    // input gradient = w * g = 1; new w = 1 - (2 * 1) * 1/2 = 0; new b = -1/2.
    let mut layer = DenseLayer::with_params(vec![vec![fx(1)]], vec![0], 1).unwrap();
    layer.f_prop(&vec![fx(2)]).unwrap();
    let grad = layer.b_prop(&vec![fx(1)], SCALE / 2).unwrap();
    assert_eq!(grad, vec![fx(1)]);
    assert_eq!(layer.weights, vec![vec![0]]);
    assert_eq!(layer.biases, vec![-SCALE / 2]);
}

#[test]
fn dense_shape_errors() {
    let mut layer = DenseLayer::new(3, 2);
    assert_eq!(layer.f_prop(&vec![fx(1); 4]).unwrap_err(), NNError::ShapeError);
    assert_eq!(
        layer.b_prop(&vec![fx(1); 3], SCALE / 10).unwrap_err(),
        NNError::ShapeError
    );
    assert!(DenseLayer::with_params(vec![vec![0, 0], vec![0]], vec![0, 0], 2).is_err());
}

#[test]
fn mse_exact_values() {
    let mse = MSE;
    // truth [1], prediction [0]: loss (1-0)^2 / 1 = 1; gradient 2*(0-1)/1 = -2.
    assert_eq!(mse.loss(&vec![fx(1)], &vec![0]).unwrap(), fx(1));
    assert_eq!(mse.loss_prime(&vec![fx(1)], &vec![0]).unwrap(), vec![-fx(2)]);
    // Two components: truth [1, 0], prediction [0, 1]: loss (1 + 1) / 2 = 1.
    assert_eq!(mse.loss(&vec![fx(1), 0], &vec![0, fx(1)]).unwrap(), fx(1));
}

#[test]
fn mse_zero_on_equal_prediction() {
    let mse = MSE;
    let v = vec![fx(3), -fx(2), SCALE / 7];
    assert_eq!(mse.loss(&v, &v.clone()).unwrap(), 0);
}

#[test]
fn mse_shape_errors() {
    let mse = MSE;
    assert_eq!(mse.loss(&vec![fx(1)], &vec![]).unwrap_err(), NNError::ShapeError);
    assert_eq!(mse.loss(&vec![], &vec![]).unwrap_err(), NNError::ShapeError);
    assert_eq!(
        mse.loss_prime(&vec![fx(1), fx(2)], &vec![fx(1)]).unwrap_err(),
        NNError::ShapeError
    );
}

#[test]
fn mse_gradient_matches_finite_difference() {
    let mse = MSE;
    let truth = vec![0i64];
    let p = vec![SCALE / 2];
    let eps: i64 = 256;
    let l0 = mse.loss(&truth, &p).unwrap();
    let l1 = mse.loss(&truth, &vec![p[0] + eps]).unwrap();
    // Finite difference of the loss, back in fixed point.
    let fd = div_fx(sub_fx(l1, l0), eps);
    let g = mse.loss_prime(&truth, &p).unwrap()[0];
    assert!((fd - g).abs() <= 1024, "finite difference {fd} vs gradient {g}");
}

#[test]
fn activation_exact_values() {
    assert_eq!(tanh_fx(0), 0);
    assert_eq!(sigmoid_fx(0), SCALE / 2);
    assert_eq!(sigmoid_fx(16 * SCALE), SCALE);
    assert_eq!(sigmoid_fx(-16 * SCALE), 0);
    let relu = Relu::default();
    assert_eq!(relu.activation(fx(3)), fx(3));
    assert_eq!(relu.activation(-fx(3)), 0);
    assert_eq!(relu.derivative(fx(3)), SCALE);
    assert_eq!(relu.derivative(-fx(3)), 0);
    // tanh(1) is about 0.7616, sigmoid(1) about 0.7311.
    let t1 = tanh_fx(SCALE);
    assert!((t1 - 49912).abs() < 64, "tanh(1) = {t1}");
    let s1 = sigmoid_fx(SCALE);
    assert!((s1 - 47910).abs() < 64, "sigmoid(1) = {s1}");
    // Antisymmetry of tanh and the sigmoid's reflection.
    assert_eq!(tanh_fx(-SCALE), -t1);
    assert_eq!(sigmoid_fx(-SCALE), SCALE - s1);
}

#[test]
fn activation_derivative_bounds_sampled() {
    let tanh = Tanh::default();
    let sigmoid = Sigmoid::default();
    let mut x = -20 * SCALE;
    while x <= 20 * SCALE {
        let dt = tanh.derivative(x);
        assert!(0 <= dt && dt <= SCALE);
        let ds = sigmoid.derivative(x);
        assert!(0 <= ds && ds <= SCALE / 4);
        x += 1234;
    }
    // Interior points are strictly positive.
    assert!(tanh.derivative(0) > 0);
    assert!(sigmoid.derivative(0) > 0);
    // Saturated points have a zero derivative in fixed point.
    assert_eq!(tanh.derivative(8 * SCALE), 0);
    assert_eq!(sigmoid.derivative(16 * SCALE), 0);
}

#[test]
fn activation_backward_before_forward_is_state_error() {
    let tanh = Tanh::default();
    assert_eq!(tanh.b_prop(&vec![fx(1)]).unwrap_err(), NNError::StateError);
}

#[test]
fn activation_forward_caches_and_backward_scales() {
    let mut relu = Relu::default();
    relu.f_prop(&LayerOutput::Dense(vec![fx(2), -fx(2)])).unwrap();
    // derivative is 1 at 2 and 0 at -2.
    let g = relu.b_prop(&vec![fx(5), fx(5)]).unwrap();
    assert_eq!(g, vec![fx(5), 0]);
    // A gradient of the wrong width is a shape error.
    assert_eq!(relu.b_prop(&vec![fx(1)]).unwrap_err(), NNError::ShapeError);
}

#[test]
fn conv_forward_exact() {
    // One 3x3 channel, one 2x2 kernel that picks each patch's top-left cell.
    let kernels = vec![vec![vec![fx(1), 0, 0, 0]]];
    let biases = vec![fx(1)];
    let mut layer = ConvolutionLayer::with_params((1, 3, 3), (1, 2), kernels, biases).unwrap();
    let input: Vec<i64> = (1..=9).map(fx).collect();
    let out = layer.f_prop(&vec![input]).unwrap();
    match out {
        LayerOutput::Conv(chans) => {
            assert_eq!(chans.len(), 1);
            // output shape (1, 2, 2); each cell is patch top-left plus bias 1.
            assert_eq!(chans[0], vec![fx(2), fx(3), fx(5), fx(6)]);
        },
        _ => panic!("convolution must produce a multi-channel value"),
    }
}

#[test]
fn conv_forward_output_shape() {
    let layer = ConvolutionLayer::new((2, 9, 7), (3, 4)).unwrap();
    let mut layer = layer;
    let input = vec![vec![fx(1); 63], vec![fx(1); 63]];
    let out = layer.f_prop(&input).unwrap();
    match out {
        LayerOutput::Conv(chans) => {
            assert_eq!(chans.len(), 3);
            for ch in &chans {
                assert_eq!(ch.len(), (9 - 4 + 1) * (7 - 4 + 1));
            }
        },
        _ => panic!("convolution must produce a multi-channel value"),
    }
}

#[test]
fn conv_zero_gradient_keeps_parameters() {
    let mut layer = ConvolutionLayer::new_seeded((2, 5, 5), (2, 3), 7).unwrap();
    let input = vec![vec![SCALE / 3; 25], vec![-SCALE / 5; 25]];
    layer.f_prop(&input).unwrap();
    let kernels_before = layer.kernels.clone();
    let biases_before = layer.biases.clone();
    let og_len = 2 * 3 * 3;
    let grad = layer.b_prop(&vec![0i64; og_len], SCALE / 10).unwrap();
    assert_eq!(layer.kernels, kernels_before);
    assert_eq!(layer.biases, biases_before);
    assert_eq!(grad.len(), 2 * 25);
    assert!(grad.iter().all(|g| *g == 0));
}

#[test]
fn conv_errors() {
    // Kernel larger than the input is a geometric shape error.
    assert_eq!(
        ConvolutionLayer::new((1, 2, 2), (1, 3)).unwrap_err(),
        NNError::ShapeError
    );
    // Backward before any forward is a state error.
    let mut layer = ConvolutionLayer::new((1, 4, 4), (1, 2)).unwrap();
    assert_eq!(
        layer.b_prop(&vec![0; 9], SCALE / 10).unwrap_err(),
        NNError::StateError
    );
    // A wrongly shaped input is a shape error.
    assert_eq!(
        layer.f_prop(&vec![vec![0; 7]]).unwrap_err(),
        NNError::ShapeError
    );
}

#[test]
fn conv_init_fb_prop() {
    let mut l1 = ConvolutionLayer::new((1, 8, 8), (1, 3)).unwrap();
    let test: Vec<i64> = (0..8 * 8).map(fx).collect();
    let l1_out = l1.f_prop(&vec![test]).unwrap();

    let mut l2 = ConvolutionLayer::new((2, 28, 28), (2, 5)).unwrap();
    let test28: Vec<i64> = (0..28 * 28).map(fx).collect();
    let _l2_out = l2.f_prop(&vec![test28.clone(), test28.clone()]).unwrap();

    let _l3 = ConvolutionLayer::new((3, 28, 28), (3, 5)).unwrap();

    match l1_out {
        LayerOutput::Conv(out) => {
            let flat: Vec<i64> = out.into_iter().flatten().collect();
            l1.b_prop(&flat, SCALE / 10).unwrap();
        },
        _ => panic!("convolution must produce a multi-channel value"),
    }
}

#[test]
fn random_init_within_unit_range() {
    let layer = DenseLayer::new(5, 4);
    assert_eq!(layer.weights.len(), 4);
    for row in &layer.weights {
        assert_eq!(row.len(), 5);
        assert!(row.iter().all(|w| -SCALE <= *w && *w <= SCALE));
    }
    assert_eq!(layer.biases.len(), 4);
    assert!(layer.biases.iter().all(|b| -SCALE <= *b && *b <= SCALE));
}

#[test]
fn seeded_init_is_reproducible() {
    let a = DenseLayer::new_seeded(4, 3, 42);
    let b = DenseLayer::new_seeded(4, 3, 42);
    assert_eq!(a.weights, b.weights);
    assert_eq!(a.biases, b.biases);
    let c = DenseLayer::new_seeded(4, 3, 43);
    assert!(c.weights != a.weights || c.biases != a.biases);
}

#[test]
fn network_terminal_must_be_dense() {
    let conv = ConvolutionLayer::new_seeded((1, 4, 4), (1, 2), 3).unwrap();
    let mut net = Network::new(vec![
        Net::Layer(LayerType::Conv(conv)),
        Net::Activation(ActivationFn::Tanh(Tanh::default())),
    ]);
    assert_eq!(
        net.predict(&vec![0; 16]).unwrap_err(),
        NNError::InvariantViolation
    );
    // mul_fx is exercised implicitly everywhere; sanity-check one product.
    assert_eq!(mul_fx(fx(3), fx(2)), fx(6));
}
