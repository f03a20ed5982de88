use rand::rngs::StdRng;
use rand::{Rng, SeedableRng};
use std::cell::RefCell;
use xor_net::matrix::Matrix;
use xor_net::network::{reports_progress, Activation, Network};

fn sigmoid(x: f64) -> f64 {
    1.0 / (1.0 + std::f64::consts::E.powf(-x))
}

fn sigmoid_derivative(y: f64) -> f64 {
    y * (1.0 - y)
}

fn identity(x: f64) -> f64 {
    x
}

fn unit(_y: f64) -> f64 {
    1.0
}

fn sigmoid_pair() -> Activation<fn(f64) -> f64, fn(f64) -> f64> {
    Activation { function: sigmoid as fn(f64) -> f64, derivative: sigmoid_derivative as fn(f64) -> f64 }
}

#[test]
fn new_sizes_every_matrix() {
    let rng = RefCell::new(StdRng::seed_from_u64(3));
    let net = Network::new(vec![2, 3, 1], sigmoid_pair(), 0.5, || rng.borrow_mut().gen_range(0.0..1.0));
    assert_eq!(net.weights.len(), 2);
    assert_eq!(net.biases.len(), 2);
    assert_eq!((net.weights[0].rows, net.weights[0].cols), (3, 2));
    assert_eq!((net.weights[1].rows, net.weights[1].cols), (1, 3));
    assert_eq!((net.biases[0].rows, net.biases[0].cols), (3, 1));
    assert_eq!((net.biases[1].rows, net.biases[1].cols), (1, 1));
    assert!(net.data.is_empty());
    assert_eq!(net.learning_rate, 0.5);
    for m in net.weights.iter().chain(net.biases.iter()) {
        assert!(m.data.iter().all(|&x| (0.0..1.0).contains(&x)));
    }
}

#[test]
fn feed_forward_stays_in_sigmoid_range() {
    let rng = RefCell::new(StdRng::seed_from_u64(42));
    let mut net = Network::new(vec![2, 3, 1], sigmoid_pair(), 0.5, || rng.borrow_mut().gen_range(0.0..1.0));
    for input in [vec![0.0, 0.0], vec![0.0, 1.0], vec![1.0, 0.0], vec![1.0, 1.0], vec![-5.0, 7.5]] {
        let out = net.feed_forward(Matrix::from(input.clone()));
        assert_eq!((out.rows, out.cols), (1, 1));
        assert!(out.data[0] > 0.0 && out.data[0] < 1.0);
        assert_eq!(net.data.len(), 3);
        assert_eq!(net.data[0].data, input);
        assert_eq!(net.data[2], out);
    }
}

#[test]
fn one_step_on_a_linear_unit() {
    // one input, one output, identity activation with derivative one,
    // every weight and bias starting at 0.5
    let pair = Activation { function: identity as fn(f64) -> f64, derivative: unit as fn(f64) -> f64 };
    let mut net = Network::new(vec![1, 1], pair, 0.5, || 0.5);
    let out = net.feed_forward(Matrix::from(vec![2.0]));
    assert_eq!(out.data, vec![1.5]);
    net.back_propogate(out, Matrix::from(vec![3.5]));
    // error 2.0, gradient 1.0 * 2.0 * 0.5 = 1.0
    assert_eq!(net.weights[0].data, vec![2.5]);
    assert_eq!(net.biases[0].data, vec![1.5]);
}

#[test]
fn train_learns_xor() {
    let rng = RefCell::new(StdRng::seed_from_u64(7));
    let mut net = Network::new(vec![2, 3, 1], sigmoid_pair(), 0.5, || rng.borrow_mut().gen_range(0.0..1.0));
    let inputs = vec![vec![0.0, 0.0], vec![0.0, 1.0], vec![1.0, 0.0], vec![1.0, 1.0]];
    let targets = vec![vec![0.0], vec![1.0], vec![1.0], vec![0.0]];
    net.train(inputs, targets, 10000);
    let zero_zero = net.feed_forward(Matrix::from(vec![0.0, 0.0])).data[0];
    let zero_one = net.feed_forward(Matrix::from(vec![0.0, 1.0])).data[0];
    assert!(zero_zero < 0.5, "0 XOR 0 gave {}", zero_zero);
    assert!(zero_one > 0.5, "0 XOR 1 gave {}", zero_one);
}

#[test]
fn train_with_no_epochs_changes_nothing() {
    let mut net = Network::new(vec![2, 1], sigmoid_pair(), 0.5, || 0.25);
    net.train(vec![vec![1.0, 1.0]], vec![vec![1.0]], 0);
    assert_eq!(net.weights[0].data, vec![0.25, 0.25]);
    assert!(net.data.is_empty());
}

#[test]
fn progress_cadence() {
    assert!(reports_progress(1, 50));
    assert!(reports_progress(37, 99));
    // epochs / 100 == 100 == 0b1100100
    assert!(reports_progress(1, 10000));
    assert!(!reports_progress(4, 10000));
    assert!(reports_progress(3, 10000));
    assert!(!reports_progress(100, 10000));
}
