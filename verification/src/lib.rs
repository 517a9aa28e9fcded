//! A small neural-network training engine over exact fixed-point arithmetic:
//! dense and convolutional layers, elementwise activations, mean-squared-error
//! loss, sequential and partitioned (multi-worker) stochastic gradient
//! descent, and a binary persistence format with a proved round trip.
//!
//! Every scalar is an `i64` holding a binary fixed-point number with
//! [`SCALE`](fixed::SCALE) fractional steps per unit. All arithmetic
//! saturates at the `i64` bounds and truncates toward zero on division, so
//! each operation is a total function and every computation here is
//! deterministic and exactly specified.

use vstd::prelude::*;

pub mod activations;
pub mod codec;
pub mod convolution;
pub mod dense;
pub mod fixed;
pub mod laws;
pub mod layer;
pub mod loss;
pub mod network;
mod rng;
pub mod trainer;
pub mod views;

pub use fixed::SCALE;

verus! {

/// The failures a caller of this library can observe.
#[derive(Debug, Clone, Copy, PartialEq, Eq, Structural)]
pub enum NNError {
    /// An input length or shape does not match a layer's configured
    /// dimensions, or construction parameters are geometrically invalid.
    ShapeError,
    /// A backward pass was invoked before a matching forward pass populated
    /// the required cache.
    StateError,
    /// The pipeline's terminal output is not a dense vector.
    InvariantViolation,
    /// A persisted model could not be decoded (truncated or malformed data).
    SerializationError,
}

} // verus!
