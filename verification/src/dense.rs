//! Fully-connected affine layer.

use crate::fixed::{add_fx, dot, dot_fx, fx_add, fx_mul, mul_fx, step_seq, step_vec, zeros_vec,
    SCALE};
use crate::layer::{clone_mat, clone_row, LayerOutput, TensorV};
use crate::rng::{random_row, random_row_seeded};
use crate::views::{mat_deep, row_deep};
use crate::NNError;
use vstd::prelude::*;

verus! {

/// Mathematical model of a dense layer: a cached input, a weight matrix
/// (one row per output neuron) and a bias vector.
pub struct DenseV {
    pub input: Seq<i64>,
    pub weights: Seq<Seq<i64>>,
    pub biases: Seq<i64>,
}

impl DenseV {
    /// The configured input width: the length of the cached input, which is
    /// zero-filled to that width on construction.
    pub open spec fn input_size(self) -> nat {
        self.input.len()
    }

    /// The configured output width.
    pub open spec fn output_size(self) -> nat {
        self.weights.len()
    }

    /// Internal consistency: one bias per output neuron, and every weight
    /// row as wide as the cached input.
    pub open spec fn wf(self) -> bool {
        &&& self.biases.len() == self.weights.len()
        &&& forall|j: int|
            0 <= j < self.weights.len() ==> (#[trigger] self.weights[j]).len()
                == self.input.len()
    }
}

/// The affine forward map: `y[j] = dot(w[j], x) + b[j]`.
pub open spec fn dense_out(w: Seq<Seq<i64>>, b: Seq<i64>, x: Seq<i64>) -> Seq<i64>
    recommends
        w.len() == b.len(),
{
    Seq::new(w.len(), |j: int| fx_add(dot_fx(w[j], x), b[j]))
}

/// Partial sum over the first `n` output neurons of column `i` of the weight
/// matrix against the output gradient.
pub open spec fn col_prefix(w: Seq<Seq<i64>>, og: Seq<i64>, i: int, n: int) -> i64
    decreases n,
{
    if n <= 0 {
        0i64
    } else {
        fx_add(col_prefix(w, og, i, n - 1), fx_mul(w[n - 1][i], og[n - 1]))
    }
}

/// Gradient with respect to the layer's input: the transposed weight matrix
/// applied to the output gradient, using the pre-update weights.
pub open spec fn dense_input_grad(w: Seq<Seq<i64>>, og: Seq<i64>, input_size: nat) -> Seq<i64> {
    Seq::new(input_size, |i: int| col_prefix(w, og, i, w.len() as int))
}

/// The weight gradient of one output neuron: the cached input scaled by that
/// neuron's output gradient.
pub open spec fn row_scaled(x: Seq<i64>, g: i64) -> Seq<i64> {
    Seq::new(x.len(), |i: int| fx_mul(x[i], g))
}

/// All weight rows after one gradient-descent step.
pub open spec fn dense_w_step(w: Seq<Seq<i64>>, x: Seq<i64>, og: Seq<i64>, lr: i64) -> Seq<
    Seq<i64>,
> {
    Seq::new(w.len(), |j: int| step_seq(w[j], row_scaled(x, og[j]), lr))
}

/// Fully-connected affine layer with trainable weights and biases. The most
/// recent forward input is cached for the paired backward call.
#[derive(Debug)]
pub struct DenseLayer {
    pub input: Vec<i64>,
    pub weights: Vec<Vec<i64>>,
    pub biases: Vec<i64>,
}

impl View for DenseLayer {
    type V = DenseV;

    open spec fn view(&self) -> DenseV {
        DenseV {
            input: self.input.deep_view(),
            weights: self.weights.deep_view(),
            biases: self.biases.deep_view(),
        }
    }
}

impl Clone for DenseLayer {
    /// A clone models the same layer.
    fn clone(&self) -> (r: Self)
        ensures
            r@ == self@,
    {
        let r = DenseLayer {
            input: clone_row(&self.input),
            weights: clone_mat(&self.weights),
            biases: clone_row(&self.biases),
        };
        proof {
            assert(r@ == self@);
        }
        r
    }
}

impl DenseLayer {
    /// A fresh layer: weights and biases drawn uniformly from `[-1, 1]`,
    /// cached input zero-filled to the configured width.
    pub fn new(input_size: usize, output_size: usize) -> (r: Self)
        ensures
            r@.wf(),
            r@.input_size() == input_size,
            r@.output_size() == output_size,
            r@.input == Seq::new(input_size as nat, |i: int| 0i64),
            forall|j: int, i: int|
                0 <= j < output_size && 0 <= i < input_size ==> -SCALE
                    <= (#[trigger] r@.weights[j][i]) <= SCALE,
            forall|j: int| 0 <= j < output_size ==> -SCALE <= (#[trigger] r@.biases[j]) <= SCALE,
    {
        let mut weights: Vec<Vec<i64>> = Vec::new();
        let mut j: usize = 0;
        while j < output_size
            invariant
                j <= output_size,
                weights@.len() == j,
                forall|t: int| 0 <= t < j ==> (#[trigger] weights@[t])@.len() == input_size,
                forall|t: int, i: int|
                    0 <= t < j && 0 <= i < input_size ==> -SCALE <= (#[trigger] weights@[t]@[i])
                        <= SCALE,
            decreases output_size - j,
        {
            weights.push(random_row(input_size));
            j = j + 1;
        }
        let biases = random_row(output_size);
        let r = DenseLayer { input: zeros_vec(input_size), weights, biases };
        proof {
            mat_deep(r.weights);
            row_deep(r.input);
            row_deep(r.biases);
        }
        r
    }

    /// Like [`DenseLayer::new`], drawing the parameters from a generator
    /// seeded with `seed`, for reproducible runs.
    pub fn new_seeded(input_size: usize, output_size: usize, seed: u64) -> (r: Self)
        ensures
            r@.wf(),
            r@.input_size() == input_size,
            r@.output_size() == output_size,
            r@.input == Seq::new(input_size as nat, |i: int| 0i64),
            forall|j: int, i: int|
                0 <= j < output_size && 0 <= i < input_size ==> -SCALE
                    <= (#[trigger] r@.weights[j][i]) <= SCALE,
            forall|j: int| 0 <= j < output_size ==> -SCALE <= (#[trigger] r@.biases[j]) <= SCALE,
    {
        let mut rng = crate::rng::seeded_rng(seed);
        let mut weights: Vec<Vec<i64>> = Vec::new();
        let mut j: usize = 0;
        while j < output_size
            invariant
                j <= output_size,
                weights@.len() == j,
                forall|t: int| 0 <= t < j ==> (#[trigger] weights@[t])@.len() == input_size,
                forall|t: int, i: int|
                    0 <= t < j && 0 <= i < input_size ==> -SCALE <= (#[trigger] weights@[t]@[i])
                        <= SCALE,
            decreases output_size - j,
        {
            weights.push(random_row_seeded(&mut rng, input_size));
            j = j + 1;
        }
        let biases = random_row_seeded(&mut rng, output_size);
        let r = DenseLayer { input: zeros_vec(input_size), weights, biases };
        proof {
            mat_deep(r.weights);
            row_deep(r.input);
            row_deep(r.biases);
        }
        r
    }

    /// A layer with explicitly given parameters. Fails with a
    /// [`NNError::ShapeError`] when the weight matrix is ragged or the bias
    /// count differs from the row count.
    pub fn with_params(weights: Vec<Vec<i64>>, biases: Vec<i64>, input_size: usize) -> (r: Result<
        Self,
        NNError,
    >)
        ensures
            match r {
                Ok(l) => {
                    &&& l@.wf()
                    &&& l@.weights == weights.deep_view()
                    &&& l@.biases == biases.deep_view()
                    &&& l@.input == Seq::new(input_size as nat, |i: int| 0i64)
                    &&& weights@.len() == biases@.len()
                    &&& forall|j: int|
                        0 <= j < weights@.len() ==> (#[trigger] weights@[j])@.len() == input_size
                },
                Err(e) => {
                    &&& e == NNError::ShapeError
                    &&& !(weights@.len() == biases@.len() && forall|j: int|
                        0 <= j < weights@.len() ==> (#[trigger] weights@[j])@.len() == input_size)
                },
            },
    {
        if weights.len() != biases.len() {
            return Err(NNError::ShapeError);
        }
        let mut j: usize = 0;
        while j < weights.len()
            invariant
                j <= weights@.len(),
                weights@.len() == biases@.len(),
                forall|t: int| 0 <= t < j ==> (#[trigger] weights@[t])@.len() == input_size,
            decreases weights@.len() - j,
        {
            if weights[j].len() != input_size {
                return Err(NNError::ShapeError);
            }
            j = j + 1;
        }
        let r = DenseLayer { input: zeros_vec(input_size), weights, biases };
        proof {
            mat_deep(r.weights);
            row_deep(r.input);
            row_deep(r.biases);
        }
        Ok(r)
    }

    /// Forward pass: cache the input and return the affine image
    /// `y[j] = dot(w[j], x) + b[j]`. An input of the wrong width is a
    /// [`NNError::ShapeError`] and leaves the layer untouched.
    pub fn f_prop(&mut self, input: &Vec<i64>) -> (r: Result<LayerOutput, NNError>)
        requires
            old(self)@.wf(),
        ensures
            final(self)@.wf(),
            if input@.len() == old(self)@.input_size() {
                &&& r is Ok
                &&& r->Ok_0@ == TensorV::Dense(
                    dense_out(old(self)@.weights, old(self)@.biases, input@),
                )
                &&& final(self)@ == (DenseV { input: input@, ..old(self)@ })
            } else {
                &&& r == Err::<LayerOutput, NNError>(NNError::ShapeError)
                &&& final(self)@ == old(self)@
            },
    {
        proof {
            row_deep(*input);
            row_deep(self.input);
        }
        if input.len() != self.input.len() {
            return Err(NNError::ShapeError);
        }
        proof {
            mat_deep(self.weights);
            row_deep(self.biases);
            assert forall|t: int| 0 <= t < self.weights@.len() implies (
            #[trigger] self.weights@[t])@.len() == input@.len() by {
                assert(self.weights.deep_view()[t] == self.weights@[t]@);
            }
        }
        let out = affine_out(&self.weights, &self.biases, input);
        self.input = clone_row(input);
        proof {
            row_deep(self.input);
            row_deep(out);
        }
        Ok(LayerOutput::Dense(out))
    }

    /// Forward pass without caching, for read-only prediction.
    pub fn f_prop_ref(&self, input: &Vec<i64>) -> (r: Result<LayerOutput, NNError>)
        requires
            self@.wf(),
        ensures
            if input@.len() == self@.input_size() {
                &&& r is Ok
                &&& r->Ok_0@ == TensorV::Dense(dense_out(self@.weights, self@.biases, input@))
            } else {
                r == Err::<LayerOutput, NNError>(NNError::ShapeError)
            },
    {
        proof {
            row_deep(*input);
            row_deep(self.input);
        }
        if input.len() != self.input.len() {
            return Err(NNError::ShapeError);
        }
        proof {
            mat_deep(self.weights);
            row_deep(self.biases);
            assert forall|t: int| 0 <= t < self.weights@.len() implies (
            #[trigger] self.weights@[t])@.len() == input@.len() by {
                assert(self.weights.deep_view()[t] == self.weights@[t]@);
            }
        }
        let out = affine_out(&self.weights, &self.biases, input);
        proof {
            row_deep(out);
        }
        Ok(LayerOutput::Dense(out))
    }

    /// Backward pass: return the gradient with respect to the input, taken
    /// against the pre-update weights, then step the weights and biases by
    /// the learning rate. A gradient of the wrong width is a
    /// [`NNError::ShapeError`] and leaves the layer untouched.
    pub fn b_prop(&mut self, output_gradient: &Vec<i64>, learning_rate: i64) -> (r: Result<
        Vec<i64>,
        NNError,
    >)
        requires
            old(self)@.wf(),
        ensures
            final(self)@.wf(),
            if output_gradient@.len() == old(self)@.output_size() {
                &&& r is Ok
                &&& r->Ok_0@ == dense_input_grad(
                    old(self)@.weights,
                    output_gradient@,
                    old(self)@.input_size(),
                )
                &&& final(self)@ == (DenseV {
                    weights: dense_w_step(
                        old(self)@.weights,
                        old(self)@.input,
                        output_gradient@,
                        learning_rate,
                    ),
                    biases: step_seq(old(self)@.biases, output_gradient@, learning_rate),
                    ..old(self)@
                })
            } else {
                &&& r == Err::<Vec<i64>, NNError>(NNError::ShapeError)
                &&& final(self)@ == old(self)@
            },
    {
        proof {
            mat_deep(self.weights);
            row_deep(*output_gradient);
            row_deep(self.biases);
        }
        if output_gradient.len() != self.weights.len() {
            return Err(NNError::ShapeError);
        }
        // Gradient w.r.t. the input, from the weights as they stand now.
        let mut input_grad: Vec<i64> = Vec::new();
        let mut i: usize = 0;
        while i < self.input.len()
            invariant
                self@.wf(),
                output_gradient@.len() == self@.output_size(),
                i <= self@.input_size(),
                input_grad@.len() == i,
                forall|t: int|
                    0 <= t < i ==> input_grad@[t] == col_prefix(
                        self@.weights,
                        output_gradient@,
                        t,
                        self@.output_size() as int,
                    ),
            decreases self@.input_size() - i,
        {
            let mut acc: i64 = 0;
            let mut j: usize = 0;
            while j < self.weights.len()
                invariant
                    self@.wf(),
                    output_gradient@.len() == self@.output_size(),
                    i < self@.input_size(),
                    j <= self@.output_size(),
                    acc == col_prefix(self@.weights, output_gradient@, i as int, j as int),
                decreases self@.output_size() - j,
            {
                proof {
                    mat_deep(self.weights);
                    row_deep(*output_gradient);
                    row_deep(self.input);
                    assert(self@.weights[j as int] == self.weights@[j as int]@);
                }
                acc = add_fx(acc, mul_fx(self.weights[j][i], output_gradient[j]));
                j = j + 1;
            }
            proof {
                row_deep(self.input);
            }
            input_grad.push(acc);
            i = i + 1;
        }
        proof {
            assert(input_grad@ =~= dense_input_grad(
                self@.weights,
                output_gradient@,
                self@.input_size(),
            ));
        }
        // Step the weights: each row moves by the cached input scaled by the
        // row's output gradient and the learning rate.
        let mut new_weights: Vec<Vec<i64>> = Vec::new();
        let mut j: usize = 0;
        while j < self.weights.len()
            invariant
                self@.wf(),
                output_gradient@.len() == self@.output_size(),
                j <= self@.output_size(),
                new_weights@.len() == j,
                forall|t: int|
                    0 <= t < j ==> (#[trigger] new_weights@[t])@ == step_seq(
                        self@.weights[t],
                        row_scaled(self@.input, output_gradient@[t]),
                        learning_rate,
                    ),
            decreases self@.output_size() - j,
        {
            proof {
                mat_deep(self.weights);
                row_deep(self.input);
                row_deep(*output_gradient);
                assert(self@.weights[j as int] == self.weights@[j as int]@);
            }
            let wg = scaled_row(&self.input, output_gradient[j]);
            new_weights.push(step_vec(&self.weights[j], &wg, learning_rate));
            j = j + 1;
        }
        proof {
            mat_deep(new_weights);
            assert(new_weights.deep_view() =~= dense_w_step(
                self@.weights,
                self@.input,
                output_gradient@,
                learning_rate,
            ));
        }
        self.weights = new_weights;
        self.biases = step_vec(&self.biases, output_gradient, learning_rate);
        proof {
            row_deep(self.biases);
        }
        Ok(input_grad)
    }
}

/// The affine image `y[j] = dot(w[j], x) + b[j]` of an input vector.
fn affine_out(weights: &Vec<Vec<i64>>, biases: &Vec<i64>, input: &Vec<i64>) -> (r: Vec<i64>)
    requires
        biases@.len() == weights@.len(),
        forall|j: int|
            0 <= j < weights@.len() ==> (#[trigger] weights@[j])@.len() == input@.len(),
    ensures
        r@ == dense_out(weights.deep_view(), biases.deep_view(), input@),
{
    let mut out: Vec<i64> = Vec::new();
    let mut j: usize = 0;
    while j < weights.len()
        invariant
            biases@.len() == weights@.len(),
            forall|t: int|
                0 <= t < weights@.len() ==> (#[trigger] weights@[t])@.len() == input@.len(),
            j <= weights@.len(),
            out@.len() == j,
            forall|t: int|
                0 <= t < j ==> out@[t] == fx_add(dot_fx(weights@[t]@, input@), biases@[t]),
        decreases weights@.len() - j,
    {
        out.push(add_fx(dot(&weights[j], input), biases[j]));
        j = j + 1;
    }
    proof {
        mat_deep(*weights);
        row_deep(*biases);
        assert(out@ =~= dense_out(weights.deep_view(), biases.deep_view(), input@));
    }
    out
}

/// The cached input scaled by one output neuron's gradient.
fn scaled_row(x: &Vec<i64>, g: i64) -> (r: Vec<i64>)
    ensures
        r@ == row_scaled(x@, g),
{
    let mut out: Vec<i64> = Vec::new();
    let mut i: usize = 0;
    while i < x.len()
        invariant
            i <= x@.len(),
            out@.len() == i,
            forall|t: int| 0 <= t < i ==> out@[t] == fx_mul(x@[t], g),
        decreases x@.len() - i,
    {
        out.push(mul_fx(x[i], g));
        i = i + 1;
    }
    proof {
        assert(out@ =~= row_scaled(x@, g));
    }
    out
}

} // verus!
