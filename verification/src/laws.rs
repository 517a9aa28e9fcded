//! Statements the library holds itself to, proved once and for all inputs:
//! bounds on the activation derivatives, when the mean squared error
//! vanishes, and that a backward pass with a zero gradient leaves a
//! convolution layer's parameters untouched.

use crate::activations::{lemma_sigmoid_range, lemma_tanh_range, spec_relu_deriv, spec_sigmoid,
    spec_sigmoid_deriv, spec_tanh, spec_tanh_deriv};
use crate::convolution::{conv_bias_step, conv_kern_step, kg_block, og_chunk, ConvV};
use crate::fixed::{dot_prefix, fx_add, fx_div_count, fx_mul, fx_sub, step_seq, sum_fx,
    sum_prefix, SCALE};
use crate::codec::reset_net;
use crate::layer::{LayerV, TensorV};
use crate::loss::{loss_shape_ok, spec_mse, sq_diff_seq, Loss};
use crate::network::{acts_aligned, layer_same_params, lemma_net_fwd_same_params,
    lemma_train_range_acts_irrelevant, lemma_train_range_frame, lemma_train_range_kinds,
    same_params_net, spec_predict, spec_train, spec_train_epochs, spec_train_range, NetV};
use crate::trainer::{spec_trainer_epoch, spec_trainer_epochs, spec_trainer_run};
use vstd::arithmetic::div_mod::{lemma_div_by_self, lemma_div_is_ordered};
use vstd::prelude::*;

verus! {

/// A dot product against an all-zero vector is zero.
proof fn lemma_dot_prefix_zero(a: Seq<i64>, b: Seq<i64>, n: int)
    requires
        forall|i: int| 0 <= i < b.len() ==> #[trigger] b[i] == 0,
        n <= b.len(),
    ensures
        dot_prefix(a, b, n) == 0,
    decreases n,
{
    if n > 0 {
        lemma_dot_prefix_zero(a, b, n - 1);
    }
}

/// A sum over an all-zero vector is zero.
proof fn lemma_sum_prefix_zero(s: Seq<i64>, n: int)
    requires
        forall|i: int| 0 <= i < s.len() ==> #[trigger] s[i] == 0,
        n <= s.len(),
    ensures
        sum_prefix(s, n) == 0,
    decreases n,
{
    if n > 0 {
        lemma_sum_prefix_zero(s, n - 1);
    }
}

/// Every element of a nonnegative vector bounds its sum from below.
proof fn lemma_sum_prefix_lower(s: Seq<i64>, n: int, i: int)
    requires
        forall|t: int| 0 <= t < s.len() ==> #[trigger] s[t] >= 0,
        0 <= i < n <= s.len(),
    ensures
        sum_prefix(s, n) >= s[i],
        sum_prefix(s, n) >= 0,
    decreases n,
{
    if n > 0 {
        if i == n - 1 {
            if n - 1 > 0 {
                lemma_sum_prefix_lower(s, n - 1, 0);
            }
        } else {
            lemma_sum_prefix_lower(s, n - 1, i);
        }
    }
}

/// A backward pass whose output gradient is zero everywhere leaves a
/// convolution layer's kernels and biases exactly unchanged: in this exact
/// arithmetic no tolerance is needed.
pub proof fn law_conv_zero_gradient_keeps_params(cv: ConvV, og: Seq<i64>, lr: i64)
    requires
        cv.wf(),
        og.len() == cv.out_channels * (cv.out_h() * cv.out_w()),
        forall|i: int| 0 <= i < og.len() ==> #[trigger] og[i] == 0,
    ensures
        conv_kern_step(cv, og, lr) == cv.kernels,
        conv_bias_step(cv, og, lr) == cv.biases,
{
    let sz = (cv.out_h() * cv.out_w()) as int;
    assert forall|ic: int, o: int|
        0 <= ic < cv.channels && 0 <= o < cv.out_channels implies conv_kern_step(cv, og, lr)[
    ic][o] == cv.kernels[ic][o] by {
        let chunk = og_chunk(og, sz, o);
        assert forall|i: int| 0 <= i < chunk.len() implies #[trigger] chunk[i] == 0 by {
            vstd::arithmetic::mul::lemma_mul_nonnegative(o, sz);
            vstd::arithmetic::mul::lemma_mul_inequality(o + 1, cv.out_channels as int, sz);
            assert((o + 1) * sz == o * sz + sz) by (nonlinear_arith);
            assert(og[o * sz + i] == 0);
        }
        let kg = kg_block(
            cv.input[ic],
            chunk,
            cv.out_h() as int,
            cv.out_w() as int,
            cv.kernel as int,
            cv.width as int,
        );
        assert forall|t: int| 0 <= t < kg.len() implies #[trigger] kg[t] == 0 by {
            vstd::arithmetic::mul::lemma_mul_nonnegative(o, sz);
            vstd::arithmetic::mul::lemma_mul_inequality(o + 1, cv.out_channels as int, sz);
            assert((o + 1) * sz == o * sz + sz) by (nonlinear_arith);
            assert(chunk.len() == sz);
            lemma_dot_prefix_zero(
                crate::convolution::patch(
                    cv.input[ic],
                    t / (cv.kernel as int),
                    t % (cv.kernel as int),
                    cv.out_h() as int,
                    cv.out_w() as int,
                    cv.width as int,
                ),
                chunk,
                chunk.len() as int,
            );
        }
        assert(step_seq(cv.kernels[ic][o], kg, lr) =~= cv.kernels[ic][o]);
    }
    assert forall|ic: int|
        0 <= ic < cv.channels implies conv_kern_step(cv, og, lr)[ic] == cv.kernels[ic] by {
        assert(conv_kern_step(cv, og, lr)[ic] =~= cv.kernels[ic]);
    }
    assert(conv_kern_step(cv, og, lr) =~= cv.kernels);
    assert forall|o: int|
        0 <= o < cv.out_channels implies conv_bias_step(cv, og, lr)[o] == cv.biases[o] by {
        let chunk = og_chunk(og, sz, o);
        assert forall|i: int| 0 <= i < chunk.len() implies #[trigger] chunk[i] == 0 by {
            vstd::arithmetic::mul::lemma_mul_nonnegative(o, sz);
            vstd::arithmetic::mul::lemma_mul_inequality(o + 1, cv.out_channels as int, sz);
            assert((o + 1) * sz == o * sz + sz) by (nonlinear_arith);
            assert(og[o * sz + i] == 0);
        }
        lemma_sum_prefix_zero(chunk, chunk.len() as int);
        assert(sum_fx(chunk) == 0);
    }
    assert(conv_bias_step(cv, og, lr) =~= cv.biases);
}

/// The mean squared error of a prediction that equals the truth elementwise
/// is exactly zero.
pub proof fn law_mse_zero_of_equal(truth: Seq<i64>, prediction: Seq<i64>)
    requires
        loss_shape_ok(truth, prediction),
        truth.len() <= usize::MAX,
        truth == prediction,
    ensures
        spec_mse(truth, prediction) == 0,
{
    let terms = sq_diff_seq(truth, prediction);
    assert forall|i: int| 0 <= i < terms.len() implies #[trigger] terms[i] == 0 by {
        assert(fx_sub(truth[i], prediction[i]) == 0);
    }
    lemma_sum_prefix_zero(terms, terms.len() as int);
    crate::fixed::lemma_tdiv_bounds(0, truth.len() as int);
}

/// The mean squared error is strictly positive as soon as one squared
/// difference reaches the sample count. (The converse of
/// [`law_mse_zero_of_equal`] does not hold exactly: a difference below one
/// fixed-point step squares to zero, for example a truth of `[0]` against a
/// prediction of `[1]`.)
pub proof fn law_mse_positive(truth: Seq<i64>, prediction: Seq<i64>, i: int)
    requires
        loss_shape_ok(truth, prediction),
        truth.len() <= usize::MAX,
        0 <= i < truth.len(),
        fx_mul(
            fx_sub(truth[i], prediction[i]),
            fx_sub(truth[i], prediction[i]),
        ) >= truth.len(),
    ensures
        spec_mse(truth, prediction) >= 1,
{
    let terms = sq_diff_seq(truth, prediction);
    assert forall|t: int| 0 <= t < terms.len() implies #[trigger] terms[t] >= 0 by {
        let d = fx_sub(truth[t], prediction[t]);
        assert(d * d >= 0) by (nonlinear_arith);
        crate::fixed::lemma_tdiv_bounds(d * d, SCALE as int);
    }
    lemma_sum_prefix_lower(terms, terms.len() as int, i);
    let n = truth.len() as int;
    let s = sum_fx(terms);
    assert(s >= n);
    lemma_div_is_ordered(n, s as int, n);
    lemma_div_by_self(n);
}

/// The sigmoid derivative is never negative, never exceeds one quarter, and
/// is strictly positive wherever the sigmoid itself is at least two
/// fixed-point steps away from its bounds. (At saturated arguments — for
/// example any `x` at or beyond the sigmoid cutoff — it is exactly zero.)
pub proof fn law_sigmoid_derivative_bounds(x: i64)
    ensures
        0 <= spec_sigmoid_deriv(x) <= SCALE / 4,
        2 <= spec_sigmoid(x) <= SCALE - 2 ==> spec_sigmoid_deriv(x) >= 1,
{
    lemma_sigmoid_range(x);
    let s = spec_sigmoid(x);
    let u = fx_sub(SCALE, s);
    assert(u == SCALE - s);
    vstd::arithmetic::mul::lemma_mul_nonnegative(s as int, u as int);
    crate::fixed::lemma_tdiv_bounds(s * u, SCALE as int);
    assert(4 * (s * u) <= SCALE * SCALE) by (nonlinear_arith)
        requires
            0 <= s <= SCALE,
            u == SCALE - s,
            SCALE == 65536,
    ;
    lemma_div_is_ordered(s * u, (SCALE / 4) * SCALE, SCALE as int);
    vstd::arithmetic::div_mod::lemma_div_multiples_vanish((SCALE / 4) as int, SCALE as int);
    if 2 <= s <= SCALE - 2 {
        assert(s * u >= SCALE) by (nonlinear_arith)
            requires
                2 <= s <= SCALE - 2,
                u == SCALE - s,
                SCALE == 65536,
        ;
        lemma_div_is_ordered(SCALE as int, s * u, SCALE as int);
        lemma_div_by_self(SCALE as int);
    }
}

/// The `tanh` derivative is never negative, never exceeds one, and is
/// strictly positive wherever `tanh` itself has not saturated. (At a
/// saturated argument — for example any `x` at or beyond the `tanh` cutoff —
/// it is exactly zero.)
pub proof fn law_tanh_derivative_bounds(x: i64)
    ensures
        0 <= spec_tanh_deriv(x) <= SCALE,
        -SCALE < spec_tanh(x) < SCALE ==> spec_tanh_deriv(x) >= 2,
{
    lemma_tanh_range(x);
    let t = spec_tanh(x);
    let tt = fx_mul(t, t);
    assert(t * t >= 0) by (nonlinear_arith);
    crate::fixed::lemma_tdiv_bounds(t * t, SCALE as int);
    assert(t * t <= SCALE * SCALE) by (nonlinear_arith)
        requires
            -SCALE <= t <= SCALE,
            SCALE == 65536,
    ;
    lemma_div_is_ordered(t * t, SCALE * SCALE, SCALE as int);
    vstd::arithmetic::div_mod::lemma_div_multiples_vanish(SCALE as int, SCALE as int);
    assert(tt <= SCALE);
    if -SCALE < t < SCALE {
        assert(t * t <= (SCALE - 1) * (SCALE - 1)) by (nonlinear_arith)
            requires
                -SCALE < t < SCALE,
                SCALE == 65536,
        ;
        lemma_div_is_ordered(t * t, (SCALE - 1) * (SCALE - 1), SCALE as int);
        assert(((SCALE - 1) * (SCALE - 1)) as int / (SCALE as int) == SCALE - 2);
        assert(tt <= SCALE - 2);
    }
}

/// A loaded network predicts exactly what the saved one predicts: the
/// forward pass never reads the caches that saving drops, so for every
/// probe input the round-tripped network returns the same value (and the
/// same failure, if any).
pub proof fn law_loaded_network_predicts_identically(n: NetV, x: Seq<i64>)
    ensures
        spec_predict(reset_net(n), x).1 == spec_predict(n, x).1,
{
    let rn = reset_net(n);
    assert(same_params_net(rn, n)) by {
        assert forall|i: int|
            0 <= i < rn.layers.len() implies layer_same_params(
            #[trigger] rn.layers[i],
            n.layers[i],
        ) by {
            match n.layers[i] {
                LayerV::Dense(_) => {},
                LayerV::Conv(_) => {},
            }
        }
    }
    if n.layers.len() == n.acts.len() {
        lemma_net_fwd_same_params(rn, n, TensorV::Dense(x), n.layers.len() as int);
    }
}

/// The rectifier's derivative is exactly one for positive arguments and
/// exactly zero otherwise.
pub proof fn law_relu_derivative(x: i64)
    ensures
        spec_relu_deriv(x) == 0 || spec_relu_deriv(x) == SCALE,
        (spec_relu_deriv(x) == SCALE) <==> x > 0,
{
}

/// Dividing a scalar by a count of one gives it back.
proof fn lemma_div_count_one(m: i64)
    ensures
        fx_div_count(m, 1) == m,
{
    if m >= 0 {
        vstd::arithmetic::div_mod::lemma_div_multiples_vanish(m as int, 1);
    } else {
        vstd::arithmetic::div_mod::lemma_div_multiples_vanish(-(m as int), 1);
    }
}

/// With one worker, every partitioned epoch is one plain whole-set epoch:
/// the single batch is the whole set, the merge fold starts from (and ends
/// at) that worker's parameters, and the loss report reduces to the plain
/// epoch mean.
proof fn lemma_trainer_epochs_single_worker<L: Loss>(
    lf: L,
    net: NetV,
    xs: Seq<Seq<i64>>,
    ys: Seq<Seq<i64>>,
    lr: i64,
    e: int,
)
    requires
        net.layers_wf(),
        0 <= e,
    ensures
        spec_trainer_epochs(lf, net, xs, ys, lr, xs.len() as int, 1, e).1 == spec_train_epochs(
            lf,
            net,
            xs,
            ys,
            lr,
            e,
        ).1,
        spec_trainer_epochs(lf, net, xs, ys, lr, xs.len() as int, 1, e).1 is Ok ==> acts_aligned(
            spec_trainer_epochs(lf, net, xs, ys, lr, xs.len() as int, 1, e).0,
            spec_train_epochs(lf, net, xs, ys, lr, e).0,
        ),
        spec_train_epochs(lf, net, xs, ys, lr, e).0.layers_wf(),
    decreases e,
{
    let len = xs.len() as int;
    if e <= 0 {
    } else {
        lemma_trainer_epochs_single_worker(lf, net, xs, ys, lr, e - 1);
        let (t1, r1) = spec_trainer_epochs(lf, net, xs, ys, lr, len, 1, e - 1);
        let (n1, s1) = spec_train_epochs(lf, net, xs, ys, lr, e - 1);
        lemma_train_range_frame(lf, n1, xs, ys, lr, 0, len);
        match r1 {
            Err(_) => {},
            Ok(ms) => {
                reveal_with_fuel(crate::trainer::spec_epoch_fold, 2);
                assert(acts_aligned(t1, n1));
                assert((1 - 1) * len == 0);
                lemma_train_range_acts_irrelevant(lf, t1, n1, xs, ys, lr, 0, len);
                lemma_train_range_kinds(lf, n1, xs, ys, lr, 0, len);
                let (wnet, rw) = spec_train_range(lf, t1, xs, ys, lr, 0, len);
                let (n2, s2) = spec_train_range(lf, n1, xs, ys, lr, 0, len);
                match rw {
                    Err(_) => {},
                    Ok(wsum) => {
                        let wmean = crate::network::mean_loss(wsum, xs.len());
                        assert(fx_add(0i64, wmean) == wmean);
                        lemma_div_count_one(fx_add(0i64, wmean));
                        assert(spec_trainer_epoch(lf, t1, xs, ys, lr, len, 1).1 == Ok::<
                            i64,
                            crate::NNError,
                        >(wmean));
                        assert(acts_aligned(
                            spec_trainer_epoch(lf, t1, xs, ys, lr, len, 1).0,
                            n2,
                        ));
                    },
                }
            },
        }
    }
}

/// Running the partitioned trainer with one worker returns exactly the
/// per-epoch losses of plain sequential training, and, when it succeeds, the
/// same parameters. (After a failure the two leave different partial states:
/// the trainer discards its failed worker's clone while plain training keeps
/// the partial epoch; the reported failure is still identical.)
pub proof fn law_single_worker_trainer_matches_training<L: Loss>(
    lf: L,
    net: NetV,
    xs: Seq<Seq<i64>>,
    ys: Seq<Seq<i64>>,
    lr: i64,
    epochs: int,
)
    requires
        net.layers_wf(),
        0 <= epochs,
    ensures
        spec_trainer_run(lf, net, xs, ys, lr, epochs, 1).1 == spec_train(
            lf,
            net,
            xs,
            ys,
            lr,
            epochs,
        ).1,
        spec_trainer_run(lf, net, xs, ys, lr, epochs, 1).1 is Ok ==> spec_trainer_run(
            lf,
            net,
            xs,
            ys,
            lr,
            epochs,
            1,
        ).0.layers == spec_train(lf, net, xs, ys, lr, epochs).0.layers,
{
    if xs.len() == ys.len() {
        assert((xs.len() as int) / 1 == xs.len() as int) by {
            vstd::arithmetic::div_mod::lemma_div_multiples_vanish(xs.len() as int, 1);
        }
        lemma_trainer_epochs_single_worker(lf, net, xs, ys, lr, epochs);
    }
}

} // verus!