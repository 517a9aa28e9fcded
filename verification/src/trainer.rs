//! Partitioned-epoch training driver.
//!
//! Each epoch partitions the training set into `worker_count` contiguous
//! equal batches (the tail of an uneven split is dropped), trains one clone
//! of the master network per batch independently, and folds the resulting
//! parameters back into the master by a pairwise running average: the fold
//! starts from the first worker's parameters and averages each later
//! worker's in turn. The workers are independent, so the schedule cannot
//! change the result; this driver runs them in worker order.

use crate::convolution::ConvV;
use crate::dense::DenseV;
use crate::fixed::{add_fx, avg_seq, avg_vec, div_count_fx, fx_add, fx_div_count};
use crate::layer::{LayerType, LayerV};
use crate::loss::Loss;
use crate::network::{mean_loss, spec_train_range, NetV, Network};
use crate::views::{cube_deep, mat_deep, row_deep};
use crate::NNError;
use vstd::prelude::*;

verus! {

/// The two weight matrices have identical dimensions.
pub open spec fn same_shape_mat(a: Seq<Seq<i64>>, b: Seq<Seq<i64>>) -> bool {
    a.len() == b.len() && forall|j: int| 0 <= j < a.len() ==> (#[trigger] a[j]).len() == b[j].len()
}

/// The two kernel banks have identical dimensions.
pub open spec fn same_shape_cube(a: Seq<Seq<Seq<i64>>>, b: Seq<Seq<Seq<i64>>>) -> bool {
    &&& a.len() == b.len()
    &&& forall|i: int| 0 <= i < a.len() ==> (#[trigger] a[i]).len() == b[i].len()
    &&& forall|i: int, j: int|
        0 <= i < a.len() && 0 <= j < a[i].len() ==> (#[trigger] a[i][j]).len() == b[i][j].len()
}

/// Elementwise mean of two equally shaped weight matrices.
pub open spec fn avg_mat_seq(a: Seq<Seq<i64>>, b: Seq<Seq<i64>>) -> Seq<Seq<i64>> {
    Seq::new(a.len(), |j: int| avg_seq(a[j], b[j]))
}

/// Elementwise mean of two equally shaped kernel banks.
pub open spec fn avg_cube_seq(a: Seq<Seq<Seq<i64>>>, b: Seq<Seq<Seq<i64>>>) -> Seq<Seq<Seq<i64>>> {
    Seq::new(a.len(), |i: int| avg_mat_seq(a[i], b[i]))
}

/// Two layers' parameters merged by elementwise mean: weights, biases and
/// kernel banks are averaged; the accumulator's cache and shape metadata are
/// kept. Layers of different variants or shapes keep the accumulator
/// unchanged.
pub open spec fn merge_layer(a: LayerV, b: LayerV) -> LayerV {
    match (a, b) {
        (LayerV::Dense(da), LayerV::Dense(db)) => {
            if same_shape_mat(da.weights, db.weights) && da.biases.len() == db.biases.len() {
                LayerV::Dense(
                    DenseV {
                        input: da.input,
                        weights: avg_mat_seq(da.weights, db.weights),
                        biases: avg_seq(da.biases, db.biases),
                    },
                )
            } else {
                a
            }
        },
        (LayerV::Conv(ca), LayerV::Conv(cb)) => {
            if same_shape_cube(ca.kernels, cb.kernels) && ca.biases.len() == cb.biases.len() {
                LayerV::Conv(
                    ConvV {
                        kernels: avg_cube_seq(ca.kernels, cb.kernels),
                        biases: avg_seq(ca.biases, cb.biases),
                        ..ca
                    },
                )
            } else {
                a
            }
        },
        _ => a,
    }
}

/// Two layer lists merged elementwise.
pub open spec fn merge_layer_seq(a: Seq<LayerV>, b: Seq<LayerV>) -> Seq<LayerV> {
    Seq::new(a.len(), |i: int| merge_layer(a[i], b[i]))
}

/// The merged layer list and summed worker mean losses after the first `w`
/// workers of one epoch: each worker trains a fresh clone of `net` on its
/// contiguous batch of `bs` samples; the fold starts from the first worker's
/// layers and averages each later worker's in. A failing worker reports the
/// failure and the master's own layers.
pub open spec fn spec_epoch_fold<L: Loss>(
    lf: L,
    net: NetV,
    xs: Seq<Seq<i64>>,
    ys: Seq<Seq<i64>>,
    lr: i64,
    bs: int,
    w: int,
) -> (Seq<LayerV>, Result<i64, NNError>)
    decreases w,
{
    if w <= 0 {
        (net.layers, Ok(0i64))
    } else {
        let (prev, r1) = spec_epoch_fold(lf, net, xs, ys, lr, bs, w - 1);
        match r1 {
            Err(e) => (net.layers, Err(e)),
            Ok(sum) => {
                let (wnet, rw) = spec_train_range(lf, net, xs, ys, lr, (w - 1) * bs, bs);
                match rw {
                    Err(e) => (net.layers, Err(e)),
                    Ok(wsum) => {
                        let wmean = mean_loss(wsum, bs as nat);
                        let merged = if w == 1 {
                            wnet.layers
                        } else {
                            merge_layer_seq(prev, wnet.layers)
                        };
                        (merged, Ok(fx_add(sum, wmean)))
                    },
                }
            },
        }
    }
}

/// One partitioned epoch: the merged worker layers replace the master's; the
/// master's activations stay; the reported loss is the mean of the workers'
/// mean losses. A failing worker leaves the master untouched.
pub open spec fn spec_trainer_epoch<L: Loss>(
    lf: L,
    net: NetV,
    xs: Seq<Seq<i64>>,
    ys: Seq<Seq<i64>>,
    lr: i64,
    bs: int,
    wc: int,
) -> (NetV, Result<i64, NNError>)
    recommends
        wc >= 1,
{
    let (ml, r) = spec_epoch_fold(lf, net, xs, ys, lr, bs, wc);
    match r {
        Err(e) => (net, Err(e)),
        Ok(sum) => (
            NetV { layers: ml, acts: net.acts },
            Ok(fx_div_count(sum, if wc >= 1 {
                wc as usize
            } else {
                1usize
            })),
        ),
    }
}

/// The master state and per-epoch losses after `epochs` partitioned epochs.
pub open spec fn spec_trainer_epochs<L: Loss>(
    lf: L,
    net: NetV,
    xs: Seq<Seq<i64>>,
    ys: Seq<Seq<i64>>,
    lr: i64,
    bs: int,
    wc: int,
    epochs: int,
) -> (NetV, Result<Seq<i64>, NNError>)
    decreases epochs,
{
    if epochs <= 0 {
        (net, Ok(Seq::empty()))
    } else {
        let (net1, r1) = spec_trainer_epochs(lf, net, xs, ys, lr, bs, wc, epochs - 1);
        match r1 {
            Err(e) => (net1, Err(e)),
            Ok(ms) => {
                let (net2, r2) = spec_trainer_epoch(lf, net1, xs, ys, lr, bs, wc);
                match r2 {
                    Err(e) => (net2, Err(e)),
                    Ok(lv) => (net2, Ok(ms.push(lv))),
                }
            },
        }
    }
}

/// What `Trainer::run` returns and leaves behind. The batch size is the
/// sample count divided by the worker count, dropping the tail of an uneven
/// split; mismatched sample and target counts are a
/// [`NNError::ShapeError`].
pub open spec fn spec_trainer_run<L: Loss>(
    lf: L,
    net: NetV,
    xs: Seq<Seq<i64>>,
    ys: Seq<Seq<i64>>,
    lr: i64,
    epochs: int,
    wc: int,
) -> (NetV, Result<Seq<i64>, NNError>)
    recommends
        wc >= 1,
{
    if xs.len() != ys.len() {
        (net, Err(NNError::ShapeError))
    } else {
        spec_trainer_epochs(lf, net, xs, ys, lr, (xs.len() as int) / wc, wc, epochs)
    }
}

/// After a failing epoch, running more epochs changes nothing.
pub proof fn lemma_trainer_epochs_err_stable<L: Loss>(
    lf: L,
    net: NetV,
    xs: Seq<Seq<i64>>,
    ys: Seq<Seq<i64>>,
    lr: i64,
    bs: int,
    wc: int,
    i: int,
    epochs: int,
)
    requires
        0 <= i <= epochs,
        spec_trainer_epochs(lf, net, xs, ys, lr, bs, wc, i).1 is Err,
    ensures
        spec_trainer_epochs(lf, net, xs, ys, lr, bs, wc, epochs) == spec_trainer_epochs(
            lf,
            net,
            xs,
            ys,
            lr,
            bs,
            wc,
            i,
        ),
    decreases epochs,
{
    if epochs > i {
        lemma_trainer_epochs_err_stable(lf, net, xs, ys, lr, bs, wc, i, epochs - 1);
    }
}

/// Relies on `num_cpus::get`: the number of logical CPUs of the running
/// system, documented to be at least one.
#[verifier::external_body]
fn cpu_count() -> (r: usize)
    ensures
        r >= 1,
{
    num_cpus::get()
}

/// Whether two weight matrices have identical dimensions.
fn mats_same_shape(a: &Vec<Vec<i64>>, b: &Vec<Vec<i64>>) -> (r: bool)
    ensures
        r == same_shape_mat(a.deep_view(), b.deep_view()),
{
    proof {
        mat_deep(*a);
        mat_deep(*b);
    }
    if a.len() != b.len() {
        return false;
    }
    let mut j: usize = 0;
    while j < a.len()
        invariant
            a@.len() == b@.len(),
            j <= a@.len(),
            forall|t: int| 0 <= t < j ==> (#[trigger] a@[t])@.len() == b@[t]@.len(),
        decreases a@.len() - j,
    {
        if a[j].len() != b[j].len() {
            proof {
                mat_deep(*a);
                mat_deep(*b);
                if same_shape_mat(a.deep_view(), b.deep_view()) {
                    assert(a.deep_view()[j as int].len() == b.deep_view()[j as int].len());
                    assert(a.deep_view()[j as int] == a@[j as int]@);
                    assert(b.deep_view()[j as int] == b@[j as int]@);
                    assert(false);
                }
            }
            return false;
        }
        j = j + 1;
    }
    proof {
        assert forall|t: int| 0 <= t < a.deep_view().len() implies (
        #[trigger] a.deep_view()[t]).len() == b.deep_view()[t].len() by {
            assert(a.deep_view()[t] == a@[t]@);
            assert(b.deep_view()[t] == b@[t]@);
        }
    }
    true
}

/// Elementwise mean of two equally shaped weight matrices.
fn avg_mat(a: &Vec<Vec<i64>>, b: &Vec<Vec<i64>>) -> (r: Vec<Vec<i64>>)
    requires
        same_shape_mat(a.deep_view(), b.deep_view()),
    ensures
        r.deep_view() == avg_mat_seq(a.deep_view(), b.deep_view()),
{
    proof {
        mat_deep(*a);
        mat_deep(*b);
    }
    let mut out: Vec<Vec<i64>> = Vec::new();
    let mut j: usize = 0;
    while j < a.len()
        invariant
            same_shape_mat(a.deep_view(), b.deep_view()),
            a@.len() == b@.len(),
            j <= a@.len(),
            out@.len() == j,
            forall|t: int| 0 <= t < j ==> (#[trigger] out@[t])@ == avg_seq(a@[t]@, b@[t]@),
        decreases a@.len() - j,
    {
        proof {
            mat_deep(*a);
            mat_deep(*b);
            assert(a.deep_view()[j as int] == a@[j as int]@);
            assert(b.deep_view()[j as int] == b@[j as int]@);
        }
        out.push(avg_vec(&a[j], &b[j]));
        j = j + 1;
    }
    proof {
        mat_deep(out);
        mat_deep(*a);
        mat_deep(*b);
        assert(out.deep_view() =~= avg_mat_seq(a.deep_view(), b.deep_view()));
    }
    out
}

/// Whether two kernel banks have identical dimensions.
fn cubes_same_shape(a: &Vec<Vec<Vec<i64>>>, b: &Vec<Vec<Vec<i64>>>) -> (r: bool)
    ensures
        r == same_shape_cube(a.deep_view(), b.deep_view()),
{
    proof {
        cube_deep(*a);
        cube_deep(*b);
    }
    if a.len() != b.len() {
        return false;
    }
    let mut i: usize = 0;
    while i < a.len()
        invariant
            a@.len() == b@.len(),
            i <= a@.len(),
            forall|t: int| 0 <= t < i ==> (#[trigger] a@[t])@.len() == b@[t]@.len(),
            forall|t: int, u: int|
                0 <= t < i && 0 <= u < a@[t]@.len() ==> (#[trigger] a@[t]@[u])@.len()
                    == b@[t]@[u]@.len(),
        decreases a@.len() - i,
    {
        let row_ok = mats_same_shape(&a[i], &b[i]);
        proof {
            cube_deep(*a);
            cube_deep(*b);
            mat_deep(a@[i as int]);
            mat_deep(b@[i as int]);
            assert(a.deep_view()[i as int] == a@[i as int].deep_view());
            assert(b.deep_view()[i as int] == b@[i as int].deep_view());
        }
        if !row_ok {
            proof {
                if same_shape_cube(a.deep_view(), b.deep_view()) {
                    assert(a.deep_view()[i as int].len() == b.deep_view()[i as int].len());
                    assert forall|u: int|
                        0 <= u < a@[i as int]@.len() implies (
                    #[trigger] a@[i as int]@[u])@.len() == b@[i as int]@[u]@.len() by {
                        assert(a.deep_view()[i as int][u].len() == b.deep_view()[
                            i as int][u].len());
                        assert(a.deep_view()[i as int][u] == a@[i as int]@[u]@);
                        assert(b.deep_view()[i as int][u] == b@[i as int]@[u]@);
                    }
                    assert(same_shape_mat(a@[i as int].deep_view(), b@[i as int].deep_view()));
                    assert(false);
                }
            }
            return false;
        }
        proof {
            assert(a@[i as int]@.len() == b@[i as int]@.len());
            assert forall|u: int| 0 <= u < a@[i as int]@.len() implies (
            #[trigger] a@[i as int]@[u])@.len() == b@[i as int]@[u]@.len() by {
                assert(a@[i as int].deep_view()[u] == a@[i as int]@[u]@);
                assert(b@[i as int].deep_view()[u] == b@[i as int]@[u]@);
                assert(a@[i as int].deep_view()[u].len() == b@[i as int].deep_view()[u].len());
            }
        }
        i = i + 1;
    }
    proof {
        assert forall|t: int, u: int|
            0 <= t < a.deep_view().len() && 0 <= u < a.deep_view()[t].len() implies (
        #[trigger] a.deep_view()[t][u]).len() == b.deep_view()[t][u].len() by {
            assert(a.deep_view()[t] == a@[t].deep_view());
            assert(b.deep_view()[t] == b@[t].deep_view());
            assert(a.deep_view()[t][u] == a@[t]@[u]@);
            assert(b.deep_view()[t][u] == b@[t]@[u]@);
        }
        assert forall|t: int|
            0 <= t < a.deep_view().len() implies (#[trigger] a.deep_view()[t]).len()
            == b.deep_view()[t].len() by {
            assert(a.deep_view()[t] == a@[t].deep_view());
            assert(b.deep_view()[t] == b@[t].deep_view());
        }
    }
    true
}

/// Elementwise mean of two equally shaped kernel banks.
fn avg_cube(a: &Vec<Vec<Vec<i64>>>, b: &Vec<Vec<Vec<i64>>>) -> (r: Vec<Vec<Vec<i64>>>)
    requires
        same_shape_cube(a.deep_view(), b.deep_view()),
    ensures
        r.deep_view() == avg_cube_seq(a.deep_view(), b.deep_view()),
{
    proof {
        cube_deep(*a);
        cube_deep(*b);
    }
    let mut out: Vec<Vec<Vec<i64>>> = Vec::new();
    let mut i: usize = 0;
    while i < a.len()
        invariant
            same_shape_cube(a.deep_view(), b.deep_view()),
            a@.len() == b@.len(),
            i <= a@.len(),
            out@.len() == i,
            forall|t: int|
                0 <= t < i ==> (#[trigger] out@[t]).deep_view() == avg_mat_seq(
                    a@[t].deep_view(),
                    b@[t].deep_view(),
                ),
        decreases a@.len() - i,
    {
        proof {
            cube_deep(*a);
            cube_deep(*b);
            assert(a.deep_view()[i as int] == a@[i as int].deep_view());
            assert(b.deep_view()[i as int] == b@[i as int].deep_view());
            assert(same_shape_mat(a@[i as int].deep_view(), b@[i as int].deep_view()));
        }
        out.push(avg_mat(&a[i], &b[i]));
        i = i + 1;
    }
    proof {
        cube_deep(out);
        cube_deep(*a);
        cube_deep(*b);
        assert(out.deep_view() =~= avg_cube_seq(a.deep_view(), b.deep_view()));
    }
    out
}

/// Merge one worker layer into the running accumulator by elementwise mean
/// of the trainable parameters.
pub fn merge_layer_exec(a: LayerType, b: &LayerType) -> (r: LayerType)
    ensures
        r@ == merge_layer(a@, b@),
{
    match (a, b) {
        (LayerType::Dense(da), LayerType::Dense(db)) => {
            if mats_same_shape(&da.weights, &db.weights) && da.biases.len() == db.biases.len() {
                proof {
                    row_deep(da.biases);
                    row_deep(db.biases);
                }
                let weights = avg_mat(&da.weights, &db.weights);
                let biases = avg_vec(&da.biases, &db.biases);
                proof {
                    row_deep(biases);
                }
                LayerType::Dense(crate::dense::DenseLayer { input: da.input, weights, biases })
            } else {
                LayerType::Dense(da)
            }
        },
        (LayerType::Conv(ca), LayerType::Conv(cb)) => {
            if cubes_same_shape(&ca.kernels, &cb.kernels) && ca.biases.len() == cb.biases.len() {
                proof {
                    row_deep(ca.biases);
                    row_deep(cb.biases);
                }
                let kernels = avg_cube(&ca.kernels, &cb.kernels);
                let biases = avg_vec(&ca.biases, &cb.biases);
                proof {
                    row_deep(biases);
                }
                LayerType::Conv(
                    crate::convolution::ConvolutionLayer {
                        input: ca.input,
                        input_shape: ca.input_shape,
                        output_shape: ca.output_shape,
                        kernel_shape: ca.kernel_shape,
                        kernels,
                        biases,
                    },
                )
            } else {
                LayerType::Conv(ca)
            }
        },
        (a2, _) => a2,
    }
}

/// Merge a worker's layer list into the running accumulator, elementwise.
pub fn merge_layers_exec(acc: Vec<LayerType>, wkr: &Vec<LayerType>) -> (r: Vec<LayerType>)
    requires
        acc@.len() == wkr@.len(),
    ensures
        r@.len() == acc@.len(),
        forall|i: int|
            0 <= i < acc@.len() ==> (#[trigger] r@[i])@ == merge_layer(acc@[i]@, wkr@[i]@),
{
    let ghost acc0 = acc@;
    let mut acc = acc;
    let mut out: Vec<LayerType> = Vec::new();
    let mut i: usize = 0;
    while i < wkr.len()
        invariant
            acc@.len() == acc0.len() - i,
            acc0.len() == wkr@.len(),
            i <= wkr@.len(),
            forall|j: int| 0 <= j < acc@.len() ==> acc@[j] == acc0[i + j],
            out@.len() == i,
            forall|j: int|
                0 <= j < i ==> (#[trigger] out@[j])@ == merge_layer(acc0[j]@, wkr@[j]@),
        decreases wkr@.len() - i,
    {
        let l = acc.remove(0);
        out.push(merge_layer_exec(l, &wkr[i]));
        i = i + 1;
    }
    out
}

/// The partitioned-epoch training driver.
pub struct Trainer;

impl Trainer {
    /// Train `network` for `epochs` partitioned epochs over `worker_count`
    /// contiguous batches of `train_set.len() / worker_count` samples each,
    /// merging the workers' parameters into the master after every epoch,
    /// and return the per-epoch mean worker losses.
    #[verifier::rlimit(80)]
    pub fn run<L: Loss>(
        network: &mut Network,
        loss_fn: &L,
        train_set: &Vec<Vec<i64>>,
        train_ans: &Vec<Vec<i64>>,
        learning_rate: i64,
        epochs: usize,
        worker_count: usize,
    ) -> (r: Result<Vec<i64>, NNError>)
        requires
            old(network)@.layers_wf(),
            worker_count >= 1,
        ensures
            final(network)@ == spec_trainer_run(
                *loss_fn,
                old(network)@,
                train_set.deep_view(),
                train_ans.deep_view(),
                learning_rate,
                epochs as int,
                worker_count as int,
            ).0,
            ({
                let rs = spec_trainer_run(
                    *loss_fn,
                    old(network)@,
                    train_set.deep_view(),
                    train_ans.deep_view(),
                    learning_rate,
                    epochs as int,
                    worker_count as int,
                ).1;
                match rs {
                    Ok(ms) => r is Ok && r->Ok_0@ == ms,
                    Err(e) => r == Err::<Vec<i64>, NNError>(e),
                }
            }),
    {
        let ghost net0 = network@;
        let ghost xs = train_set.deep_view();
        let ghost ys = train_ans.deep_view();
        if train_set.len() != train_ans.len() {
            proof {
                mat_deep(*train_set);
                mat_deep(*train_ans);
            }
            return Err(NNError::ShapeError);
        }
        proof {
            mat_deep(*train_set);
            mat_deep(*train_ans);
        }
        let bs = train_set.len() / worker_count;
        let mut means: Vec<i64> = Vec::new();
        let mut e: usize = 0;
        proof {
            assert(means@ =~= Seq::<i64>::empty());
            vstd::arithmetic::div_mod::lemma_div_pos_is_pos(
                train_set@.len() as int,
                worker_count as int,
            );
        }
        while e < epochs
            invariant
                net0 == old(network)@,
                xs == train_set.deep_view(),
                ys == train_ans.deep_view(),
                xs.len() == ys.len(),
                xs.len() == train_set@.len(),
                worker_count >= 1,
                bs == (xs.len() as int) / (worker_count as int),
                net0.layers_wf(),
                e <= epochs,
                spec_trainer_epochs(
                    *loss_fn,
                    net0,
                    xs,
                    ys,
                    learning_rate,
                    bs as int,
                    worker_count as int,
                    e as int,
                ).0 == network@,
                spec_trainer_epochs(
                    *loss_fn,
                    net0,
                    xs,
                    ys,
                    learning_rate,
                    bs as int,
                    worker_count as int,
                    e as int,
                ).1 is Ok,
                spec_trainer_epochs(
                    *loss_fn,
                    net0,
                    xs,
                    ys,
                    learning_rate,
                    bs as int,
                    worker_count as int,
                    e as int,
                ).1->Ok_0 == means@,
                network@.layers_wf(),
                network@.layers.len() == net0.layers.len(),
                network@.acts.len() == net0.acts.len(),
            decreases epochs - e,
        {
            let ghost net_e = network@;
            let mut sum: i64 = 0;
            let mut merged: Vec<LayerType> = Vec::new();
            let mut w: usize = 0;
            while w < worker_count
                invariant
                    net0 == old(network)@,
                    xs == train_set.deep_view(),
                    ys == train_ans.deep_view(),
                    xs.len() == ys.len(),
                    xs.len() == train_set@.len(),
                    train_ans@.len() == train_set@.len(),
                    worker_count >= 1,
                    bs == (xs.len() as int) / (worker_count as int),
                    net_e == network@,
                    net_e.layers_wf(),
                    e < epochs,
                    spec_trainer_epochs(
                        *loss_fn,
                        net0,
                        xs,
                        ys,
                        learning_rate,
                        bs as int,
                        worker_count as int,
                        e as int,
                    ).0 == net_e,
                    spec_trainer_epochs(
                        *loss_fn,
                        net0,
                        xs,
                        ys,
                        learning_rate,
                        bs as int,
                        worker_count as int,
                        e as int,
                    ).1 is Ok,
                    w <= worker_count,
                    spec_epoch_fold(
                        *loss_fn,
                        net_e,
                        xs,
                        ys,
                        learning_rate,
                        bs as int,
                        w as int,
                    ).1 is Ok,
                    spec_epoch_fold(
                        *loss_fn,
                        net_e,
                        xs,
                        ys,
                        learning_rate,
                        bs as int,
                        w as int,
                    ).1->Ok_0 == sum,
                    w > 0 ==> Seq::new(merged@.len(), |i: int| merged@[i]@) == spec_epoch_fold(
                        *loss_fn,
                        net_e,
                        xs,
                        ys,
                        learning_rate,
                        bs as int,
                        w as int,
                    ).0,
                    w > 0 ==> merged@.len() == net_e.layers.len(),
                decreases worker_count - w,
            {
                proof {
                    vstd::arithmetic::mul::lemma_mul_inequality(
                        w as int + 1,
                        worker_count as int,
                        bs as int,
                    );
                    vstd::arithmetic::div_mod::lemma_remainder_lower(
                        train_set@.len() as int,
                        worker_count as int,
                    );
                    assert((worker_count as int) * (bs as int) <= train_set@.len()) by {
                        vstd::arithmetic::div_mod::lemma_fundamental_div_mod(
                            train_set@.len() as int,
                            worker_count as int,
                        );
                        vstd::arithmetic::div_mod::lemma_mod_bound(
                            train_set@.len() as int,
                            worker_count as int,
                        );
                        vstd::arithmetic::mul::lemma_mul_is_commutative(
                            worker_count as int,
                            bs as int,
                        );
                    }
                    assert((w as int + 1) * (bs as int) == (w as int) * (bs as int) + bs)
                        by (nonlinear_arith);
                    vstd::arithmetic::mul::lemma_mul_nonnegative(w as int, bs as int);
                    assert(train_set@.len() <= usize::MAX) by {
                        vstd::std_specs::vec::axiom_spec_len(train_set);
                    }
                    assert((w as int) * (bs as int) + bs <= train_set@.len());
                }
                let mut clone = network.clone();
                let wsum = match clone.train_range(
                    loss_fn,
                    train_set,
                    train_ans,
                    learning_rate,
                    w * bs,
                    w * bs + bs,
                ) {
                    Ok(v) => v,
                    Err(err) => {
                        proof {
                            assert(spec_epoch_fold(
                                *loss_fn,
                                net_e,
                                xs,
                                ys,
                                learning_rate,
                                bs as int,
                                w as int + 1,
                            ).1 == Err::<i64, NNError>(err));
                            assert(spec_trainer_epoch(
                                *loss_fn,
                                net_e,
                                xs,
                                ys,
                                learning_rate,
                                bs as int,
                                worker_count as int,
                            ).1 == Err::<i64, NNError>(err)) by {
                                lemma_epoch_fold_err_stable(
                                    *loss_fn,
                                    net_e,
                                    xs,
                                    ys,
                                    learning_rate,
                                    bs as int,
                                    w as int + 1,
                                    worker_count as int,
                                );
                            }
                            assert(spec_trainer_epochs(
                                *loss_fn,
                                net0,
                                xs,
                                ys,
                                learning_rate,
                                bs as int,
                                worker_count as int,
                                e + 1,
                            ).1 == Err::<Seq<i64>, NNError>(err));
                            lemma_trainer_epochs_err_stable(
                                *loss_fn,
                                net0,
                                xs,
                                ys,
                                learning_rate,
                                bs as int,
                                worker_count as int,
                                e + 1,
                                epochs as int,
                            );
                        }
                        return Err(err);
                    },
                };
                let wmean = if bs > 0 {
                    div_count_fx(wsum, bs)
                } else {
                    0
                };
                sum = add_fx(sum, wmean);
                let Network { layers: wl, activations: _ } = clone;
                if w == 0 {
                    merged = wl;
                } else {
                    merged = merge_layers_exec(merged, &wl);
                    proof {
                        assert(Seq::new(merged@.len(), |i: int| merged@[i]@) =~= merge_layer_seq(
                            spec_epoch_fold(
                                *loss_fn,
                                net_e,
                                xs,
                                ys,
                                learning_rate,
                                bs as int,
                                w as int,
                            ).0,
                            Seq::new(wl@.len(), |i: int| wl@[i]@),
                        ));
                    }
                }
                w = w + 1;
            }
            means.push(div_count_fx(sum, worker_count));
            let ghost pre_assign = network@;
            network.layers = merged;
            proof {
                assert(network@.layers =~= spec_epoch_fold(
                    *loss_fn,
                    net_e,
                    xs,
                    ys,
                    learning_rate,
                    bs as int,
                    worker_count as int,
                ).0);
                assert(network@.acts =~= pre_assign.acts);
                lemma_epoch_fold_wf(
                    *loss_fn,
                    net_e,
                    xs,
                    ys,
                    learning_rate,
                    bs as int,
                    worker_count as int,
                );
            }
            e = e + 1;
        }
        Ok(means)
    }

    /// Like [`Trainer::run`], with one worker per logical CPU of the running
    /// machine.
    pub fn cpu<L: Loss>(
        network: &mut Network,
        loss_fn: &L,
        train_set: &Vec<Vec<i64>>,
        train_ans: &Vec<Vec<i64>>,
        learning_rate: i64,
        epochs: usize,
    ) -> (r: Result<Vec<i64>, NNError>)
        requires
            old(network)@.layers_wf(),
        ensures
            exists|wc: int|
                1 <= wc && final(network)@ == spec_trainer_run(
                    *loss_fn,
                    old(network)@,
                    train_set.deep_view(),
                    train_ans.deep_view(),
                    learning_rate,
                    epochs as int,
                    wc,
                ).0 && (match spec_trainer_run(
                    *loss_fn,
                    old(network)@,
                    train_set.deep_view(),
                    train_ans.deep_view(),
                    learning_rate,
                    epochs as int,
                    wc,
                ).1 {
                    Ok(ms) => r is Ok && r->Ok_0@ == ms,
                    Err(e) => r == Err::<Vec<i64>, NNError>(e),
                }),
    {
        let wc = cpu_count();
        let r = Self::run(network, loss_fn, train_set, train_ans, learning_rate, epochs, wc);
        proof {
            assert(1 <= wc as int);
        }
        r
    }
}

/// After a failing worker, folding more workers changes nothing of the
/// outcome.
pub proof fn lemma_epoch_fold_err_stable<L: Loss>(
    lf: L,
    net: NetV,
    xs: Seq<Seq<i64>>,
    ys: Seq<Seq<i64>>,
    lr: i64,
    bs: int,
    i: int,
    w: int,
)
    requires
        0 <= i <= w,
        spec_epoch_fold(lf, net, xs, ys, lr, bs, i).1 is Err,
    ensures
        spec_epoch_fold(lf, net, xs, ys, lr, bs, w) == spec_epoch_fold(lf, net, xs, ys, lr, bs, i),
    decreases w,
{
    if w > i {
        lemma_epoch_fold_err_stable(lf, net, xs, ys, lr, bs, i, w - 1);
    }
}

/// The merged layer list keeps the layer count and internal consistency.
pub proof fn lemma_epoch_fold_wf<L: Loss>(
    lf: L,
    net: NetV,
    xs: Seq<Seq<i64>>,
    ys: Seq<Seq<i64>>,
    lr: i64,
    bs: int,
    w: int,
)
    requires
        net.layers_wf(),
    ensures
        spec_epoch_fold(lf, net, xs, ys, lr, bs, w).1 is Ok ==> {
            &&& spec_epoch_fold(lf, net, xs, ys, lr, bs, w).0.len() == net.layers.len()
            &&& forall|i: int|
                0 <= i < net.layers.len() ==> (#[trigger] spec_epoch_fold(
                    lf,
                    net,
                    xs,
                    ys,
                    lr,
                    bs,
                    w,
                ).0[i]).wf()
        },
    decreases w,
{
    if w > 0 {
        lemma_epoch_fold_wf(lf, net, xs, ys, lr, bs, w - 1);
        let (prev, r1) = spec_epoch_fold(lf, net, xs, ys, lr, bs, w - 1);
        match r1 {
            Err(_) => {},
            Ok(_) => {
                crate::network::lemma_train_range_frame(lf, net, xs, ys, lr, (w - 1) * bs, bs);
                let (wnet, rw) = spec_train_range(lf, net, xs, ys, lr, (w - 1) * bs, bs);
                match rw {
                    Err(_) => {},
                    Ok(_) => {
                        if w > 1 {
                            assert forall|i: int|
                                0 <= i < net.layers.len() implies (#[trigger] merge_layer_seq(
                                prev,
                                wnet.layers,
                            )[i]).wf() by {
                                assert(prev[i].wf());
                                lemma_merge_layer_wf(prev[i], wnet.layers[i]);
                            }
                        }
                    },
                }
            },
        }
    }
}

/// Merging keeps a layer's internal consistency.
pub proof fn lemma_merge_layer_wf(a: LayerV, b: LayerV)
    requires
        a.wf(),
    ensures
        merge_layer(a, b).wf(),
{
    match (a, b) {
        (LayerV::Dense(da), LayerV::Dense(db)) => {},
        (LayerV::Conv(ca), LayerV::Conv(cb)) => {
            if same_shape_cube(ca.kernels, cb.kernels) && ca.biases.len() == cb.biases.len() {
                let m = merge_layer(a, b);
                match m {
                    LayerV::Conv(cm) => {
                        assert forall|i2: int, o2: int|
                            0 <= i2 < cm.kernels.len() && 0 <= o2 < cm.out_channels implies (
                        #[trigger] cm.kernels[i2][o2]).len() == cm.kernel * cm.kernel by {
                            assert(ca.kernels[i2][o2].len() == ca.kernel * ca.kernel);
                        }
                    },
                    _ => {},
                }
            }
        },
        _ => {},
    }
}

} // verus!
