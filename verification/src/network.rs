//! The stage pipeline: ordered (layer, activation) pairs with sequential
//! forward prediction and backward single-sample gradient descent.

use crate::activations::{act_bwd, act_fwd, ActV, ActivationFn};
use crate::convolution::{conv_bias_step, conv_input_grad, conv_input_ok, conv_kern_step,
    conv_out, ConvV};
use crate::dense::{dense_input_grad, dense_out, dense_w_step, DenseV};
use crate::fixed::{add_fx, div_count_fx, fx_add, fx_div_count, step_seq};
use crate::layer::{clone_row, flat_chans, flatten_mat, LayerOutput, LayerType, LayerV, TensorV};
use crate::loss::Loss;
use crate::views::{mat_deep, row_deep};
use crate::NNError;
use vstd::prelude::*;

verus! {

/// One pipeline element: either a layer or an activation, in declaration
/// order.
#[derive(Debug)]
pub enum Net {
    Layer(LayerType),
    Activation(ActivationFn),
}

/// Mathematical model of a network: one layer model and one activation model
/// per stage.
pub struct NetV {
    pub layers: Seq<LayerV>,
    pub acts: Seq<ActV>,
}

impl NetV {
    /// Every layer is internally consistent.
    pub open spec fn layers_wf(self) -> bool {
        forall|i: int| 0 <= i < self.layers.len() ==> (#[trigger] self.layers[i]).wf()
    }

    /// One activation per layer, and every layer internally consistent.
    pub open spec fn wf(self) -> bool {
        self.layers.len() == self.acts.len() && self.layers_wf()
    }
}

/// An ordered pipeline of (layer, activation) stage pairs.
#[derive(Debug)]
pub struct Network {
    pub layers: Vec<LayerType>,
    pub activations: Vec<ActivationFn>,
}

impl View for Network {
    type V = NetV;

    open spec fn view(&self) -> NetV {
        NetV {
            layers: Seq::new(self.layers@.len(), |i: int| self.layers@[i]@),
            acts: Seq::new(self.activations@.len(), |i: int| self.activations@[i]@),
        }
    }
}

impl Clone for Network {
    /// A clone models the same network.
    fn clone(&self) -> (r: Self)
        ensures
            r@ == self@,
    {
        let mut layers: Vec<LayerType> = Vec::new();
        let mut i: usize = 0;
        while i < self.layers.len()
            invariant
                i <= self.layers@.len(),
                layers@.len() == i,
                forall|j: int| 0 <= j < i ==> (#[trigger] layers@[j])@ == self.layers@[j]@,
            decreases self.layers@.len() - i,
        {
            layers.push(self.layers[i].clone());
            i = i + 1;
        }
        let mut activations: Vec<ActivationFn> = Vec::new();
        let mut i: usize = 0;
        while i < self.activations.len()
            invariant
                i <= self.activations@.len(),
                activations@.len() == i,
                forall|j: int| 0 <= j < i ==> (#[trigger] activations@[j])@ == self.activations@[j]@,
            decreases self.activations@.len() - i,
        {
            activations.push(self.activations[i].clone());
            i = i + 1;
        }
        let r = Network { layers, activations };
        proof {
            assert(r@.layers =~= self@.layers);
            assert(r@.acts =~= self@.acts);
        }
        r
    }
}

/// The layer models of the `Net::Layer` elements, in order.
pub open spec fn split_layers(s: Seq<Net>) -> Seq<LayerV>
    decreases s.len(),
{
    if s.len() == 0 {
        Seq::empty()
    } else {
        split_layers(s.drop_last()) + (match s.last() {
            Net::Layer(l) => seq![l@],
            Net::Activation(_) => Seq::empty(),
        })
    }
}

/// The activation models of the `Net::Activation` elements, in order.
pub open spec fn split_acts(s: Seq<Net>) -> Seq<ActV>
    decreases s.len(),
{
    if s.len() == 0 {
        Seq::empty()
    } else {
        split_acts(s.drop_last()) + (match s.last() {
            Net::Layer(_) => Seq::empty(),
            Net::Activation(a) => seq![a@],
        })
    }
}

/// One layer's forward step on a tensor value, converting the value to the
/// variant the layer expects: a dense layer flattens multi-channel input
/// channel-major; a convolution layer wraps a flat vector as one channel.
/// Returns the layer with its refreshed cache and the output value, or the
/// untouched layer and the failure.
pub open spec fn layer_fwd(l: LayerV, t: TensorV) -> (LayerV, Result<TensorV, NNError>) {
    match t {
        TensorV::Uninit => (l, Err(NNError::InvariantViolation)),
        _ => match l {
            LayerV::Dense(d) => {
                let x = match t {
                    TensorV::Dense(v) => v,
                    TensorV::Conv(ch) => flat_chans(ch),
                    TensorV::Uninit => Seq::empty(),
                };
                if x.len() == d.input_size() {
                    (
                        LayerV::Dense(DenseV { input: x, ..d }),
                        Ok(TensorV::Dense(dense_out(d.weights, d.biases, x))),
                    )
                } else {
                    (l, Err(NNError::ShapeError))
                }
            },
            LayerV::Conv(cv) => {
                let chans = match t {
                    TensorV::Dense(v) => seq![v],
                    TensorV::Conv(ch) => ch,
                    TensorV::Uninit => Seq::empty(),
                };
                if conv_input_ok(cv, chans) {
                    (
                        LayerV::Conv(ConvV { input: chans, ..cv }),
                        Ok(TensorV::Conv(conv_out(cv, chans))),
                    )
                } else {
                    (l, Err(NNError::ShapeError))
                }
            },
        },
    }
}

/// The network state and value after the first `n` forward stages. On a
/// failure the state at the point of failure is kept and the failure
/// propagates.
pub open spec fn net_fwd(net: NetV, t: TensorV, n: int) -> (NetV, Result<TensorV, NNError>)
    decreases n,
{
    if n <= 0 {
        (net, Ok(t))
    } else {
        let (net1, r1) = net_fwd(net, t, n - 1);
        match r1 {
            Err(e) => (net1, Err(e)),
            Ok(t1) => {
                let (l2, r2) = layer_fwd(net1.layers[n - 1], t1);
                let net2 = NetV { layers: net1.layers.update(n - 1, l2), ..net1 };
                match r2 {
                    Err(e) => (net2, Err(e)),
                    Ok(t2) => match act_fwd(net2.acts[n - 1].kind, t2) {
                        Err(e) => (net2, Err(e)),
                        Ok(t3) => (
                            NetV {
                                acts: net2.acts.update(
                                    n - 1,
                                    ActV { kind: net2.acts[n - 1].kind, cache: t2 },
                                ),
                                ..net2
                            },
                            Ok(t3),
                        ),
                    },
                }
            },
        }
    }
}

/// What `predict` returns and leaves behind: the input wrapped as a dense
/// value, run through every stage; a terminal value that is not dense is an
/// [`NNError::InvariantViolation`], as is a stage-count mismatch.
pub open spec fn spec_predict(net: NetV, x: Seq<i64>) -> (NetV, Result<Seq<i64>, NNError>) {
    if net.layers.len() != net.acts.len() {
        (net, Err(NNError::InvariantViolation))
    } else {
        let (nv, rt) = net_fwd(net, TensorV::Dense(x), net.layers.len() as int);
        match rt {
            Err(e) => (nv, Err(e)),
            Ok(t) => match t {
                TensorV::Dense(v) => (nv, Ok(v)),
                _ => (nv, Err(NNError::InvariantViolation)),
            },
        }
    }
}

/// Forward stages only move the prefix of the state they have run through:
/// lengths are kept, stages at or past `n` are untouched, and layer
/// well-formedness is preserved.
pub proof fn lemma_net_fwd_frame(net: NetV, t: TensorV, n: int)
    requires
        net.wf(),
        0 <= n <= net.layers.len(),
    ensures
        net_fwd(net, t, n).0.layers.len() == net.layers.len(),
        net_fwd(net, t, n).0.acts.len() == net.acts.len(),
        forall|j: int|
            n <= j < net.layers.len() ==> (#[trigger] net_fwd(net, t, n).0.layers[j])
                == net.layers[j],
        forall|j: int|
            n <= j < net.acts.len() ==> (#[trigger] net_fwd(net, t, n).0.acts[j]) == net.acts[j],
        net_fwd(net, t, n).0.wf(),
        forall|j: int|
            0 <= j < net.acts.len() ==> (#[trigger] net_fwd(net, t, n).0.acts[j]).kind
                == net.acts[j].kind,
    decreases n,
{
    if n > 0 {
        lemma_net_fwd_frame(net, t, n - 1);
        let (net1, r1) = net_fwd(net, t, n - 1);
        match r1 {
            Err(_) => {},
            Ok(t1) => {
                let (l2, r2) = layer_fwd(net1.layers[n - 1], t1);
                assert(l2.wf()) by {
                    assert(net1.layers[n - 1].wf());
                }
            },
        }
    }
}

/// After a failing stage, running more stages changes nothing.
pub proof fn lemma_net_fwd_err_stable(net: NetV, t: TensorV, i: int, n: int)
    requires
        0 <= i <= n,
        net_fwd(net, t, i).1 is Err,
    ensures
        net_fwd(net, t, n) == net_fwd(net, t, i),
    decreases n,
{
    if n > i {
        lemma_net_fwd_err_stable(net, t, i, n - 1);
    }
}

impl Network {
    /// Split an ordered pipeline description into the layer list and the
    /// activation list, keeping each list's order.
    pub fn new(net: Vec<Net>) -> (r: Self)
        ensures
            r@.layers == split_layers(net@),
            r@.acts == split_acts(net@),
    {
        let ghost net0 = net@;
        let mut net = net;
        let mut layers: Vec<LayerType> = Vec::new();
        let mut activations: Vec<ActivationFn> = Vec::new();
        let ghost mut consumed: int = 0;
        proof {
            assert(net0.subrange(0, 0) =~= Seq::<Net>::empty());
        }
        while net.len() > 0
            invariant
                0 <= consumed <= net0.len(),
                net@ == net0.subrange(consumed, net0.len() as int),
                Seq::new(layers@.len(), |i: int| layers@[i]@) == split_layers(
                    net0.subrange(0, consumed),
                ),
                Seq::new(activations@.len(), |i: int| activations@[i]@) == split_acts(
                    net0.subrange(0, consumed),
                ),
            decreases net@.len(),
        {
            let item = net.remove(0);
            proof {
                assert(net0.subrange(consumed, net0.len() as int)[0] == net0[consumed]);
                assert(net@ =~= net0.subrange(consumed + 1, net0.len() as int));
                assert(net0.subrange(0, consumed + 1).drop_last() =~= net0.subrange(0, consumed));
                assert(net0.subrange(0, consumed + 1).last() == net0[consumed]);
            }
            match item {
                Net::Layer(layer) => {
                    layers.push(layer);
                },
                Net::Activation(activation) => {
                    activations.push(activation);
                },
            }
            proof {
                consumed = consumed + 1;
                assert(Seq::new(layers@.len(), |i: int| layers@[i]@) =~= split_layers(
                    net0.subrange(0, consumed),
                ));
                assert(Seq::new(activations@.len(), |i: int| activations@[i]@) =~= split_acts(
                    net0.subrange(0, consumed),
                ));
            }
        }
        proof {
            assert(net0.subrange(0, net0.len() as int) =~= net0);
        }
        Network { layers, activations }
    }

    /// Forward prediction: wrap the input as a dense value, convert and run
    /// it through every (layer, activation) stage in order, caching each
    /// stage's input, and return the terminal dense vector.
    #[verifier::rlimit(80)]
    pub fn predict(&mut self, input: &Vec<i64>) -> (r: Result<Vec<i64>, NNError>)
        requires
            old(self)@.layers_wf(),
        ensures
            final(self)@ == spec_predict(old(self)@, input@).0,
            match spec_predict(old(self)@, input@).1 {
                Ok(v) => r is Ok && r->Ok_0@ == v,
                Err(e) => r == Err::<Vec<i64>, NNError>(e),
            },
            final(self)@.layers_wf(),
            final(self)@.layers.len() == old(self)@.layers.len(),
            final(self)@.acts.len() == old(self)@.acts.len(),
    {
        let n = self.layers.len();
        proof {
            row_deep(*input);
        }
        if self.activations.len() != n {
            return Err(NNError::InvariantViolation);
        }
        let ghost net0 = self@;
        let ghost t0 = TensorV::Dense(input@);
        let mut curr = LayerOutput::Dense(clone_row(input));
        let mut i: usize = 0;
        while i < n
            invariant
                self@.wf(),
                n == self@.layers.len(),
                n == self@.acts.len(),
                net0 == old(self)@,
                t0 == TensorV::Dense(input@),
                net0.wf(),
                n == net0.layers.len(),
                n == net0.acts.len(),
                i <= n,
                net_fwd(net0, t0, i as int).1 == Ok::<TensorV, NNError>(curr@),
                self@ == net_fwd(net0, t0, i as int).0,
            decreases n - i,
        {
            proof {
                lemma_net_fwd_frame(net0, t0, i as int);
                assert(self@.layers[i as int] == net0.layers[i as int]);
            }
            let ghost pre = self@;
            let mut elem = self.layers.remove(i);
            let step = match &mut elem {
                LayerType::Dense(l) => match &curr {
                    LayerOutput::Dense(v) => {
                        proof {
                            row_deep(*v);
                        }
                        l.f_prop(v)
                    },
                    LayerOutput::Conv(m) => {
                        let flat = flatten_mat(m);
                        proof {
                            row_deep(flat);
                        }
                        l.f_prop(&flat)
                    },
                    LayerOutput::Uninit => Err(NNError::InvariantViolation),
                },
                LayerType::Conv(l) => match &curr {
                    LayerOutput::Conv(m) => l.f_prop(m),
                    LayerOutput::Dense(v) => {
                        let mut chans: Vec<Vec<i64>> = Vec::new();
                        chans.push(clone_row(v));
                        proof {
                            row_deep(*v);
                            mat_deep(chans);
                            assert(chans.deep_view() =~= seq![v.deep_view()]);
                        }
                        l.f_prop(&chans)
                    },
                    LayerOutput::Uninit => Err(NNError::InvariantViolation),
                },
            };
            self.layers.insert(i, elem);
            proof {
                assert(elem@ == layer_fwd(pre.layers[i as int], curr@).0);
                assert(self@.layers =~= pre.layers.update(
                    i as int,
                    layer_fwd(pre.layers[i as int], curr@).0,
                ));
                assert(self@.acts =~= pre.acts);
            }
            let out1 = match step {
                Ok(v) => v,
                Err(e) => {
                    proof {
                        assert(net_fwd(net0, t0, i + 1).1 == Err::<TensorV, NNError>(e));
                        assert(self@ == net_fwd(net0, t0, i + 1).0);
                        lemma_net_fwd_err_stable(net0, t0, i + 1, n as int);
                        assert(net_fwd(net0, t0, n as int) == net_fwd(net0, t0, i + 1));
                        assert(old(self)@ == net0);
                        assert(net0.layers.len() == n && net0.acts.len() == n);
                        assert(spec_predict(net0, input@).0 == self@);
                        assert(spec_predict(net0, input@).1 == Err::<Seq<i64>, NNError>(e));
                    }
                    return Err(e);
                },
            };
            let ghost pre2 = self@;
            let mut a = self.activations.remove(i);
            let step2 = a.f_prop(&out1);
            self.activations.insert(i, a);
            proof {
                assert(self@.layers =~= pre2.layers);
            }
            match step2 {
                Ok(v) => {
                    proof {
                        assert(self@.acts =~= pre2.acts.update(
                            i as int,
                            ActV { kind: pre2.acts[i as int].kind, cache: out1@ },
                        ));
                    }
                    curr = v;
                },
                Err(e) => {
                    proof {
                        assert(self@.acts =~= pre2.acts);
                        assert(net_fwd(net0, t0, i + 1).1 == Err::<TensorV, NNError>(e));
                        assert(self@ == net_fwd(net0, t0, i + 1).0);
                        lemma_net_fwd_err_stable(net0, t0, i + 1, n as int);
                    }
                    return Err(e);
                },
            }
            i = i + 1;
        }
        match curr {
            LayerOutput::Dense(v) => {
                proof {
                    row_deep(v);
                }
                Ok(v)
            },
            LayerOutput::Conv(_) => Err(NNError::InvariantViolation),
            LayerOutput::Uninit => Err(NNError::InvariantViolation),
        }
    }

    /// Forward prediction without caching: the same value
    /// [`Network::predict`] returns, leaving every stage untouched.
    #[verifier::rlimit(80)]
    pub fn predict_ref(&self, input: &Vec<i64>) -> (r: Result<Vec<i64>, NNError>)
        requires
            self@.layers_wf(),
        ensures
            match spec_predict(self@, input@).1 {
                Ok(v) => r is Ok && r->Ok_0@ == v,
                Err(e) => r == Err::<Vec<i64>, NNError>(e),
            },
    {
        let n = self.layers.len();
        proof {
            row_deep(*input);
        }
        if self.activations.len() != n {
            return Err(NNError::InvariantViolation);
        }
        let ghost net0 = self@;
        let ghost t0 = TensorV::Dense(input@);
        let mut curr = LayerOutput::Dense(clone_row(input));
        let mut i: usize = 0;
        while i < n
            invariant
                self@.wf(),
                n == self@.layers.len(),
                n == self@.acts.len(),
                net0 == self@,
                t0 == TensorV::Dense(input@),
                i <= n,
                net_fwd(net0, t0, i as int).1 == Ok::<TensorV, NNError>(curr@),
            decreases n - i,
        {
            proof {
                lemma_net_fwd_frame(net0, t0, i as int);
                assert(net_fwd(net0, t0, i as int).0.layers[i as int] == net0.layers[i as int]);
                assert(net_fwd(net0, t0, i as int).0.acts[i as int].kind == net0.acts[
                    i as int].kind);
            }
            let step = match &self.layers[i] {
                LayerType::Dense(l) => match &curr {
                    LayerOutput::Dense(v) => {
                        proof {
                            row_deep(*v);
                        }
                        l.f_prop_ref(v)
                    },
                    LayerOutput::Conv(m) => {
                        let flat = flatten_mat(m);
                        proof {
                            row_deep(flat);
                        }
                        l.f_prop_ref(&flat)
                    },
                    LayerOutput::Uninit => Err(NNError::InvariantViolation),
                },
                LayerType::Conv(l) => match &curr {
                    LayerOutput::Conv(m) => l.f_prop_ref(m),
                    LayerOutput::Dense(v) => {
                        let mut chans: Vec<Vec<i64>> = Vec::new();
                        chans.push(clone_row(v));
                        proof {
                            row_deep(*v);
                            mat_deep(chans);
                            assert(chans.deep_view() =~= seq![v.deep_view()]);
                        }
                        l.f_prop_ref(&chans)
                    },
                    LayerOutput::Uninit => Err(NNError::InvariantViolation),
                },
            };
            let out1 = match step {
                Ok(v) => v,
                Err(e) => {
                    proof {
                        assert(net_fwd(net0, t0, i + 1).1 == Err::<TensorV, NNError>(e));
                        lemma_net_fwd_err_stable(net0, t0, i + 1, n as int);
                    }
                    return Err(e);
                },
            };
            let step2 = self.activations[i].f_prop_ref(&out1);
            match step2 {
                Ok(v) => {
                    curr = v;
                },
                Err(e) => {
                    proof {
                        assert(net_fwd(net0, t0, i + 1).1 == Err::<TensorV, NNError>(e));
                        lemma_net_fwd_err_stable(net0, t0, i + 1, n as int);
                    }
                    return Err(e);
                },
            }
            i = i + 1;
        }
        match curr {
            LayerOutput::Dense(v) => {
                proof {
                    row_deep(v);
                }
                Ok(v)
            },
            LayerOutput::Conv(_) => Err(NNError::InvariantViolation),
            LayerOutput::Uninit => Err(NNError::InvariantViolation),
        }
    }
}

/// One layer's backward step: the gradient with respect to the layer's
/// input, next to the layer after its parameter update. A dense layer takes
/// the input gradient against its pre-update weights; a convolution layer
/// computes the full correlation against its stepped kernels.
pub open spec fn layer_bwd(l: LayerV, g: Seq<i64>, lr: i64) -> (LayerV, Result<Seq<i64>, NNError>) {
    match l {
        LayerV::Dense(d) => {
            if g.len() == d.output_size() {
                (
                    LayerV::Dense(
                        DenseV {
                            weights: dense_w_step(d.weights, d.input, g, lr),
                            biases: step_seq(d.biases, g, lr),
                            ..d
                        },
                    ),
                    Ok(dense_input_grad(d.weights, g, d.input_size())),
                )
            } else {
                (l, Err(NNError::ShapeError))
            }
        },
        LayerV::Conv(cv) => {
            if cv.input.len() == 0 {
                (l, Err(NNError::StateError))
            } else if g.len() != cv.out_channels * (cv.out_h() * cv.out_w()) {
                (l, Err(NNError::ShapeError))
            } else {
                let cv2 = ConvV {
                    kernels: conv_kern_step(cv, g, lr),
                    biases: conv_bias_step(cv, g, lr),
                    ..cv
                };
                (LayerV::Conv(cv2), Ok(conv_input_grad(cv2, g)))
            }
        },
    }
}

/// The network state and gradient after walking the last `m` stages
/// backward: each stage first scales the gradient by its activation's
/// derivative at the cached input, then steps its layer's parameters and
/// hands the input gradient on.
pub open spec fn net_bwd(net: NetV, g: Seq<i64>, lr: i64, m: int) -> (
    NetV,
    Result<Seq<i64>, NNError>,
)
    decreases m,
{
    if m <= 0 {
        (net, Ok(g))
    } else {
        let (net1, r1) = net_bwd(net, g, lr, m - 1);
        let idx = net.layers.len() - m;
        match r1 {
            Err(e) => (net1, Err(e)),
            Ok(g1) => match act_bwd(net1.acts[idx].kind, net1.acts[idx].cache, g1) {
                Err(e) => (net1, Err(e)),
                Ok(g2) => {
                    let (l2, r2) = layer_bwd(net1.layers[idx], g2, lr);
                    let net2 = NetV { layers: net1.layers.update(idx, l2), ..net1 };
                    match r2 {
                        Err(e) => (net2, Err(e)),
                        Ok(g3) => (net2, Ok(g3)),
                    }
                },
            },
        }
    }
}

/// Backward stages only move the suffix of the state they have run through:
/// lengths are kept, activations and the untouched layer prefix stay, and
/// layer well-formedness is preserved.
pub proof fn lemma_net_bwd_frame(net: NetV, g: Seq<i64>, lr: i64, m: int)
    requires
        net.wf(),
        0 <= m <= net.layers.len(),
    ensures
        net_bwd(net, g, lr, m).0.layers.len() == net.layers.len(),
        net_bwd(net, g, lr, m).0.acts == net.acts,
        forall|j: int|
            0 <= j < net.layers.len() - m ==> (#[trigger] net_bwd(net, g, lr, m).0.layers[j])
                == net.layers[j],
        net_bwd(net, g, lr, m).0.wf(),
    decreases m,
{
    if m > 0 {
        lemma_net_bwd_frame(net, g, lr, m - 1);
        let (net1, r1) = net_bwd(net, g, lr, m - 1);
        let idx = net.layers.len() - m;
        match r1 {
            Err(_) => {},
            Ok(g1) => match act_bwd(net1.acts[idx].kind, net1.acts[idx].cache, g1) {
                Err(_) => {},
                Ok(g2) => {
                    let (l2, r2) = layer_bwd(net1.layers[idx], g2, lr);
                    assert(net1.layers[idx].wf());
                    assert(l2.wf()) by {
                        match net1.layers[idx] {
                            LayerV::Dense(d) => {},
                            LayerV::Conv(cv) => {
                                if cv.input.len() != 0 && g2.len() == cv.out_channels * (
                                cv.out_h() * cv.out_w()) {
                                    let cv2 = ConvV {
                                        kernels: conv_kern_step(cv, g2, lr),
                                        biases: conv_bias_step(cv, g2, lr),
                                        ..cv
                                    };
                                    assert forall|i2: int, o2: int|
                                        0 <= i2 < cv2.kernels.len() && 0 <= o2
                                            < cv2.out_channels implies (
                                    #[trigger] cv2.kernels[i2][o2]).len() == cv2.kernel
                                        * cv2.kernel by {
                                        assert(cv.kernels[i2][o2].len() == cv.kernel * cv.kernel);
                                    }
                                }
                            },
                        }
                    }
                },
            },
        }
    }
}

/// After a failing backward stage, walking further changes nothing.
pub proof fn lemma_net_bwd_err_stable(net: NetV, g: Seq<i64>, lr: i64, i: int, m: int)
    requires
        0 <= i <= m,
        net_bwd(net, g, lr, i).1 is Err,
    ensures
        net_bwd(net, g, lr, m) == net_bwd(net, g, lr, i),
    decreases m,
{
    if m > i {
        lemma_net_bwd_err_stable(net, g, lr, i, m - 1);
    }
}

/// One single-sample gradient-descent step: predict, take the loss and its
/// gradient against the target, and walk the gradient backward through every
/// stage. Returns the new network state and the sample's loss.
pub open spec fn spec_train_sample<L: Loss>(lf: L, net: NetV, x: Seq<i64>, y: Seq<i64>, lr: i64) -> (
    NetV,
    Result<i64, NNError>,
) {
    let (net1, rp) = spec_predict(net, x);
    match rp {
        Err(e) => (net1, Err(e)),
        Ok(pred) => match lf.spec_loss(y, pred) {
            Err(e) => (net1, Err(e)),
            Ok(lv) => match lf.spec_grad(y, pred) {
                Err(e) => (net1, Err(e)),
                Ok(g0) => {
                    let (net2, rb) = net_bwd(net1, g0, lr, net1.layers.len() as int);
                    match rb {
                        Err(e) => (net2, Err(e)),
                        Ok(_) => (net2, Ok(lv)),
                    }
                },
            },
        },
    }
}

impl Network {
    /// One single-sample gradient-descent step at learning rate
    /// `learning_rate`: predict on `x`, seed the gradient with the loss
    /// gradient against `y`, walk it backward through every stage updating
    /// the parameters, and return the sample's loss.
    pub fn train_sample<L: Loss>(
        &mut self,
        loss_fn: &L,
        x: &Vec<i64>,
        y: &Vec<i64>,
        learning_rate: i64,
    ) -> (r: Result<i64, NNError>)
        requires
            old(self)@.layers_wf(),
        ensures
            final(self)@ == spec_train_sample(*loss_fn, old(self)@, x@, y@, learning_rate).0,
            ({
                let rs = spec_train_sample(*loss_fn, old(self)@, x@, y@, learning_rate).1;
                match rs {
                    Ok(v) => r == Ok::<i64, NNError>(v),
                    Err(e) => r == Err::<i64, NNError>(e),
                }
            }),
            final(self)@.layers_wf(),
            final(self)@.layers.len() == old(self)@.layers.len(),
            final(self)@.acts.len() == old(self)@.acts.len(),
    {
        let ghost net00 = self@;
        let pred = match self.predict(x) {
            Ok(p) => p,
            Err(e) => {
                return Err(e);
            },
        };
        let ghost net1 = self@;
        proof {
            row_deep(pred);
        }
        let lv = match loss_fn.loss(y, &pred) {
            Ok(v) => v,
            Err(e) => {
                return Err(e);
            },
        };
        let gv = match loss_fn.loss_prime(y, &pred) {
            Ok(v) => v,
            Err(e) => {
                return Err(e);
            },
        };
        let ghost g0 = gv@;
        let n = self.layers.len();
        proof {
            assert(self@.wf()) by {
                assert(spec_predict(net00, x@).1 is Ok);
                assert(net00.layers.len() == net00.acts.len());
            }
        }
        let mut gcur = gv;
        let mut j = n;
        while j > 0
            invariant
                self@.wf(),
                n == self@.layers.len(),
                n == self@.acts.len(),
                net00 == old(self)@,
                net00.layers.len() == n,
                net00.acts.len() == n,
                spec_predict(net00, x@).0 == net1,
                spec_predict(net00, x@).1 == Ok::<Seq<i64>, NNError>(pred@),
                loss_fn.spec_loss(y@, pred@) == Ok::<i64, NNError>(lv),
                loss_fn.spec_grad(y@, pred@) is Ok,
                loss_fn.spec_grad(y@, pred@)->Ok_0 == g0,
                net1.wf(),
                n == net1.layers.len(),
                n == net1.acts.len(),
                0 <= j <= n,
                net_bwd(net1, g0, learning_rate, (n - j) as int).1 == Ok::<Seq<i64>, NNError>(
                    gcur@,
                ),
                self@ == net_bwd(net1, g0, learning_rate, (n - j) as int).0,
            decreases j,
        {
            j = j - 1;
            proof {
                lemma_net_bwd_frame(net1, g0, learning_rate, (n - j - 1) as int);
                assert(self@.layers[j as int] == net1.layers[j as int]);
                assert(self@.acts[j as int] == net1.acts[j as int]);
            }
            let ghost pre = self@;
            proof {
                row_deep(gcur);
            }
            let g2 = match self.activations[j].b_prop(&gcur) {
                Ok(v) => v,
                Err(e) => {
                    proof {
                        assert(net_bwd(net1, g0, learning_rate, (n - j) as int).1 == Err::<
                            Seq<i64>,
                            NNError,
                        >(e));
                        assert(self@ == net_bwd(net1, g0, learning_rate, (n - j) as int).0);
                        lemma_net_bwd_err_stable(net1, g0, learning_rate, (n - j) as int, n as int);
                    }
                    return Err(e);
                },
            };
            proof {
                row_deep(g2);
            }
            let mut elem = self.layers.remove(j);
            let step = match &mut elem {
                LayerType::Dense(l) => l.b_prop(&g2, learning_rate),
                LayerType::Conv(l) => l.b_prop(&g2, learning_rate),
            };
            self.layers.insert(j, elem);
            proof {
                assert(elem@ == layer_bwd(pre.layers[j as int], g2@, learning_rate).0);
                assert(self@.layers =~= pre.layers.update(
                    j as int,
                    layer_bwd(pre.layers[j as int], g2@, learning_rate).0,
                ));
                assert(self@.acts =~= pre.acts);
            }
            match step {
                Ok(v) => {
                    gcur = v;
                },
                Err(e) => {
                    proof {
                        assert(net_bwd(net1, g0, learning_rate, (n - j) as int).1 == Err::<
                            Seq<i64>,
                            NNError,
                        >(e));
                        assert(self@ == net_bwd(net1, g0, learning_rate, (n - j) as int).0);
                        lemma_net_bwd_err_stable(net1, g0, learning_rate, (n - j) as int, n as int);
                    }
                    return Err(e);
                },
            }
        }
        Ok(lv)
    }
}

/// One training step keeps the stage counts and the layers' internal
/// consistency.
pub proof fn lemma_train_sample_frame<L: Loss>(lf: L, net: NetV, x: Seq<i64>, y: Seq<i64>, lr: i64)
    requires
        net.layers_wf(),
    ensures
        spec_train_sample(lf, net, x, y, lr).0.layers_wf(),
        spec_train_sample(lf, net, x, y, lr).0.layers.len() == net.layers.len(),
        spec_train_sample(lf, net, x, y, lr).0.acts.len() == net.acts.len(),
{
    if net.layers.len() == net.acts.len() {
        lemma_net_fwd_frame(net, TensorV::Dense(x), net.layers.len() as int);
        let (net1, rp) = spec_predict(net, x);
        match rp {
            Err(_) => {},
            Ok(pred) => match lf.spec_loss(y, pred) {
                Err(_) => {},
                Ok(_) => match lf.spec_grad(y, pred) {
                    Err(_) => {},
                    Ok(g0) => {
                        lemma_net_bwd_frame(net1, g0, lr, net1.layers.len() as int);
                    },
                },
            },
        }
    }
}

/// The state and accumulated loss after single-sample steps over the `cnt`
/// samples starting at `from`, in dataset order.
pub open spec fn spec_train_range<L: Loss>(
    lf: L,
    net: NetV,
    xs: Seq<Seq<i64>>,
    ys: Seq<Seq<i64>>,
    lr: i64,
    from: int,
    cnt: int,
) -> (NetV, Result<i64, NNError>)
    decreases cnt,
{
    if cnt <= 0 {
        (net, Ok(0i64))
    } else {
        let (net1, r1) = spec_train_range(lf, net, xs, ys, lr, from, cnt - 1);
        match r1 {
            Err(e) => (net1, Err(e)),
            Ok(acc) => {
                let (net2, r2) = spec_train_sample(lf, net1, xs[from + cnt - 1], ys[from + cnt
                    - 1], lr);
                match r2 {
                    Err(e) => (net2, Err(e)),
                    Ok(lv) => (net2, Ok(fx_add(acc, lv))),
                }
            },
        }
    }
}

/// After a failing sample, training on more samples changes nothing.
pub proof fn lemma_train_range_err_stable<L: Loss>(
    lf: L,
    net: NetV,
    xs: Seq<Seq<i64>>,
    ys: Seq<Seq<i64>>,
    lr: i64,
    from: int,
    i: int,
    cnt: int,
)
    requires
        0 <= i <= cnt,
        spec_train_range(lf, net, xs, ys, lr, from, i).1 is Err,
    ensures
        spec_train_range(lf, net, xs, ys, lr, from, cnt) == spec_train_range(
            lf,
            net,
            xs,
            ys,
            lr,
            from,
            i,
        ),
    decreases cnt,
{
    if cnt > i {
        lemma_train_range_err_stable(lf, net, xs, ys, lr, from, i, cnt - 1);
    }
}

/// A training range keeps the stage counts and the layers' internal
/// consistency.
pub proof fn lemma_train_range_frame<L: Loss>(
    lf: L,
    net: NetV,
    xs: Seq<Seq<i64>>,
    ys: Seq<Seq<i64>>,
    lr: i64,
    from: int,
    cnt: int,
)
    requires
        net.layers_wf(),
    ensures
        spec_train_range(lf, net, xs, ys, lr, from, cnt).0.layers_wf(),
        spec_train_range(lf, net, xs, ys, lr, from, cnt).0.layers.len() == net.layers.len(),
        spec_train_range(lf, net, xs, ys, lr, from, cnt).0.acts.len() == net.acts.len(),
    decreases cnt,
{
    if cnt > 0 {
        lemma_train_range_frame(lf, net, xs, ys, lr, from, cnt - 1);
        let (net1, r1) = spec_train_range(lf, net, xs, ys, lr, from, cnt - 1);
        match r1 {
            Err(_) => {},
            Ok(_) => {
                lemma_train_sample_frame(lf, net1, xs[from + cnt - 1], ys[from + cnt - 1], lr);
            },
        }
    }
}

/// The mean loss an epoch reports: the accumulated loss divided by the
/// sample count, or zero for an empty set.
pub open spec fn mean_loss(sum: i64, cnt: nat) -> i64 {
    if cnt == 0 {
        0i64
    } else {
        fx_div_count(sum, cnt as usize)
    }
}

/// The state and per-epoch mean losses after whole-set epochs of
/// single-sample gradient descent.
pub open spec fn spec_train_epochs<L: Loss>(
    lf: L,
    net: NetV,
    xs: Seq<Seq<i64>>,
    ys: Seq<Seq<i64>>,
    lr: i64,
    epochs: int,
) -> (NetV, Result<Seq<i64>, NNError>)
    decreases epochs,
{
    if epochs <= 0 {
        (net, Ok(Seq::empty()))
    } else {
        let (net1, r1) = spec_train_epochs(lf, net, xs, ys, lr, epochs - 1);
        match r1 {
            Err(e) => (net1, Err(e)),
            Ok(ms) => {
                let (net2, r2) = spec_train_range(lf, net1, xs, ys, lr, 0, xs.len() as int);
                match r2 {
                    Err(e) => (net2, Err(e)),
                    Ok(sum) => (net2, Ok(ms.push(mean_loss(sum, xs.len())))),
                }
            },
        }
    }
}

/// After a failing epoch, training for more epochs changes nothing.
pub proof fn lemma_train_epochs_err_stable<L: Loss>(
    lf: L,
    net: NetV,
    xs: Seq<Seq<i64>>,
    ys: Seq<Seq<i64>>,
    lr: i64,
    i: int,
    epochs: int,
)
    requires
        0 <= i <= epochs,
        spec_train_epochs(lf, net, xs, ys, lr, i).1 is Err,
    ensures
        spec_train_epochs(lf, net, xs, ys, lr, epochs) == spec_train_epochs(lf, net, xs, ys, lr, i),
    decreases epochs,
{
    if epochs > i {
        lemma_train_epochs_err_stable(lf, net, xs, ys, lr, i, epochs - 1);
    }
}

/// What `train` returns and leaves behind: mismatched sample and target
/// counts are a [`NNError::ShapeError`]; otherwise the requested number of
/// whole-set epochs run in order.
pub open spec fn spec_train<L: Loss>(
    lf: L,
    net: NetV,
    xs: Seq<Seq<i64>>,
    ys: Seq<Seq<i64>>,
    lr: i64,
    epochs: int,
) -> (NetV, Result<Seq<i64>, NNError>) {
    if xs.len() != ys.len() {
        (net, Err(NNError::ShapeError))
    } else {
        spec_train_epochs(lf, net, xs, ys, lr, epochs)
    }
}

/// The forward correlation never reads the cache: two convolution layers
/// that differ only there produce the same output.
pub proof fn lemma_conv_out_cache_free(ca: ConvV, cb: ConvV, chans: Seq<Seq<i64>>)
    requires
        ca.channels == cb.channels,
        ca.height == cb.height,
        ca.width == cb.width,
        ca.out_channels == cb.out_channels,
        ca.kernel == cb.kernel,
        ca.kernels == cb.kernels,
        ca.biases == cb.biases,
    ensures
        conv_out(ca, chans) == conv_out(cb, chans),
{
    assert forall|o: int|
        0 <= o < ca.out_channels implies crate::convolution::conv_chan(ca, chans, o)
        == crate::convolution::conv_chan(cb, chans, o) by {
        assert forall|p: int|
            0 <= p < ca.out_h() * ca.out_w() implies crate::convolution::conv_chan(ca, chans, o)[p]
            == crate::convolution::conv_chan(cb, chans, o)[p] by {
            assert(crate::convolution::conv_cell(
                ca,
                chans,
                o,
                p / (ca.out_w() as int),
                p % (ca.out_w() as int),
            ) == crate::convolution::conv_cell(
                cb,
                chans,
                o,
                p / (cb.out_w() as int),
                p % (cb.out_w() as int),
            ));
        }
        assert(crate::convolution::conv_chan(ca, chans, o) =~= crate::convolution::conv_chan(
            cb,
            chans,
            o,
        ));
    }
    assert(conv_out(ca, chans) =~= conv_out(cb, chans));
}

/// The two layers differ at most in their cached inputs: same variant, same
/// trainable parameters, same shape.
pub open spec fn layer_same_params(a: LayerV, b: LayerV) -> bool {
    match (a, b) {
        (LayerV::Dense(da), LayerV::Dense(db)) => {
            &&& da.weights == db.weights
            &&& da.biases == db.biases
            &&& da.input.len() == db.input.len()
        },
        (LayerV::Conv(ca), LayerV::Conv(cb)) => {
            &&& ca.channels == cb.channels
            &&& ca.height == cb.height
            &&& ca.width == cb.width
            &&& ca.out_channels == cb.out_channels
            &&& ca.kernel == cb.kernel
            &&& ca.kernels == cb.kernels
            &&& ca.biases == cb.biases
        },
        _ => false,
    }
}

/// The two networks differ at most in their stages' cached inputs.
pub open spec fn same_params_net(a: NetV, b: NetV) -> bool {
    &&& a.layers.len() == b.layers.len()
    &&& a.acts.len() == b.acts.len()
    &&& forall|i: int|
        0 <= i < a.layers.len() ==> layer_same_params(#[trigger] a.layers[i], b.layers[i])
    &&& forall|i: int| 0 <= i < a.acts.len() ==> (#[trigger] a.acts[i]).kind == b.acts[i].kind
}

/// The forward pass never reads a cache, so networks that differ only in
/// their caches compute the same values, and every stage a successful pass
/// runs through ends up in the same state in both.
pub proof fn lemma_net_fwd_same_params(a: NetV, b: NetV, t: TensorV, n: int)
    requires
        same_params_net(a, b),
        0 <= n <= a.layers.len(),
        n <= a.acts.len(),
    ensures
        net_fwd(a, t, n).1 == net_fwd(b, t, n).1,
        same_params_net(net_fwd(a, t, n).0, net_fwd(b, t, n).0),
        net_fwd(a, t, n).1 is Ok ==> forall|j: int|
            0 <= j < n ==> #[trigger] net_fwd(a, t, n).0.layers[j] == net_fwd(b, t, n).0.layers[j],
        net_fwd(a, t, n).1 is Ok ==> forall|j: int|
            0 <= j < n ==> #[trigger] net_fwd(a, t, n).0.acts[j] == net_fwd(b, t, n).0.acts[j],
        forall|j: int|
            n <= j < a.layers.len() ==> #[trigger] net_fwd(a, t, n).0.layers[j] == a.layers[j]
                && net_fwd(b, t, n).0.layers[j] == b.layers[j],
        net_fwd(a, t, n).0.layers.len() == a.layers.len(),
        net_fwd(a, t, n).0.acts.len() == a.acts.len(),
        net_fwd(b, t, n).0.layers.len() == b.layers.len(),
        net_fwd(b, t, n).0.acts.len() == b.acts.len(),
        a.layers == b.layers ==> net_fwd(a, t, n).0.layers == net_fwd(b, t, n).0.layers,
    decreases n,
{
    if n > 0 {
        lemma_net_fwd_same_params(a, b, t, n - 1);
        let (a1, ra) = net_fwd(a, t, n - 1);
        let (b1, rb) = net_fwd(b, t, n - 1);
        match ra {
            Err(_) => {},
            Ok(t1) => {
                assert(layer_same_params(a1.layers[n - 1], b1.layers[n - 1]));
                let (la, r2a) = layer_fwd(a1.layers[n - 1], t1);
                let (lb, r2b) = layer_fwd(b1.layers[n - 1], t1);
                assert(r2a == r2b && (r2a is Ok ==> la == lb) && layer_same_params(la, lb)) by {
                    match (a1.layers[n - 1], b1.layers[n - 1]) {
                        (LayerV::Dense(da), LayerV::Dense(db)) => {},
                        (LayerV::Conv(ca), LayerV::Conv(cb)) => {
                            match t1 {
                                TensorV::Dense(v) => {
                                    assert(conv_input_ok(ca, seq![v]) == conv_input_ok(
                                        cb,
                                        seq![v],
                                    ));
                                    if conv_input_ok(ca, seq![v]) {
                                        lemma_conv_out_cache_free(ca, cb, seq![v]);
                                    }
                                },
                                TensorV::Conv(ch) => {
                                    assert(conv_input_ok(ca, ch) == conv_input_ok(cb, ch));
                                    if conv_input_ok(ca, ch) {
                                        lemma_conv_out_cache_free(ca, cb, ch);
                                    }
                                },
                                TensorV::Uninit => {},
                            }
                        },
                        _ => {},
                    }
                }
                let na = net_fwd(a, t, n);
                let nb = net_fwd(b, t, n);
                assert(na.1 == nb.1);
                assert forall|i: int|
                    0 <= i < na.0.layers.len() implies layer_same_params(
                    #[trigger] na.0.layers[i],
                    nb.0.layers[i],
                ) by {
                    if i != n - 1 {
                        assert(na.0.layers[i] == a1.layers[i]);
                        assert(nb.0.layers[i] == b1.layers[i]);
                    }
                }
                assert forall|i: int|
                    0 <= i < na.0.acts.len() implies (#[trigger] na.0.acts[i]).kind
                    == nb.0.acts[i].kind by {
                    if i != n - 1 {
                        assert(na.0.acts[i] == a1.acts[i]);
                        assert(nb.0.acts[i] == b1.acts[i]);
                    }
                }
                if na.1 is Ok {
                    assert forall|j: int| 0 <= j < n implies #[trigger] na.0.layers[j]
                        == nb.0.layers[j] by {
                        if j != n - 1 {
                            assert(na.0.layers[j] == a1.layers[j]);
                            assert(nb.0.layers[j] == b1.layers[j]);
                        }
                    }
                    assert forall|j: int| 0 <= j < n implies #[trigger] na.0.acts[j]
                        == nb.0.acts[j] by {
                        if j != n - 1 {
                            assert(na.0.acts[j] == a1.acts[j]);
                            assert(nb.0.acts[j] == b1.acts[j]);
                        }
                    }
                }
                if a.layers == b.layers {
                    assert(a1.layers == b1.layers);
                    assert(la == lb) by {
                        assert(a1.layers[n - 1] == b1.layers[n - 1]);
                    }
                    assert(na.0.layers =~= nb.0.layers);
                }
            },
        }
    }
}

impl Network {
    /// Single-sample gradient-descent steps over `samples[from..to]` in
    /// dataset order, accumulating the loss.
    pub fn train_range<L: Loss>(
        &mut self,
        loss_fn: &L,
        samples: &Vec<Vec<i64>>,
        targets: &Vec<Vec<i64>>,
        learning_rate: i64,
        from: usize,
        to: usize,
    ) -> (r: Result<i64, NNError>)
        requires
            old(self)@.layers_wf(),
            from <= to,
            to <= samples@.len(),
            to <= targets@.len(),
        ensures
            final(self)@ == spec_train_range(
                *loss_fn,
                old(self)@,
                samples.deep_view(),
                targets.deep_view(),
                learning_rate,
                from as int,
                to - from,
            ).0,
            ({
                let rs = spec_train_range(
                    *loss_fn,
                    old(self)@,
                    samples.deep_view(),
                    targets.deep_view(),
                    learning_rate,
                    from as int,
                    to - from,
                ).1;
                match rs {
                    Ok(v) => r == Ok::<i64, NNError>(v),
                    Err(e) => r == Err::<i64, NNError>(e),
                }
            }),
            final(self)@.layers_wf(),
            final(self)@.layers.len() == old(self)@.layers.len(),
            final(self)@.acts.len() == old(self)@.acts.len(),
    {
        let ghost net0 = self@;
        let ghost xs = samples.deep_view();
        let ghost ys = targets.deep_view();
        let mut acc: i64 = 0;
        let mut s = from;
        while s < to
            invariant
                net0 == old(self)@,
                xs == samples.deep_view(),
                ys == targets.deep_view(),
                net0.layers_wf(),
                from <= s <= to,
                to <= samples@.len(),
                to <= targets@.len(),
                spec_train_range(*loss_fn, net0, xs, ys, learning_rate, from as int, s - from).0
                    == self@,
                spec_train_range(*loss_fn, net0, xs, ys, learning_rate, from as int, s - from).1
                    == Ok::<i64, NNError>(acc),
                self@.layers_wf(),
                self@.layers.len() == net0.layers.len(),
                self@.acts.len() == net0.acts.len(),
            decreases to - s,
        {
            proof {
                mat_deep(*samples);
                mat_deep(*targets);
            }
            let lv = match self.train_sample(loss_fn, &samples[s], &targets[s], learning_rate) {
                Ok(v) => v,
                Err(e) => {
                    proof {
                        assert(spec_train_range(
                            *loss_fn,
                            net0,
                            xs,
                            ys,
                            learning_rate,
                            from as int,
                            s + 1 - from,
                        ).1 == Err::<i64, NNError>(e));
                        lemma_train_range_err_stable(
                            *loss_fn,
                            net0,
                            xs,
                            ys,
                            learning_rate,
                            from as int,
                            s + 1 - from,
                            to - from,
                        );
                    }
                    return Err(e);
                },
            };
            acc = add_fx(acc, lv);
            s = s + 1;
        }
        Ok(acc)
    }

    /// Plain per-sample stochastic gradient descent: for each epoch, one
    /// single-sample step per (sample, target) pair in dataset order.
    /// Returns the mean loss of each epoch.
    pub fn train<L: Loss>(
        &mut self,
        loss_fn: &L,
        samples: &Vec<Vec<i64>>,
        targets: &Vec<Vec<i64>>,
        learning_rate: i64,
        epochs: usize,
    ) -> (r: Result<Vec<i64>, NNError>)
        requires
            old(self)@.layers_wf(),
        ensures
            final(self)@ == spec_train(
                *loss_fn,
                old(self)@,
                samples.deep_view(),
                targets.deep_view(),
                learning_rate,
                epochs as int,
            ).0,
            ({
                let rs = spec_train(
                    *loss_fn,
                    old(self)@,
                    samples.deep_view(),
                    targets.deep_view(),
                    learning_rate,
                    epochs as int,
                ).1;
                match rs {
                    Ok(ms) => r is Ok && r->Ok_0@ == ms,
                    Err(e) => r == Err::<Vec<i64>, NNError>(e),
                }
            }),
            final(self)@.layers_wf(),
            final(self)@.layers.len() == old(self)@.layers.len(),
            final(self)@.acts.len() == old(self)@.acts.len(),
    {
        let ghost net0 = self@;
        let ghost xs = samples.deep_view();
        let ghost ys = targets.deep_view();
        if samples.len() != targets.len() {
            return Err(NNError::ShapeError);
        }
        let cnt = samples.len();
        let mut means: Vec<i64> = Vec::new();
        let mut e: usize = 0;
        proof {
            assert(means@ =~= Seq::<i64>::empty());
        }
        while e < epochs
            invariant
                net0 == old(self)@,
                xs == samples.deep_view(),
                ys == targets.deep_view(),
                xs.len() == ys.len(),
                cnt == samples@.len(),
                net0.layers_wf(),
                e <= epochs,
                spec_train_epochs(*loss_fn, net0, xs, ys, learning_rate, e as int).0 == self@,
                spec_train_epochs(*loss_fn, net0, xs, ys, learning_rate, e as int).1 is Ok,
                spec_train_epochs(*loss_fn, net0, xs, ys, learning_rate, e as int).1->Ok_0
                    == means@,
                self@.layers_wf(),
                self@.layers.len() == net0.layers.len(),
                self@.acts.len() == net0.acts.len(),
            decreases epochs - e,
        {
            let sum = match self.train_range(loss_fn, samples, targets, learning_rate, 0, cnt) {
                Ok(v) => v,
                Err(err) => {
                    proof {
                        assert(spec_train_epochs(
                            *loss_fn,
                            net0,
                            xs,
                            ys,
                            learning_rate,
                            e + 1,
                        ).1 == Err::<Seq<i64>, NNError>(err));
                        lemma_train_epochs_err_stable(
                            *loss_fn,
                            net0,
                            xs,
                            ys,
                            learning_rate,
                            e + 1,
                            epochs as int,
                        );
                    }
                    return Err(err);
                },
            };
            if cnt > 0 {
                means.push(div_count_fx(sum, cnt));
            } else {
                means.push(0);
            }
            e = e + 1;
        }
        Ok(means)
    }
}

/// The two networks have identical layers and activation kinds, differing at
/// most in the activations' cached inputs.
pub open spec fn acts_aligned(a: NetV, b: NetV) -> bool {
    &&& a.layers == b.layers
    &&& a.acts.len() == b.acts.len()
    &&& forall|i: int| 0 <= i < a.acts.len() ==> (#[trigger] a.acts[i]).kind == b.acts[i].kind
}

/// Stale activation caches cannot influence a training step: the forward
/// pass overwrites every cache before the backward pass reads it. Networks
/// with identical layers and kinds take identical steps, and a successful
/// step leaves them in identical states.
pub proof fn lemma_train_sample_acts_irrelevant<L: Loss>(
    lf: L,
    a: NetV,
    b: NetV,
    x: Seq<i64>,
    y: Seq<i64>,
    lr: i64,
)
    requires
        acts_aligned(a, b),
    ensures
        spec_train_sample(lf, a, x, y, lr).1 == spec_train_sample(lf, b, x, y, lr).1,
        acts_aligned(spec_train_sample(lf, a, x, y, lr).0, spec_train_sample(lf, b, x, y, lr).0),
        spec_train_sample(lf, a, x, y, lr).1 is Ok ==> spec_train_sample(lf, a, x, y, lr).0
            == spec_train_sample(lf, b, x, y, lr).0,
{
    assert(same_params_net(a, b)) by {
        assert forall|i: int|
            0 <= i < a.layers.len() implies layer_same_params(
            #[trigger] a.layers[i],
            b.layers[i],
        ) by {
            match a.layers[i] {
                LayerV::Dense(_) => {},
                LayerV::Conv(_) => {},
            }
        }
    }
    if a.layers.len() == a.acts.len() {
        let n = a.layers.len() as int;
        lemma_net_fwd_same_params(a, b, TensorV::Dense(x), n);
        let (a1, ra) = net_fwd(a, TensorV::Dense(x), n);
        let (b1, rb) = net_fwd(b, TensorV::Dense(x), n);
        assert(a1.layers == b1.layers);
        assert forall|i: int|
            0 <= i < a1.acts.len() implies (#[trigger] a1.acts[i]).kind == b1.acts[i].kind by {}
        match ra {
            Err(_) => {},
            Ok(tv) => {
                assert(a1.acts =~= b1.acts);
                assert(a1 == b1);
            },
        }
    }
}

/// Stale activation caches cannot influence a training range either.
pub proof fn lemma_train_range_acts_irrelevant<L: Loss>(
    lf: L,
    a: NetV,
    b: NetV,
    xs: Seq<Seq<i64>>,
    ys: Seq<Seq<i64>>,
    lr: i64,
    from: int,
    cnt: int,
)
    requires
        acts_aligned(a, b),
    ensures
        spec_train_range(lf, a, xs, ys, lr, from, cnt).1 == spec_train_range(
            lf,
            b,
            xs,
            ys,
            lr,
            from,
            cnt,
        ).1,
        acts_aligned(
            spec_train_range(lf, a, xs, ys, lr, from, cnt).0,
            spec_train_range(lf, b, xs, ys, lr, from, cnt).0,
        ),
    decreases cnt,
{
    if cnt > 0 {
        lemma_train_range_acts_irrelevant(lf, a, b, xs, ys, lr, from, cnt - 1);
        let (a1, r1) = spec_train_range(lf, a, xs, ys, lr, from, cnt - 1);
        let (b1, r1b) = spec_train_range(lf, b, xs, ys, lr, from, cnt - 1);
        match r1 {
            Err(_) => {},
            Ok(_) => {
                lemma_train_sample_acts_irrelevant(
                    lf,
                    a1,
                    b1,
                    xs[from + cnt - 1],
                    ys[from + cnt - 1],
                    lr,
                );
            },
        }
    }
}

/// One training step never changes which activation function a stage has.
pub proof fn lemma_train_sample_kinds<L: Loss>(lf: L, net: NetV, x: Seq<i64>, y: Seq<i64>, lr: i64)
    requires
        net.layers_wf(),
    ensures
        spec_train_sample(lf, net, x, y, lr).0.acts.len() == net.acts.len(),
        forall|i: int|
            0 <= i < net.acts.len() ==> (#[trigger] spec_train_sample(
                lf,
                net,
                x,
                y,
                lr,
            ).0.acts[i]).kind == net.acts[i].kind,
{
    if net.layers.len() == net.acts.len() {
        let n = net.layers.len() as int;
        lemma_net_fwd_frame(net, TensorV::Dense(x), n);
        let (net1, rp) = net_fwd(net, TensorV::Dense(x), n);
        match rp {
            Err(_) => {},
            Ok(pred0) => {
                match spec_predict(net, x).1 {
                    Err(_) => {},
                    Ok(pred) => match lf.spec_loss(y, pred) {
                        Err(_) => {},
                        Ok(_) => match lf.spec_grad(y, pred) {
                            Err(_) => {},
                            Ok(g0) => {
                                lemma_net_bwd_frame(net1, g0, lr, net1.layers.len() as int);
                            },
                        },
                    },
                }
            },
        }
    }
}

/// A training range never changes which activation function a stage has.
pub proof fn lemma_train_range_kinds<L: Loss>(
    lf: L,
    net: NetV,
    xs: Seq<Seq<i64>>,
    ys: Seq<Seq<i64>>,
    lr: i64,
    from: int,
    cnt: int,
)
    requires
        net.layers_wf(),
    ensures
        spec_train_range(lf, net, xs, ys, lr, from, cnt).0.acts.len() == net.acts.len(),
        forall|i: int|
            0 <= i < net.acts.len() ==> (#[trigger] spec_train_range(
                lf,
                net,
                xs,
                ys,
                lr,
                from,
                cnt,
            ).0.acts[i]).kind == net.acts[i].kind,
    decreases cnt,
{
    if cnt > 0 {
        lemma_train_range_kinds(lf, net, xs, ys, lr, from, cnt - 1);
        lemma_train_range_frame(lf, net, xs, ys, lr, from, cnt - 1);
        let (net1, r1) = spec_train_range(lf, net, xs, ys, lr, from, cnt - 1);
        match r1 {
            Err(_) => {},
            Ok(_) => {
                lemma_train_sample_kinds(lf, net1, xs[from + cnt - 1], ys[from + cnt - 1], lr);
            },
        }
    }
}

} // verus!
