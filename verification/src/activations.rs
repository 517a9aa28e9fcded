//! Elementwise activation functions and their derivatives.
//!
//! The nonlinear functions are computed entirely in fixed point: `exp` by
//! splitting its argument into whole and fractional parts (powers of `e`
//! times a truncated Taylor series), `tanh` as `1 - 2/(e^(2x)+1)` and the
//! logistic sigmoid as `e^x/(e^x+1)`, each saturated outside the range where
//! the fixed-point resolution can still tell values apart.

use crate::fixed::{add_fx, div_fx, divn_fx, fx_add, fx_div, fx_divn, fx_mul, fx_sub,
    lemma_fx_mul_lower, lemma_fx_mul_nonneg, lemma_tdiv_bounds, mul_fx, sub_fx, SCALE};
use crate::layer::{flat_chans, flatten_mat, LayerOutput, TensorV};
use crate::views::{mat_deep, row_deep};
use crate::NNError;
use vstd::arithmetic::div_mod::{lemma_div_is_ordered, lemma_div_is_ordered_by_denominator,
    lemma_div_multiples_vanish, lemma_div_pos_is_pos, lemma_fundamental_div_mod_converse};
use vstd::arithmetic::mul::{lemma_mul_inequality, lemma_mul_nonnegative};
use vstd::prelude::*;

verus! {

/// Euler's number in fixed point, rounded down.
pub const E_FX: i64 = 178145;

/// Number of Taylor terms used for the fractional part of `exp`.
pub const TAYLOR_TERMS: usize = 12;

/// Arguments at least this large saturate the sigmoid.
pub const SIGMOID_CUTOFF: i64 = 16 * 65536;

/// Arguments at least this large saturate `tanh`.
pub const TANH_CUTOFF: i64 = 8 * 65536;

/// `e^n` computed by repeated fixed-point multiplication.
pub open spec fn exp_int(n: nat) -> i64
    decreases n,
{
    if n == 0 {
        SCALE
    } else {
        fx_mul(exp_int((n - 1) as nat), E_FX)
    }
}

/// Term `f^n / n!` of the Taylor series of `e^f`, computed iteratively.
pub open spec fn taylor_term(f: i64, n: nat) -> i64
    decreases n,
{
    if n == 0 {
        SCALE
    } else {
        fx_divn(fx_mul(taylor_term(f, (n - 1) as nat), f), n as i64)
    }
}

/// The Taylor series of `e^f` truncated after `n` terms.
pub open spec fn taylor_sum(f: i64, n: nat) -> i64
    decreases n,
{
    if n == 0 {
        SCALE
    } else {
        fx_add(taylor_sum(f, (n - 1) as nat), taylor_term(f, n))
    }
}

/// Fixed-point `e^y` for nonnegative `y`: the whole part by repeated
/// multiplication with [`E_FX`], the fractional part by Taylor series.
pub open spec fn spec_exp(y: i64) -> i64
    recommends
        0 <= y,
{
    let k = (y as int) / (SCALE as int);
    let f = (y - k * SCALE) as i64;
    fx_mul(exp_int(k as nat), taylor_sum(f, TAYLOR_TERMS as nat))
}

/// The sigmoid core `e^x / (e^x + 1)` for nonnegative arguments.
pub open spec fn sigmoid_core_spec(x: i64) -> i64
    recommends
        0 <= x,
{
    fx_div(spec_exp(x), fx_add(spec_exp(x), SCALE))
}

/// Fixed-point logistic sigmoid `1 / (1 + e^-x)`, saturated to `0` and `1`
/// beyond `±`[`SIGMOID_CUTOFF`], where its value is within one fixed-point
/// step of the bound.
pub open spec fn spec_sigmoid(x: i64) -> i64 {
    if x >= SIGMOID_CUTOFF {
        SCALE
    } else if x <= -SIGMOID_CUTOFF {
        0i64
    } else if x >= 0 {
        sigmoid_core_spec(x)
    } else {
        fx_sub(SCALE, sigmoid_core_spec((-x) as i64))
    }
}

/// The `tanh` core `1 - 2/(e^(2x) + 1)` for nonnegative arguments.
pub open spec fn tanh_core_spec(x: i64) -> i64
    recommends
        0 <= x < TANH_CUTOFF,
{
    fx_sub(SCALE, fx_div(fx_add(SCALE, SCALE), fx_add(spec_exp((2 * x) as i64), SCALE)))
}

/// Fixed-point hyperbolic tangent, saturated to `±1` beyond
/// `±`[`TANH_CUTOFF`], where its value is within one fixed-point step of the
/// bound.
pub open spec fn spec_tanh(x: i64) -> i64 {
    if x >= TANH_CUTOFF {
        SCALE
    } else if x <= -TANH_CUTOFF {
        (-SCALE) as i64
    } else if x >= 0 {
        tanh_core_spec(x)
    } else {
        fx_sub(0, tanh_core_spec((-x) as i64))
    }
}

/// Rectified linear unit: `max(0, x)`.
pub open spec fn spec_relu(x: i64) -> i64 {
    if x > 0 {
        x
    } else {
        0i64
    }
}

/// Derivative of [`spec_tanh`]: `1 - tanh(x)^2`.
pub open spec fn spec_tanh_deriv(x: i64) -> i64 {
    fx_sub(SCALE, fx_mul(spec_tanh(x), spec_tanh(x)))
}

/// Derivative of [`spec_sigmoid`]: `sigmoid(x) * (1 - sigmoid(x))`.
pub open spec fn spec_sigmoid_deriv(x: i64) -> i64 {
    fx_mul(spec_sigmoid(x), fx_sub(SCALE, spec_sigmoid(x)))
}

/// Derivative of [`spec_relu`]: one for positive arguments, zero otherwise.
pub open spec fn spec_relu_deriv(x: i64) -> i64 {
    if x > 0 {
        SCALE
    } else {
        0i64
    }
}

/// Every fixed-point power of `e` is at least one.
pub proof fn lemma_exp_int_ge_one(n: nat)
    ensures
        exp_int(n) >= SCALE,
    decreases n,
{
    if n > 0 {
        lemma_exp_int_ge_one((n - 1) as nat);
        lemma_fx_mul_lower(exp_int((n - 1) as nat), E_FX);
    }
}

/// Taylor terms of a nonnegative argument are nonnegative.
pub proof fn lemma_taylor_term_nonneg(f: i64, n: nat)
    requires
        0 <= f,
        n <= TAYLOR_TERMS,
    ensures
        taylor_term(f, n) >= 0,
    decreases n,
{
    if n > 0 {
        lemma_taylor_term_nonneg(f, (n - 1) as nat);
        lemma_fx_mul_nonneg(taylor_term(f, (n - 1) as nat), f);
        lemma_tdiv_bounds(fx_mul(taylor_term(f, (n - 1) as nat), f) as int, n as int);
    }
}

/// A truncated Taylor series of a nonnegative argument is at least one.
pub proof fn lemma_taylor_sum_ge_one(f: i64, n: nat)
    requires
        0 <= f,
        n <= TAYLOR_TERMS,
    ensures
        taylor_sum(f, n) >= SCALE,
    decreases n,
{
    if n > 0 {
        lemma_taylor_sum_ge_one(f, (n - 1) as nat);
        lemma_taylor_term_nonneg(f, n);
    }
}

/// The fixed-point exponential of a nonnegative argument is at least one.
pub proof fn lemma_exp_ge_one(y: i64)
    requires
        0 <= y,
    ensures
        spec_exp(y) >= SCALE,
{
    let k = (y as int) / (SCALE as int);
    let f = (y - k * SCALE) as i64;
    lemma_div_pos_is_pos(y as int, SCALE as int);
    vstd::arithmetic::div_mod::lemma_fundamental_div_mod(y as int, SCALE as int);
    vstd::arithmetic::div_mod::lemma_mod_bound(y as int, SCALE as int);
    lemma_exp_int_ge_one(k as nat);
    lemma_taylor_sum_ge_one(f, TAYLOR_TERMS as nat);
    lemma_fx_mul_lower(exp_int(k as nat), taylor_sum(f, TAYLOR_TERMS as nat));
}

/// The sigmoid core of a nonnegative argument lies in `[0, 1]`.
pub proof fn lemma_sigmoid_core_range(x: i64)
    requires
        0 <= x,
    ensures
        0 <= sigmoid_core_spec(x) <= SCALE,
{
    let e = spec_exp(x);
    let denom = fx_add(e, SCALE);
    lemma_exp_ge_one(x);
    assert(denom >= e);
    lemma_mul_nonnegative(e as int, SCALE as int);
    lemma_div_pos_is_pos(e * SCALE, denom as int);
    lemma_mul_inequality(e as int, denom as int, SCALE as int);
    lemma_div_is_ordered(e * SCALE, denom * SCALE, denom as int);
    lemma_div_multiples_vanish(SCALE as int, denom as int);
}

/// The sigmoid lies in `[0, 1]` everywhere.
pub proof fn lemma_sigmoid_range(x: i64)
    ensures
        0 <= spec_sigmoid(x) <= SCALE,
{
    if x >= SIGMOID_CUTOFF {
    } else if x <= -SIGMOID_CUTOFF {
    } else if x >= 0 {
        lemma_sigmoid_core_range(x);
    } else {
        lemma_sigmoid_core_range((-x) as i64);
    }
}

/// The `tanh` core of a nonnegative argument lies in `[0, 1]`.
pub proof fn lemma_tanh_core_range(x: i64)
    requires
        0 <= x < TANH_CUTOFF,
    ensures
        0 <= tanh_core_spec(x) <= SCALE,
{
    let e2 = spec_exp((2 * x) as i64);
    let denom = fx_add(e2, SCALE);
    lemma_exp_ge_one((2 * x) as i64);
    assert(denom >= 2 * SCALE);
    let num = fx_add(SCALE, SCALE);
    lemma_div_pos_is_pos(num * SCALE, denom as int);
    lemma_div_is_ordered_by_denominator(num * SCALE, 2 * SCALE as int, denom as int);
    assert((num as int * SCALE as int) / (2 * SCALE as int) == SCALE);
}

/// The hyperbolic tangent lies in `[-1, 1]` everywhere.
pub proof fn lemma_tanh_range(x: i64)
    ensures
        -SCALE <= spec_tanh(x) <= SCALE,
{
    if x >= TANH_CUTOFF {
    } else if x <= -TANH_CUTOFF {
    } else if x >= 0 {
        lemma_tanh_core_range(x);
    } else {
        lemma_tanh_core_range((-x) as i64);
    }
}

/// Fixed-point `e^y` for `0 <= y <= `[`SIGMOID_CUTOFF`].
fn exp_fx(y: i64) -> (r: i64)
    requires
        0 <= y <= SIGMOID_CUTOFF,
    ensures
        r == spec_exp(y),
        r >= SCALE,
{
    let mut rem = y;
    let mut epow: i64 = SCALE;
    let ghost mut k: nat = 0;
    while rem >= SCALE
        invariant
            0 <= rem,
            rem == y - k * SCALE,
            epow == exp_int(k),
            epow >= SCALE,
        decreases rem,
    {
        proof {
            crate::fixed::lemma_fx_mul_lower(epow, E_FX);
        }
        epow = mul_fx(epow, E_FX);
        rem = rem - SCALE;
        proof {
            k = k + 1;
        }
    }
    proof {
        lemma_fundamental_div_mod_converse(y as int, SCALE as int, k as int, rem as int);
    }
    let mut term: i64 = SCALE;
    let mut sum: i64 = SCALE;
    let mut n: usize = 1;
    while n <= TAYLOR_TERMS
        invariant
            1 <= n <= TAYLOR_TERMS + 1,
            0 <= rem < SCALE,
            term == taylor_term(rem, (n - 1) as nat),
            sum == taylor_sum(rem, (n - 1) as nat),
            term >= 0,
            sum >= SCALE,
        decreases TAYLOR_TERMS + 1 - n,
    {
        proof {
            lemma_fx_mul_nonneg(term, rem);
            lemma_tdiv_bounds(fx_mul(term, rem) as int, n as int);
        }
        term = divn_fx(mul_fx(term, rem), n as i64);
        sum = add_fx(sum, term);
        n = n + 1;
    }
    proof {
        lemma_fx_mul_lower(epow, sum);
    }
    mul_fx(epow, sum)
}

/// The sigmoid core `e^x / (e^x + 1)` for nonnegative arguments.
fn sigmoid_core(x: i64) -> (r: i64)
    requires
        0 <= x < SIGMOID_CUTOFF,
    ensures
        r == sigmoid_core_spec(x),
        0 <= r <= SCALE,
{
    let e = exp_fx(x);
    let denom = add_fx(e, SCALE);
    proof {
        lemma_sigmoid_core_range(x);
    }
    div_fx(e, denom)
}

/// Fixed-point logistic sigmoid, saturated beyond `±`[`SIGMOID_CUTOFF`].
pub fn sigmoid_fx(x: i64) -> (r: i64)
    ensures
        r == spec_sigmoid(x),
        0 <= r <= SCALE,
{
    if x >= SIGMOID_CUTOFF {
        SCALE
    } else if x <= -SIGMOID_CUTOFF {
        0
    } else if x >= 0 {
        sigmoid_core(x)
    } else {
        let s = sigmoid_core(-x);
        sub_fx(SCALE, s)
    }
}

/// The `tanh` core `1 - 2/(e^(2x) + 1)` for nonnegative arguments.
fn tanh_core(x: i64) -> (r: i64)
    requires
        0 <= x < TANH_CUTOFF,
    ensures
        r == tanh_core_spec(x),
        0 <= r <= SCALE,
{
    let e2 = exp_fx(2 * x);
    let denom = add_fx(e2, SCALE);
    proof {
        lemma_tanh_core_range(x);
    }
    let frac = div_fx(add_fx(SCALE, SCALE), denom);
    sub_fx(SCALE, frac)
}

/// Fixed-point hyperbolic tangent, saturated beyond `±`[`TANH_CUTOFF`].
pub fn tanh_fx(x: i64) -> (r: i64)
    ensures
        r == spec_tanh(x),
        -SCALE <= r <= SCALE,
{
    if x >= TANH_CUTOFF {
        SCALE
    } else if x <= -TANH_CUTOFF {
        -SCALE
    } else if x >= 0 {
        tanh_core(x)
    } else {
        let t = tanh_core(-x);
        sub_fx(0, t)
    }
}

/// The closed set of activation kinds.
#[derive(Debug, Clone, Copy, PartialEq, Eq, Structural)]
pub enum ActKind {
    Tanh,
    Sigmoid,
    Relu,
}

/// The activation function of a kind, applied to one scalar.
pub open spec fn act_value(k: ActKind, x: i64) -> i64 {
    match k {
        ActKind::Tanh => spec_tanh(x),
        ActKind::Sigmoid => spec_sigmoid(x),
        ActKind::Relu => spec_relu(x),
    }
}

/// The derivative of a kind's activation function, at one scalar.
pub open spec fn act_deriv(k: ActKind, x: i64) -> i64 {
    match k {
        ActKind::Tanh => spec_tanh_deriv(x),
        ActKind::Sigmoid => spec_sigmoid_deriv(x),
        ActKind::Relu => spec_relu_deriv(x),
    }
}

/// A vector mapped elementwise through an activation function.
pub open spec fn act_map(k: ActKind, v: Seq<i64>) -> Seq<i64> {
    Seq::new(v.len(), |i: int| act_value(k, v[i]))
}

/// Channels mapped elementwise through an activation function.
pub open spec fn act_map_chans(k: ActKind, ch: Seq<Seq<i64>>) -> Seq<Seq<i64>> {
    Seq::new(ch.len(), |c: int| act_map(k, ch[c]))
}

/// The backward map of an activation: each upstream gradient entry scaled by
/// the derivative at the matching cached pre-activation value.
pub open spec fn deriv_map(k: ActKind, x: Seq<i64>, og: Seq<i64>) -> Seq<i64>
    recommends
        x.len() == og.len(),
{
    Seq::new(x.len(), |i: int| fx_mul(act_deriv(k, x[i]), og[i]))
}

/// Forward image of a tensor value under an activation. Reading the
/// uninitialized sentinel is a [`NNError::InvariantViolation`].
pub open spec fn act_fwd(k: ActKind, t: TensorV) -> Result<TensorV, NNError> {
    match t {
        TensorV::Dense(v) => Ok(TensorV::Dense(act_map(k, v))),
        TensorV::Conv(ch) => Ok(TensorV::Conv(act_map_chans(k, ch))),
        TensorV::Uninit => Err(NNError::InvariantViolation),
    }
}

/// Backward image of an upstream gradient through an activation whose cached
/// input is `cache`. An empty cache is a [`NNError::StateError`]; a gradient
/// whose length does not match the flattened cache is a
/// [`NNError::ShapeError`].
pub open spec fn act_bwd(k: ActKind, cache: TensorV, og: Seq<i64>) -> Result<Seq<i64>, NNError> {
    match cache {
        TensorV::Uninit => Err(NNError::StateError),
        TensorV::Dense(v) => if og.len() == v.len() {
            Ok(deriv_map(k, v, og))
        } else {
            Err(NNError::ShapeError)
        },
        TensorV::Conv(ch) => {
            let flat = flat_chans(ch);
            if og.len() == flat.len() {
                Ok(deriv_map(k, flat, og))
            } else {
                Err(NNError::ShapeError)
            }
        },
    }
}

/// Apply one activation function to one scalar.
pub fn act_scalar(k: ActKind, x: i64) -> (r: i64)
    ensures
        r == act_value(k, x),
{
    match k {
        ActKind::Tanh => tanh_fx(x),
        ActKind::Sigmoid => sigmoid_fx(x),
        ActKind::Relu => if x > 0 {
            x
        } else {
            0
        },
    }
}

/// Apply one activation function's derivative to one scalar.
pub fn act_scalar_deriv(k: ActKind, x: i64) -> (r: i64)
    ensures
        r == act_deriv(k, x),
{
    match k {
        ActKind::Tanh => {
            let t = tanh_fx(x);
            sub_fx(SCALE, mul_fx(t, t))
        },
        ActKind::Sigmoid => {
            let s = sigmoid_fx(x);
            mul_fx(s, sub_fx(SCALE, s))
        },
        ActKind::Relu => if x > 0 {
            SCALE
        } else {
            0
        },
    }
}

/// An activation function applied over a vector.
fn act_map_vec(k: ActKind, v: &Vec<i64>) -> (r: Vec<i64>)
    ensures
        r@ == act_map(k, v@),
{
    let mut out: Vec<i64> = Vec::new();
    let mut i: usize = 0;
    while i < v.len()
        invariant
            i <= v@.len(),
            out@.len() == i,
            forall|t: int| 0 <= t < i ==> out@[t] == act_value(k, v@[t]),
        decreases v@.len() - i,
    {
        out.push(act_scalar(k, v[i]));
        i = i + 1;
    }
    proof {
        assert(out@ =~= act_map(k, v@));
    }
    out
}

/// An activation function applied over every channel.
fn act_map_mat(k: ActKind, v: &Vec<Vec<i64>>) -> (r: Vec<Vec<i64>>)
    ensures
        r.deep_view() == act_map_chans(k, v.deep_view()),
{
    let mut out: Vec<Vec<i64>> = Vec::new();
    let mut i: usize = 0;
    while i < v.len()
        invariant
            i <= v@.len(),
            out@.len() == i,
            forall|t: int| 0 <= t < i ==> (#[trigger] out@[t])@ == act_map(k, v@[t]@),
        decreases v@.len() - i,
    {
        out.push(act_map_vec(k, &v[i]));
        i = i + 1;
    }
    proof {
        mat_deep(out);
        mat_deep(*v);
        assert(out.deep_view() =~= act_map_chans(k, v.deep_view()));
    }
    out
}

/// The gradient map of one activation: derivative at the cached value times
/// the upstream gradient, elementwise.
fn deriv_map_vec(k: ActKind, x: &Vec<i64>, og: &Vec<i64>) -> (r: Vec<i64>)
    requires
        x@.len() == og@.len(),
    ensures
        r@ == deriv_map(k, x@, og@),
{
    let mut out: Vec<i64> = Vec::new();
    let mut i: usize = 0;
    while i < x.len()
        invariant
            i <= x@.len(),
            og@.len() == x@.len(),
            out@.len() == i,
            forall|t: int| 0 <= t < i ==> out@[t] == fx_mul(act_deriv(k, x@[t]), og@[t]),
        decreases x@.len() - i,
    {
        out.push(mul_fx(act_scalar_deriv(k, x[i]), og[i]));
        i = i + 1;
    }
    proof {
        assert(out@ =~= deriv_map(k, x@, og@));
    }
    out
}

/// Forward pass of one activation over a tensor value.
fn act_fwd_exec(k: ActKind, t: &LayerOutput) -> (r: Result<LayerOutput, NNError>)
    ensures
        match act_fwd(k, t@) {
            Ok(tv) => r is Ok && r->Ok_0@ == tv,
            Err(e) => r == Err::<LayerOutput, NNError>(e),
        },
{
    match t {
        LayerOutput::Dense(v) => {
            let out = act_map_vec(k, v);
            proof {
                row_deep(out);
                row_deep(*v);
            }
            Ok(LayerOutput::Dense(out))
        },
        LayerOutput::Conv(m) => {
            let out = act_map_mat(k, m);
            Ok(LayerOutput::Conv(out))
        },
        LayerOutput::Uninit => Err(NNError::InvariantViolation),
    }
}

/// Backward pass of one activation over its cached input.
fn act_bwd_exec(k: ActKind, cache: &LayerOutput, og: &Vec<i64>) -> (r: Result<Vec<i64>, NNError>)
    ensures
        match act_bwd(k, cache@, og@) {
            Ok(g) => r is Ok && r->Ok_0@ == g,
            Err(e) => r == Err::<Vec<i64>, NNError>(e),
        },
{
    match cache {
        LayerOutput::Uninit => Err(NNError::StateError),
        LayerOutput::Dense(v) => {
            proof {
                row_deep(*v);
            }
            if og.len() != v.len() {
                Err(NNError::ShapeError)
            } else {
                Ok(deriv_map_vec(k, v, og))
            }
        },
        LayerOutput::Conv(m) => {
            let flat = flatten_mat(m);
            if og.len() != flat.len() {
                Err(NNError::ShapeError)
            } else {
                Ok(deriv_map_vec(k, &flat, og))
            }
        },
    }
}

/// The interface every activation variant provides: the scalar function and
/// its derivative, the cached forward input, and the forward and backward
/// passes over tensor values.
pub trait Activation: Sized {
    /// Which activation function this is.
    spec fn kind(&self) -> ActKind;

    /// The cached pre-activation input.
    spec fn cache(&self) -> TensorV;

    /// The scalar activation function.
    fn activation(&self, x: i64) -> (r: i64)
        ensures
            r == act_value(self.kind(), x),
    ;

    /// The scalar derivative of the activation function.
    fn derivative(&self, x: i64) -> (r: i64)
        ensures
            r == act_deriv(self.kind(), x),
    ;

    /// Replace the cached input.
    fn set_input(&mut self, input: LayerOutput)
        ensures
            final(self).kind() == old(self).kind(),
            final(self).cache() == input@,
    ;

    /// Read the cached input.
    fn get_input(&self) -> (r: &LayerOutput)
        ensures
            r@ == self.cache(),
    ;

    /// Forward pass: cache the input and apply the activation elementwise,
    /// keeping the tensor variant.
    fn f_prop(&mut self, layer_out: &LayerOutput) -> (r: Result<LayerOutput, NNError>)
        ensures
            final(self).kind() == old(self).kind(),
            match act_fwd(old(self).kind(), layer_out@) {
                Ok(tv) => {
                    &&& r is Ok
                    &&& r->Ok_0@ == tv
                    &&& final(self).cache() == layer_out@
                },
                Err(e) => {
                    &&& r == Err::<LayerOutput, NNError>(e)
                    &&& final(self).cache() == old(self).cache()
                },
            },
    ;

    /// Forward pass without caching, for read-only prediction.
    fn f_prop_ref(&self, layer_out: &LayerOutput) -> (r: Result<LayerOutput, NNError>)
        ensures
            match act_fwd(self.kind(), layer_out@) {
                Ok(tv) => r is Ok && r->Ok_0@ == tv,
                Err(e) => r == Err::<LayerOutput, NNError>(e),
            },
    ;

    /// Backward pass: the upstream gradient scaled elementwise by the
    /// derivative at the cached input, flattened channel-major.
    fn b_prop(&self, output_gradient: &Vec<i64>) -> (r: Result<Vec<i64>, NNError>)
        ensures
            match act_bwd(self.kind(), self.cache(), output_gradient@) {
                Ok(g) => r is Ok && r->Ok_0@ == g,
                Err(e) => r == Err::<Vec<i64>, NNError>(e),
            },
    ;
}

/// Hyperbolic-tangent activation with its cached input.
#[derive(Debug)]
pub struct Tanh {
    pub input: LayerOutput,
}

/// Logistic-sigmoid activation with its cached input.
#[derive(Debug)]
pub struct Sigmoid {
    pub input: LayerOutput,
}

/// Rectified-linear activation with its cached input.
#[derive(Debug)]
pub struct Relu {
    pub input: LayerOutput,
}

impl Default for Tanh {
    /// A fresh activation with an empty cache.
    fn default() -> (r: Self)
        ensures
            r.cache() == TensorV::Uninit,
    {
        Tanh { input: LayerOutput::Uninit }
    }
}

impl Default for Sigmoid {
    /// A fresh activation with an empty cache.
    fn default() -> (r: Self)
        ensures
            r.cache() == TensorV::Uninit,
    {
        Sigmoid { input: LayerOutput::Uninit }
    }
}

impl Default for Relu {
    /// A fresh activation with an empty cache.
    fn default() -> (r: Self)
        ensures
            r.cache() == TensorV::Uninit,
    {
        Relu { input: LayerOutput::Uninit }
    }
}

impl Clone for Tanh {
    /// A clone models the same activation state.
    fn clone(&self) -> (r: Self)
        ensures
            r.cache() == self.cache(),
    {
        Tanh { input: self.input.clone() }
    }
}

impl Clone for Sigmoid {
    /// A clone models the same activation state.
    fn clone(&self) -> (r: Self)
        ensures
            r.cache() == self.cache(),
    {
        Sigmoid { input: self.input.clone() }
    }
}

impl Clone for Relu {
    /// A clone models the same activation state.
    fn clone(&self) -> (r: Self)
        ensures
            r.cache() == self.cache(),
    {
        Relu { input: self.input.clone() }
    }
}

impl Activation for Tanh {
    open spec fn kind(&self) -> ActKind {
        ActKind::Tanh
    }

    open spec fn cache(&self) -> TensorV {
        self.input@
    }

    fn activation(&self, x: i64) -> (r: i64) {
        tanh_fx(x)
    }

    fn derivative(&self, x: i64) -> (r: i64) {
        act_scalar_deriv(ActKind::Tanh, x)
    }

    fn set_input(&mut self, input: LayerOutput) {
        self.input = input;
    }

    fn get_input(&self) -> (r: &LayerOutput) {
        &self.input
    }

    fn f_prop(&mut self, layer_out: &LayerOutput) -> (r: Result<LayerOutput, NNError>) {
        match act_fwd_exec(ActKind::Tanh, layer_out) {
            Ok(v) => {
                self.input = layer_out.clone();
                Ok(v)
            },
            Err(e) => Err(e),
        }
    }

    fn f_prop_ref(&self, layer_out: &LayerOutput) -> (r: Result<LayerOutput, NNError>) {
        act_fwd_exec(ActKind::Tanh, layer_out)
    }

    fn b_prop(&self, output_gradient: &Vec<i64>) -> (r: Result<Vec<i64>, NNError>) {
        act_bwd_exec(ActKind::Tanh, &self.input, output_gradient)
    }
}

impl Activation for Sigmoid {
    open spec fn kind(&self) -> ActKind {
        ActKind::Sigmoid
    }

    open spec fn cache(&self) -> TensorV {
        self.input@
    }

    fn activation(&self, x: i64) -> (r: i64) {
        sigmoid_fx(x)
    }

    fn derivative(&self, x: i64) -> (r: i64) {
        act_scalar_deriv(ActKind::Sigmoid, x)
    }

    fn set_input(&mut self, input: LayerOutput) {
        self.input = input;
    }

    fn get_input(&self) -> (r: &LayerOutput) {
        &self.input
    }

    fn f_prop(&mut self, layer_out: &LayerOutput) -> (r: Result<LayerOutput, NNError>) {
        match act_fwd_exec(ActKind::Sigmoid, layer_out) {
            Ok(v) => {
                self.input = layer_out.clone();
                Ok(v)
            },
            Err(e) => Err(e),
        }
    }

    fn f_prop_ref(&self, layer_out: &LayerOutput) -> (r: Result<LayerOutput, NNError>) {
        act_fwd_exec(ActKind::Sigmoid, layer_out)
    }

    fn b_prop(&self, output_gradient: &Vec<i64>) -> (r: Result<Vec<i64>, NNError>) {
        act_bwd_exec(ActKind::Sigmoid, &self.input, output_gradient)
    }
}

impl Activation for Relu {
    open spec fn kind(&self) -> ActKind {
        ActKind::Relu
    }

    open spec fn cache(&self) -> TensorV {
        self.input@
    }

    fn activation(&self, x: i64) -> (r: i64) {
        act_scalar(ActKind::Relu, x)
    }

    fn derivative(&self, x: i64) -> (r: i64) {
        act_scalar_deriv(ActKind::Relu, x)
    }

    fn set_input(&mut self, input: LayerOutput) {
        self.input = input;
    }

    fn get_input(&self) -> (r: &LayerOutput) {
        &self.input
    }

    fn f_prop(&mut self, layer_out: &LayerOutput) -> (r: Result<LayerOutput, NNError>) {
        match act_fwd_exec(ActKind::Relu, layer_out) {
            Ok(v) => {
                self.input = layer_out.clone();
                Ok(v)
            },
            Err(e) => Err(e),
        }
    }

    fn f_prop_ref(&self, layer_out: &LayerOutput) -> (r: Result<LayerOutput, NNError>) {
        act_fwd_exec(ActKind::Relu, layer_out)
    }

    fn b_prop(&self, output_gradient: &Vec<i64>) -> (r: Result<Vec<i64>, NNError>) {
        act_bwd_exec(ActKind::Relu, &self.input, output_gradient)
    }
}

/// Mathematical model of an activation stage: its kind and its cached
/// pre-activation input.
pub struct ActV {
    pub kind: ActKind,
    pub cache: TensorV,
}

/// The closed set of activation variants.
#[derive(Debug)]
pub enum ActivationFn {
    Tanh(Tanh),
    Sigmoid(Sigmoid),
    Relu(Relu),
}

impl View for ActivationFn {
    type V = ActV;

    open spec fn view(&self) -> ActV {
        match self {
            ActivationFn::Tanh(a) => ActV { kind: ActKind::Tanh, cache: a.input@ },
            ActivationFn::Sigmoid(a) => ActV { kind: ActKind::Sigmoid, cache: a.input@ },
            ActivationFn::Relu(a) => ActV { kind: ActKind::Relu, cache: a.input@ },
        }
    }
}

impl Clone for ActivationFn {
    /// A clone models the same activation stage.
    fn clone(&self) -> (r: Self)
        ensures
            r@ == self@,
    {
        match self {
            ActivationFn::Tanh(a) => ActivationFn::Tanh(a.clone()),
            ActivationFn::Sigmoid(a) => ActivationFn::Sigmoid(a.clone()),
            ActivationFn::Relu(a) => ActivationFn::Relu(a.clone()),
        }
    }
}

impl ActivationFn {
    /// Forward pass of whichever activation variant this is.
    pub fn f_prop(&mut self, layer_out: &LayerOutput) -> (r: Result<LayerOutput, NNError>)
        ensures
            final(self)@.kind == old(self)@.kind,
            match act_fwd(old(self)@.kind, layer_out@) {
                Ok(tv) => {
                    &&& r is Ok
                    &&& r->Ok_0@ == tv
                    &&& final(self)@.cache == layer_out@
                },
                Err(e) => {
                    &&& r == Err::<LayerOutput, NNError>(e)
                    &&& final(self)@ == old(self)@
                },
            },
    {
        match self {
            ActivationFn::Tanh(a) => a.f_prop(layer_out),
            ActivationFn::Sigmoid(a) => a.f_prop(layer_out),
            ActivationFn::Relu(a) => a.f_prop(layer_out),
        }
    }

    /// Forward pass without caching, for read-only prediction.
    pub fn f_prop_ref(&self, layer_out: &LayerOutput) -> (r: Result<LayerOutput, NNError>)
        ensures
            match act_fwd(self@.kind, layer_out@) {
                Ok(tv) => r is Ok && r->Ok_0@ == tv,
                Err(e) => r == Err::<LayerOutput, NNError>(e),
            },
    {
        match self {
            ActivationFn::Tanh(a) => a.f_prop_ref(layer_out),
            ActivationFn::Sigmoid(a) => a.f_prop_ref(layer_out),
            ActivationFn::Relu(a) => a.f_prop_ref(layer_out),
        }
    }

    /// Backward pass of whichever activation variant this is.
    pub fn b_prop(&self, output_gradient: &Vec<i64>) -> (r: Result<Vec<i64>, NNError>)
        ensures
            match act_bwd(self@.kind, self@.cache, output_gradient@) {
                Ok(g) => r is Ok && r->Ok_0@ == g,
                Err(e) => r == Err::<Vec<i64>, NNError>(e),
            },
    {
        match self {
            ActivationFn::Tanh(a) => a.b_prop(output_gradient),
            ActivationFn::Sigmoid(a) => a.b_prop(output_gradient),
            ActivationFn::Relu(a) => a.b_prop(output_gradient),
        }
    }
}

} // verus!
