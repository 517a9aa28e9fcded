//! Multi-channel 2D correlation layer.
//!
//! Every 2D map is stored flattened row-major. A kernel bank holds one
//! `k*k` block per (input channel, output channel) pair, and one bias per
//! output channel, broadcast over all output positions.

use crate::fixed::{add_fx, dot, dot_fx, fx_add, fx_mul, fx_sub, mul_fx, step_seq, step_vec,
    sub_fx, sum_fx, sum_vec, SCALE};
use crate::layer::{clone_cube, clone_mat, clone_row, flat_chans, flatten_mat, LayerOutput,
    TensorV};
use crate::rng::{random_row, random_row_seeded};
use crate::views::{cube_deep, mat_deep, row_deep};
use crate::NNError;
use vstd::arithmetic::div_mod::lemma_fundamental_div_mod_converse;
use vstd::prelude::*;

verus! {

/// Mathematical model of a convolution layer.
pub struct ConvV {
    /// Cached forward input: empty before any forward pass, else one
    /// flattened `height*width` map per input channel.
    pub input: Seq<Seq<i64>>,
    /// Input channel count.
    pub channels: nat,
    /// Input map height.
    pub height: nat,
    /// Input map width.
    pub width: nat,
    /// Output channel count.
    pub out_channels: nat,
    /// Kernel side length.
    pub kernel: nat,
    /// `kernels[ic][oc]` is the `kernel*kernel` block correlating input
    /// channel `ic` into output channel `oc`, flattened row-major.
    pub kernels: Seq<Seq<Seq<i64>>>,
    /// One bias per output channel.
    pub biases: Seq<i64>,
}

impl ConvV {
    /// Output map height.
    pub open spec fn out_h(self) -> nat {
        (self.height - self.kernel + 1) as nat
    }

    /// Output map width.
    pub open spec fn out_w(self) -> nat {
        (self.width - self.kernel + 1) as nat
    }

    /// The geometry is valid and every index computed by the layer fits in
    /// a `usize`.
    pub open spec fn shape_ok(self) -> bool {
        &&& 1 <= self.kernel <= self.height
        &&& self.kernel <= self.width
        &&& self.height * self.width <= usize::MAX
        &&& self.channels * (self.height * self.width) <= usize::MAX
        &&& self.out_h() * self.out_w() <= usize::MAX
        &&& self.out_channels * (self.out_h() * self.out_w()) <= usize::MAX
        &&& self.kernel * self.kernel <= usize::MAX
    }

    /// The cache holds one full map per input channel.
    pub open spec fn cache_full(self) -> bool {
        &&& self.input.len() == self.channels
        &&& forall|ic: int|
            0 <= ic < self.input.len() ==> (#[trigger] self.input[ic]).len() == self.height
                * self.width
    }

    /// Internal consistency: valid geometry, a full kernel bank, one bias
    /// per output channel, and a cache that is either empty (before any
    /// forward pass) or one full map per input channel.
    pub open spec fn wf(self) -> bool {
        &&& self.shape_ok()
        &&& self.kernels.len() == self.channels
        &&& forall|ic: int|
            0 <= ic < self.kernels.len() ==> (#[trigger] self.kernels[ic]).len()
                == self.out_channels
        &&& forall|ic: int, oc: int|
            0 <= ic < self.kernels.len() && 0 <= oc < self.out_channels ==> (
            #[trigger] self.kernels[ic][oc]).len() == self.kernel * self.kernel
        &&& self.biases.len() == self.out_channels
        &&& (self.input.len() == 0 || self.cache_full())
    }
}

/// The sliding-window "correlation chunk": the `ph` by `pw` patch of a
/// flattened `w`-wide map whose top-left corner is `(y, x)`, itself flattened
/// row-major.
pub open spec fn patch(chan: Seq<i64>, y: int, x: int, ph: int, pw: int, w: int) -> Seq<i64>
    recommends
        1 <= pw,
        0 <= ph,
{
    Seq::new((ph * pw) as nat, |t: int| chan[(y + t / pw) * w + x + t % pw])
}

/// Patch-kernel correlation accumulated over the first `n` input channels at
/// one output position.
pub open spec fn chan_acc(
    input: Seq<Seq<i64>>,
    bank: Seq<Seq<Seq<i64>>>,
    o: int,
    y: int,
    x: int,
    k: int,
    w: int,
    n: int,
) -> i64
    decreases n,
{
    if n <= 0 {
        0i64
    } else {
        fx_add(
            chan_acc(input, bank, o, y, x, k, w, n - 1),
            dot_fx(patch(input[n - 1], y, x, k, k, w), bank[n - 1][o]),
        )
    }
}

/// One output scalar of the forward correlation: the accumulation over all
/// input channels, plus the output channel's bias.
pub open spec fn conv_cell(c: ConvV, input: Seq<Seq<i64>>, o: int, y: int, x: int) -> i64 {
    fx_add(
        chan_acc(input, c.kernels, o, y, x, c.kernel as int, c.width as int, c.channels as int),
        c.biases[o],
    )
}

/// One output channel of the forward correlation, flattened row-major.
pub open spec fn conv_chan(c: ConvV, input: Seq<Seq<i64>>, o: int) -> Seq<i64> {
    Seq::new(
        c.out_h() * c.out_w(),
        |p: int| conv_cell(c, input, o, p / (c.out_w() as int), p % (c.out_w() as int)),
    )
}

/// The full forward correlation: one flattened map per output channel.
pub open spec fn conv_out(c: ConvV, input: Seq<Seq<i64>>) -> Seq<Seq<i64>> {
    Seq::new(c.out_channels, |o: int| conv_chan(c, input, o))
}

/// The input has one full `height*width` map per input channel.
pub open spec fn conv_input_ok(c: ConvV, chans: Seq<Seq<i64>>) -> bool {
    &&& chans.len() == c.channels
    &&& forall|ic: int|
        0 <= ic < chans.len() ==> (#[trigger] chans[ic]).len() == c.height * c.width
}

/// Output channel `o`'s slice of a flat output gradient of chunk size `sz`.
pub open spec fn og_chunk(og: Seq<i64>, sz: int, o: int) -> Seq<i64> {
    og.subrange(o * sz, (o + 1) * sz)
}

/// The kernel gradient for one (input channel, output channel) pair: the
/// cached input cross-correlated with that output channel's gradient map,
/// which acts as an `oh` by `ow` kernel.
pub open spec fn kg_block(chan: Seq<i64>, ogc: Seq<i64>, oh: int, ow: int, k: int, w: int) -> Seq<
    i64,
> {
    Seq::new((k * k) as nat, |t: int| dot_fx(patch(chan, t / k, t % k, oh, ow, w), ogc))
}

/// All kernel blocks after one gradient-descent step.
pub open spec fn conv_kern_step(c: ConvV, og: Seq<i64>, lr: i64) -> Seq<Seq<Seq<i64>>> {
    let sz = (c.out_h() * c.out_w()) as int;
    Seq::new(
        c.channels,
        |ic: int|
            Seq::new(
                c.out_channels,
                |o: int|
                    step_seq(
                        c.kernels[ic][o],
                        kg_block(
                            c.input[ic],
                            og_chunk(og, sz, o),
                            c.out_h() as int,
                            c.out_w() as int,
                            c.kernel as int,
                            c.width as int,
                        ),
                        lr,
                    ),
            ),
    )
}

/// All biases after one gradient-descent step: each output channel's bias
/// moves by the sum of its gradient chunk, scaled by the learning rate.
pub open spec fn conv_bias_step(c: ConvV, og: Seq<i64>, lr: i64) -> Seq<i64> {
    let sz = (c.out_h() * c.out_w()) as int;
    Seq::new(
        c.out_channels,
        |o: int| fx_sub(c.biases[o], fx_mul(sum_fx(og_chunk(og, sz, o)), lr)),
    )
}

/// Full-correlation accumulation over the first `nv` columns of gradient row
/// `u`: every window position `(u, v)` whose kernel overlaps input position
/// `(y, x)` contributes; positions without overlap contribute nothing.
pub open spec fn fc_row(
    acc: i64,
    ogc: Seq<i64>,
    block: Seq<i64>,
    y: int,
    x: int,
    u: int,
    k: int,
    ow: int,
    nv: int,
) -> i64
    decreases nv,
{
    if nv <= 0 {
        acc
    } else {
        let prev = fc_row(acc, ogc, block, y, x, u, k, ow, nv - 1);
        let v = nv - 1;
        if 0 <= y - u < k && 0 <= x - v < k {
            fx_add(prev, fx_mul(ogc[u * ow + v], block[(y - u) * k + (x - v)]))
        } else {
            prev
        }
    }
}

/// Full-correlation accumulation over the first `nu` gradient rows.
pub open spec fn fc_row_block(
    acc: i64,
    ogc: Seq<i64>,
    block: Seq<i64>,
    y: int,
    x: int,
    k: int,
    ow: int,
    nu: int,
) -> i64
    decreases nu,
{
    if nu <= 0 {
        acc
    } else {
        fc_row(
            fc_row_block(acc, ogc, block, y, x, k, ow, nu - 1),
            ogc,
            block,
            y,
            x,
            nu - 1,
            k,
            ow,
            ow,
        )
    }
}

/// The output gradient split into one chunk per output channel.
pub open spec fn chunk_seq(og: Seq<i64>, sz: int, n: nat) -> Seq<Seq<i64>> {
    Seq::new(n, |o: int| og_chunk(og, sz, o))
}

/// Full-correlation accumulation over the first `no` output channels.
pub open spec fn fc_chans(
    acc: i64,
    chunks: Seq<Seq<i64>>,
    blocks: Seq<Seq<i64>>,
    y: int,
    x: int,
    k: int,
    oh: int,
    ow: int,
    no: int,
) -> i64
    decreases no,
{
    if no <= 0 {
        acc
    } else {
        fc_row_block(
            fc_chans(acc, chunks, blocks, y, x, k, oh, ow, no - 1),
            chunks[no - 1],
            blocks[no - 1],
            y,
            x,
            k,
            ow,
            oh,
        )
    }
}

/// One scalar of the input gradient: the full correlation of the output
/// gradient with input channel `ic`'s kernel blocks at input position
/// `(y, x)`, taken over the layer's (already stepped) kernels.
pub open spec fn fc_cell(c: ConvV, og: Seq<i64>, ic: int, y: int, x: int) -> i64 {
    fc_chans(
        0i64,
        chunk_seq(og, (c.out_h() * c.out_w()) as int, c.out_channels),
        c.kernels[ic],
        y,
        x,
        c.kernel as int,
        c.out_h() as int,
        c.out_w() as int,
        c.out_channels as int,
    )
}

/// The input gradient as one flattened map per input channel.
pub open spec fn conv_grad_chans(c: ConvV, og: Seq<i64>) -> Seq<Seq<i64>> {
    Seq::new(
        c.channels,
        |ic: int|
            Seq::new(
                c.height * c.width,
                |p: int| fc_cell(c, og, ic, p / (c.width as int), p % (c.width as int)),
            ),
    )
}

/// The input gradient flattened channel-major, as handed to the preceding
/// stage.
pub open spec fn conv_input_grad(c: ConvV, og: Seq<i64>) -> Seq<i64> {
    flat_chans(conv_grad_chans(c, og))
}

/// The explicit parameters handed to construction are acceptable: valid
/// geometry and a kernel bank and bias list of exactly the right shape.
pub open spec fn conv_with_params_ok(
    c: int,
    h: int,
    w: int,
    oc: int,
    k: int,
    kernels: Seq<Vec<Vec<i64>>>,
    biases: Seq<i64>,
) -> bool {
    &&& conv_geometry_ok(c, h, w, oc, k)
    &&& kernels.len() == c
    &&& biases.len() == oc
    &&& forall|t: int| 0 <= t < kernels.len() ==> (#[trigger] kernels[t])@.len() == oc
    &&& forall|t: int, o: int|
        0 <= t < kernels.len() && 0 <= o < oc ==> (#[trigger] kernels[t]@[o])@.len() == k * k
}

/// Construction parameters are geometrically valid and every derived size
/// fits in a `usize`.
pub open spec fn conv_geometry_ok(c: int, h: int, w: int, oc: int, k: int) -> bool {
    &&& 1 <= k <= h
    &&& k <= w
    &&& h * w <= usize::MAX
    &&& c * (h * w) <= usize::MAX
    &&& (h - k + 1) * (w - k + 1) <= usize::MAX
    &&& oc * ((h - k + 1) * (w - k + 1)) <= usize::MAX
    &&& k * k <= usize::MAX
}

/// Multi-channel 2D correlation layer with trainable kernel banks and one
/// bias per output channel. The most recent forward input is cached for the
/// paired backward call.
#[derive(Debug)]
pub struct ConvolutionLayer {
    pub input: Vec<Vec<i64>>,
    /// `(channels, height, width)` of the input.
    pub input_shape: (usize, usize, usize),
    /// `(out_channels, height-kernel+1, width-kernel+1)`.
    pub output_shape: (usize, usize, usize),
    /// `(out_channels, kernel side length)`.
    pub kernel_shape: (usize, usize),
    pub kernels: Vec<Vec<Vec<i64>>>,
    pub biases: Vec<i64>,
}

impl View for ConvolutionLayer {
    type V = ConvV;

    open spec fn view(&self) -> ConvV {
        ConvV {
            input: self.input.deep_view(),
            channels: self.input_shape.0 as nat,
            height: self.input_shape.1 as nat,
            width: self.input_shape.2 as nat,
            out_channels: self.kernel_shape.0 as nat,
            kernel: self.kernel_shape.1 as nat,
            kernels: self.kernels.deep_view(),
            biases: self.biases.deep_view(),
        }
    }
}

impl ConvolutionLayer {
    /// The stored output shape agrees with the view's geometry.
    pub open spec fn shape_fields_ok(self) -> bool {
        &&& self.output_shape.0 == self@.out_channels
        &&& self.output_shape.1 == self@.out_h()
        &&& self.output_shape.2 == self@.out_w()
    }
}

impl Clone for ConvolutionLayer {
    /// A clone models the same layer.
    fn clone(&self) -> (r: Self)
        ensures
            r@ == self@,
            r.shape_fields_ok() == self.shape_fields_ok(),
    {
        let r = ConvolutionLayer {
            input: clone_mat(&self.input),
            input_shape: (self.input_shape.0, self.input_shape.1, self.input_shape.2),
            output_shape: (self.output_shape.0, self.output_shape.1, self.output_shape.2),
            kernel_shape: (self.kernel_shape.0, self.kernel_shape.1),
            kernels: clone_cube(&self.kernels),
            biases: clone_row(&self.biases),
        };
        proof {
            assert(r@ == self@);
        }
        r
    }
}

/// Extract one sliding-window patch of shape `ph` by `pw` at `(y, x)` from a
/// flattened `w`-wide map.
fn extract_patch(chan: &Vec<i64>, y: usize, x: usize, ph: usize, pw: usize, w: usize) -> (r: Vec<
    i64,
>)
    requires
        1 <= pw,
        x + pw <= w,
        (y + ph) * w <= chan@.len(),
        ph * pw <= usize::MAX,
    ensures
        r@ == patch(chan@, y as int, x as int, ph as int, pw as int, w as int),
{
    let mut out: Vec<i64> = Vec::new();
    let mut ry: usize = 0;
    let n = chan.len();
    while ry < ph
        invariant
            n == chan@.len(),
            1 <= pw,
            x + pw <= w,
            (y + ph) * w <= chan@.len(),
            ph * pw <= usize::MAX,
            ry <= ph,
            out@.len() == ry * pw,
            forall|t: int|
                0 <= t < ry * pw ==> out@[t] == chan@[(y + t / (pw as int)) * w + x + t % (
                pw as int)],
        decreases ph - ry,
    {
        let mut rx: usize = 0;
        proof {
            vstd::arithmetic::mul::lemma_mul_inequality(
                (ry + 1) as int,
                ph as int,
                pw as int,
            );
            vstd::arithmetic::mul::lemma_mul_is_distributive_add_other_way(
                pw as int,
                ry as int,
                1,
            );
        }
        while rx < pw
            invariant
                n == chan@.len(),
                1 <= pw,
                x + pw <= w,
                (y + ph) * w <= chan@.len(),
                ph * pw <= usize::MAX,
                ry < ph,
                ry * pw + pw <= ph * pw,
                rx <= pw,
                out@.len() == ry * pw + rx,
                forall|t: int|
                    0 <= t < ry * pw + rx ==> out@[t] == chan@[(y + t / (pw as int)) * w + x + t % (
                    pw as int)],
            decreases pw - rx,
        {
            proof {
                assert((y + ry) <= usize::MAX && ((y + ry) as int) * (w as int) + x + rx
                    < chan@.len()) by (nonlinear_arith)
                    requires
                        ry < ph,
                        rx < pw,
                        1 <= pw,
                        x + pw <= w,
                        ((y + ph) as int) * (w as int) <= chan@.len(),
                        chan@.len() <= usize::MAX,
                        0 <= y,
                        0 <= x,
                        0 <= ry,
                        0 <= rx,
                        0 <= w,
                ;
                lemma_fundamental_div_mod_converse(
                    (ry * pw + rx) as int,
                    pw as int,
                    ry as int,
                    rx as int,
                );
            }
            let idx = (y + ry) * w + x + rx;
            out.push(chan[idx]);
            rx = rx + 1;
        }
        ry = ry + 1;
    }
    proof {
        assert(out@ =~= patch(chan@, y as int, x as int, ph as int, pw as int, w as int));
    }
    out
}

/// Copy the half-open range `[from, to)` of a vector.
fn subvec(v: &Vec<i64>, from: usize, to: usize) -> (r: Vec<i64>)
    requires
        from <= to <= v@.len(),
    ensures
        r@ == v@.subrange(from as int, to as int),
{
    let mut out: Vec<i64> = Vec::new();
    let mut i: usize = from;
    while i < to
        invariant
            from <= i <= to <= v@.len(),
            out@ == v@.subrange(from as int, i as int),
        decreases to - i,
    {
        out.push(v[i]);
        proof {
            assert(out@ =~= v@.subrange(from as int, i + 1));
        }
        i = i + 1;
    }
    out
}

/// Whether the input holds exactly `c` maps of `hw` scalars each.
fn channels_ok(input: &Vec<Vec<i64>>, c: usize, hw: usize) -> (r: bool)
    ensures
        r == (input@.len() == c && forall|ic: int|
            0 <= ic < input@.len() ==> (#[trigger] input@[ic])@.len() == hw),
{
    if input.len() != c {
        return false;
    }
    let mut ic: usize = 0;
    while ic < input.len()
        invariant
            input@.len() == c,
            ic <= c,
            forall|t: int| 0 <= t < ic ==> (#[trigger] input@[t])@.len() == hw,
        decreases input@.len() - ic,
    {
        if input[ic].len() != hw {
            return false;
        }
        ic = ic + 1;
    }
    true
}

impl ConvolutionLayer {
    /// A fresh layer for `(channels, height, width)` inputs with
    /// `(out_channels, kernel)` banks, every kernel cell and bias drawn
    /// uniformly from `[-1, 1]`. Geometrically invalid parameters (a kernel
    /// of side zero or larger than the input, or sizes whose products do not
    /// fit a `usize`) are a [`NNError::ShapeError`].
    pub fn new(input_shape: (usize, usize, usize), kernel_shape: (usize, usize)) -> (r: Result<
        Self,
        NNError,
    >)
        ensures
            match r {
                Ok(l) => {
                    &&& l@.wf()
                    &&& l@.input.len() == 0
                    &&& l@.channels == input_shape.0
                    &&& l@.height == input_shape.1
                    &&& l@.width == input_shape.2
                    &&& l@.out_channels == kernel_shape.0
                    &&& l@.kernel == kernel_shape.1
                    &&& l.shape_fields_ok()
                },
                Err(e) => {
                    &&& e == NNError::ShapeError
                    &&& !conv_geometry_ok(
                        input_shape.0 as int,
                        input_shape.1 as int,
                        input_shape.2 as int,
                        kernel_shape.0 as int,
                        kernel_shape.1 as int,
                    )
                },
            },
    {
        let (c, h, w) = input_shape;
        let (oc, k) = kernel_shape;
        if k < 1 || k > h || k > w {
            return Err(NNError::ShapeError);
        }
        let hw = match h.checked_mul(w) {
            Some(v) => v,
            None => {
                return Err(NNError::ShapeError);
            },
        };
        if c.checked_mul(hw).is_none() {
            return Err(NNError::ShapeError);
        }
        let oh = h - k + 1;
        let ow = w - k + 1;
        let ohw = match oh.checked_mul(ow) {
            Some(v) => v,
            None => {
                return Err(NNError::ShapeError);
            },
        };
        if oc.checked_mul(ohw).is_none() {
            return Err(NNError::ShapeError);
        }
        let kk = match k.checked_mul(k) {
            Some(v) => v,
            None => {
                return Err(NNError::ShapeError);
            },
        };
        let kernels = random_cube(c, oc, kk);
        let biases = random_row(oc);
        let r = ConvolutionLayer {
            input: Vec::new(),
            input_shape: (c, h, w),
            output_shape: (oc, oh, ow),
            kernel_shape: (oc, k),
            kernels,
            biases,
        };
        proof {
            cube_deep(r.kernels);
            row_deep(r.biases);
            assert(r@.input =~= Seq::<Seq<i64>>::empty());
        }
        Ok(r)
    }

    /// Like [`ConvolutionLayer::new`], drawing the parameters from a
    /// generator seeded with `seed`, for reproducible runs.
    pub fn new_seeded(
        input_shape: (usize, usize, usize),
        kernel_shape: (usize, usize),
        seed: u64,
    ) -> (r: Result<Self, NNError>)
        ensures
            match r {
                Ok(l) => {
                    &&& l@.wf()
                    &&& l@.input.len() == 0
                    &&& l@.channels == input_shape.0
                    &&& l@.height == input_shape.1
                    &&& l@.width == input_shape.2
                    &&& l@.out_channels == kernel_shape.0
                    &&& l@.kernel == kernel_shape.1
                    &&& l.shape_fields_ok()
                },
                Err(e) => {
                    &&& e == NNError::ShapeError
                    &&& !conv_geometry_ok(
                        input_shape.0 as int,
                        input_shape.1 as int,
                        input_shape.2 as int,
                        kernel_shape.0 as int,
                        kernel_shape.1 as int,
                    )
                },
            },
    {
        let (c, h, w) = input_shape;
        let (oc, k) = kernel_shape;
        if k < 1 || k > h || k > w {
            return Err(NNError::ShapeError);
        }
        let hw = match h.checked_mul(w) {
            Some(v) => v,
            None => {
                return Err(NNError::ShapeError);
            },
        };
        if c.checked_mul(hw).is_none() {
            return Err(NNError::ShapeError);
        }
        let oh = h - k + 1;
        let ow = w - k + 1;
        let ohw = match oh.checked_mul(ow) {
            Some(v) => v,
            None => {
                return Err(NNError::ShapeError);
            },
        };
        if oc.checked_mul(ohw).is_none() {
            return Err(NNError::ShapeError);
        }
        let kk = match k.checked_mul(k) {
            Some(v) => v,
            None => {
                return Err(NNError::ShapeError);
            },
        };
        let mut rng = crate::rng::seeded_rng(seed);
        let kernels = random_cube_seeded(&mut rng, c, oc, kk);
        let biases = random_row_seeded(&mut rng, oc);
        let r = ConvolutionLayer {
            input: Vec::new(),
            input_shape: (c, h, w),
            output_shape: (oc, oh, ow),
            kernel_shape: (oc, k),
            kernels,
            biases,
        };
        proof {
            cube_deep(r.kernels);
            row_deep(r.biases);
            assert(r@.input =~= Seq::<Seq<i64>>::empty());
        }
        Ok(r)
    }
}

/// A bank of `c * oc` kernel blocks of `kk` scalars each, drawn by the
/// thread-local generator.
fn random_cube(c: usize, oc: usize, kk: usize) -> (r: Vec<Vec<Vec<i64>>>)
    ensures
        r@.len() == c,
        forall|ic: int| 0 <= ic < c ==> (#[trigger] r@[ic])@.len() == oc,
        forall|ic: int, o: int|
            0 <= ic < c && 0 <= o < oc ==> (#[trigger] r@[ic]@[o])@.len() == kk,
{
    let mut out: Vec<Vec<Vec<i64>>> = Vec::new();
    let mut ic: usize = 0;
    while ic < c
        invariant
            ic <= c,
            out@.len() == ic,
            forall|t: int| 0 <= t < ic ==> (#[trigger] out@[t])@.len() == oc,
            forall|t: int, o: int|
                0 <= t < ic && 0 <= o < oc ==> (#[trigger] out@[t]@[o])@.len() == kk,
        decreases c - ic,
    {
        let mut bank: Vec<Vec<i64>> = Vec::new();
        let mut o: usize = 0;
        while o < oc
            invariant
                o <= oc,
                bank@.len() == o,
                forall|t: int| 0 <= t < o ==> (#[trigger] bank@[t])@.len() == kk,
            decreases oc - o,
        {
            bank.push(random_row(kk));
            o = o + 1;
        }
        out.push(bank);
        ic = ic + 1;
    }
    out
}

/// A bank of `c * oc` kernel blocks of `kk` scalars each, drawn by a seeded
/// generator.
fn random_cube_seeded(rng: &mut rand::rngs::StdRng, c: usize, oc: usize, kk: usize) -> (r: Vec<
    Vec<Vec<i64>>,
>)
    ensures
        r@.len() == c,
        forall|ic: int| 0 <= ic < c ==> (#[trigger] r@[ic])@.len() == oc,
        forall|ic: int, o: int|
            0 <= ic < c && 0 <= o < oc ==> (#[trigger] r@[ic]@[o])@.len() == kk,
{
    let mut out: Vec<Vec<Vec<i64>>> = Vec::new();
    let mut ic: usize = 0;
    while ic < c
        invariant
            ic <= c,
            out@.len() == ic,
            forall|t: int| 0 <= t < ic ==> (#[trigger] out@[t])@.len() == oc,
            forall|t: int, o: int|
                0 <= t < ic && 0 <= o < oc ==> (#[trigger] out@[t]@[o])@.len() == kk,
        decreases c - ic,
    {
        let mut bank: Vec<Vec<i64>> = Vec::new();
        let mut o: usize = 0;
        while o < oc
            invariant
                o <= oc,
                bank@.len() == o,
                forall|t: int| 0 <= t < o ==> (#[trigger] bank@[t])@.len() == kk,
            decreases oc - o,
        {
            bank.push(crate::rng::random_row_seeded(rng, kk));
            o = o + 1;
        }
        out.push(bank);
        ic = ic + 1;
    }
    out
}

impl ConvolutionLayer {
    /// A layer with explicitly given parameters: one `kernel*kernel` block
    /// per (input channel, output channel) pair and one bias per output
    /// channel. Invalid geometry or a bank of the wrong shape is a
    /// [`NNError::ShapeError`].
    pub fn with_params(
        input_shape: (usize, usize, usize),
        kernel_shape: (usize, usize),
        kernels: Vec<Vec<Vec<i64>>>,
        biases: Vec<i64>,
    ) -> (r: Result<Self, NNError>)
        ensures
            match r {
                Ok(l) => {
                    &&& l@.wf()
                    &&& l@.input.len() == 0
                    &&& l@.channels == input_shape.0
                    &&& l@.height == input_shape.1
                    &&& l@.width == input_shape.2
                    &&& l@.out_channels == kernel_shape.0
                    &&& l@.kernel == kernel_shape.1
                    &&& l@.kernels == kernels.deep_view()
                    &&& l@.biases == biases.deep_view()
                    &&& l.shape_fields_ok()
                    &&& conv_with_params_ok(
                        input_shape.0 as int,
                        input_shape.1 as int,
                        input_shape.2 as int,
                        kernel_shape.0 as int,
                        kernel_shape.1 as int,
                        kernels@,
                        biases@,
                    )
                },
                Err(e) => {
                    &&& e == NNError::ShapeError
                    &&& !conv_with_params_ok(
                        input_shape.0 as int,
                        input_shape.1 as int,
                        input_shape.2 as int,
                        kernel_shape.0 as int,
                        kernel_shape.1 as int,
                        kernels@,
                        biases@,
                    )
                },
            },
    {
        let (c, h, w) = input_shape;
        let (oc, k) = kernel_shape;
        if k < 1 || k > h || k > w {
            return Err(NNError::ShapeError);
        }
        let hw = match h.checked_mul(w) {
            Some(v) => v,
            None => {
                return Err(NNError::ShapeError);
            },
        };
        if c.checked_mul(hw).is_none() {
            return Err(NNError::ShapeError);
        }
        let oh = h - k + 1;
        let ow = w - k + 1;
        let ohw = match oh.checked_mul(ow) {
            Some(v) => v,
            None => {
                return Err(NNError::ShapeError);
            },
        };
        if oc.checked_mul(ohw).is_none() {
            return Err(NNError::ShapeError);
        }
        let kk = match k.checked_mul(k) {
            Some(v) => v,
            None => {
                return Err(NNError::ShapeError);
            },
        };
        if kernels.len() != c || biases.len() != oc {
            return Err(NNError::ShapeError);
        }
        let mut ic: usize = 0;
        while ic < kernels.len()
            invariant
                c == input_shape.0,
                h == input_shape.1,
                w == input_shape.2,
                oc == kernel_shape.0,
                k == kernel_shape.1,
                kk == k * k,
                biases@.len() == oc,
                kernels@.len() == c,
                ic <= c,
                forall|t: int| 0 <= t < ic ==> (#[trigger] kernels@[t])@.len() == oc,
                forall|t: int, o: int|
                    0 <= t < ic && 0 <= o < oc ==> (#[trigger] kernels@[t]@[o])@.len() == kk,
            decreases kernels@.len() - ic,
        {
            if kernels[ic].len() != oc {
                proof {
                    if conv_with_params_ok(
                        c as int,
                        h as int,
                        w as int,
                        oc as int,
                        k as int,
                        kernels@,
                        biases@,
                    ) {
                        assert(kernels@[ic as int]@.len() == oc);
                        assert(false);
                    }
                }
                return Err(NNError::ShapeError);
            }
            let mut o: usize = 0;
            while o < oc
                invariant
                    c == input_shape.0,
                    h == input_shape.1,
                    w == input_shape.2,
                    oc == kernel_shape.0,
                    k == kernel_shape.1,
                    kk == k * k,
                    biases@.len() == oc,
                    kernels@.len() == c,
                    ic < c,
                    kernels@[ic as int]@.len() == oc,
                    o <= oc,
                    forall|t: int| 0 <= t < ic ==> (#[trigger] kernels@[t])@.len() == oc,
                    forall|t: int, u: int|
                        0 <= t < ic && 0 <= u < oc ==> (#[trigger] kernels@[t]@[u])@.len() == kk,
                    forall|u: int| 0 <= u < o ==> (#[trigger] kernels@[ic as int]@[u])@.len() == kk,
                decreases oc - o,
            {
                if kernels[ic][o].len() != kk {
                    proof {
                        if conv_with_params_ok(
                            c as int,
                            h as int,
                            w as int,
                            oc as int,
                            k as int,
                            kernels@,
                            biases@,
                        ) {
                            assert(kernels@[ic as int]@[o as int]@.len() == k * k);
                            assert(false);
                        }
                    }
                    return Err(NNError::ShapeError);
                }
                o = o + 1;
            }
            ic = ic + 1;
        }
        let r = ConvolutionLayer {
            input: Vec::new(),
            input_shape: (c, h, w),
            output_shape: (oc, oh, ow),
            kernel_shape: (oc, k),
            kernels,
            biases,
        };
        proof {
            cube_deep(r.kernels);
            row_deep(r.biases);
            assert(r@.input =~= Seq::<Seq<i64>>::empty());
        }
        Ok(r)
    }

    /// Forward pass: cache the raw input maps and return one flattened
    /// `out_h() * out_w()` map per output channel, each position holding the
    /// patch-kernel correlation accumulated over all input channels plus the
    /// output channel's bias. Input of the wrong shape is a
    /// [`NNError::ShapeError`] and leaves the layer untouched.
    /// Forward pass without caching, for read-only prediction.
    pub fn f_prop_ref(&self, input: &Vec<Vec<i64>>) -> (r: Result<LayerOutput, NNError>)
        requires
            self@.wf(),
        ensures
            if conv_input_ok(self@, input.deep_view()) {
                &&& r is Ok
                &&& r->Ok_0@ == TensorV::Conv(conv_out(self@, input.deep_view()))
            } else {
                r == Err::<LayerOutput, NNError>(NNError::ShapeError)
            },
    {
        let c = self.input_shape.0;
        let h = self.input_shape.1;
        let w = self.input_shape.2;
        let oc = self.kernel_shape.0;
        let k = self.kernel_shape.1;
        let hw = h * w;
        proof {
            mat_deep(*input);
        }
        if !channels_ok(input, c, hw) {
            proof {
                mat_deep(*input);
                if conv_input_ok(self@, input.deep_view()) {
                    assert(input@.len() == c);
                    assert forall|ic: int| 0 <= ic < input@.len() implies (
                    #[trigger] input@[ic])@.len() == hw by {
                        assert(input.deep_view()[ic].len() == self@.height * self@.width);
                        assert(input.deep_view()[ic] == input@[ic]@);
                    }
                    assert(false);
                }
            }
            return Err(NNError::ShapeError);
        }
        proof {
            mat_deep(*input);
            assert forall|ic: int| 0 <= ic < input.deep_view().len() implies (
            #[trigger] input.deep_view()[ic]).len() == self@.height * self@.width by {
                assert(input.deep_view()[ic] == input@[ic]@);
            }
            assert(conv_input_ok(self@, input.deep_view()));
        }
        let oh = h - k + 1;
        let ow = w - k + 1;
        let mut out: Vec<Vec<i64>> = Vec::new();
        let mut o: usize = 0;
        while o < oc
            invariant
                self@.wf(),
                c == self@.channels,
                h == self@.height,
                w == self@.width,
                oc == self@.out_channels,
                k == self@.kernel,
                hw == h * w,
                oh == self@.out_h(),
                ow == self@.out_w(),
                conv_input_ok(self@, input.deep_view()),
                o <= oc,
                out@.len() == o,
                forall|t: int|
                    0 <= t < o ==> (#[trigger] out@[t])@ == conv_chan(self@, input.deep_view(), t),
            decreases oc - o,
        {
            let mut chan: Vec<i64> = Vec::new();
            let mut y: usize = 0;
            while y < oh
                invariant
                    self@.wf(),
                    c == self@.channels,
                    h == self@.height,
                    w == self@.width,
                    oc == self@.out_channels,
                    k == self@.kernel,
                    hw == h * w,
                    oh == self@.out_h(),
                    ow == self@.out_w(),
                    conv_input_ok(self@, input.deep_view()),
                    o < oc,
                    y <= oh,
                    chan@.len() == y * ow,
                    forall|p: int|
                        0 <= p < y * ow ==> chan@[p] == conv_cell(
                            self@,
                            input.deep_view(),
                            o as int,
                            p / (ow as int),
                            p % (ow as int),
                        ),
                decreases oh - y,
            {
                let mut x: usize = 0;
                proof {
                    vstd::arithmetic::mul::lemma_mul_inequality(
                        (y + 1) as int,
                        oh as int,
                        ow as int,
                    );
                    vstd::arithmetic::mul::lemma_mul_is_distributive_add_other_way(
                        ow as int,
                        y as int,
                        1,
                    );
                }
                while x < ow
                    invariant
                        self@.wf(),
                        c == self@.channels,
                        h == self@.height,
                        w == self@.width,
                        oc == self@.out_channels,
                        k == self@.kernel,
                        hw == h * w,
                        oh == self@.out_h(),
                        ow == self@.out_w(),
                        conv_input_ok(self@, input.deep_view()),
                        o < oc,
                        y < oh,
                        y * ow + ow <= oh * ow,
                        x <= ow,
                        chan@.len() == y * ow + x,
                        forall|p: int|
                            0 <= p < y * ow + x ==> chan@[p] == conv_cell(
                                self@,
                                input.deep_view(),
                                o as int,
                                p / (ow as int),
                                p % (ow as int),
                            ),
                    decreases ow - x,
                {
                    let mut acc: i64 = 0;
                    let mut ic: usize = 0;
                    while ic < c
                        invariant
                            self@.wf(),
                            c == self@.channels,
                            h == self@.height,
                            w == self@.width,
                            oc == self@.out_channels,
                            k == self@.kernel,
                            hw == h * w,
                            oh == self@.out_h(),
                            ow == self@.out_w(),
                            conv_input_ok(self@, input.deep_view()),
                            o < oc,
                            y < oh,
                            x < ow,
                            ic <= c,
                            acc == chan_acc(
                                input.deep_view(),
                                self@.kernels,
                                o as int,
                                y as int,
                                x as int,
                                k as int,
                                w as int,
                                ic as int,
                            ),
                        decreases c - ic,
                    {
                        proof {
                            mat_deep(*input);
                            cube_deep(self.kernels);
                            assert(input.deep_view()[ic as int].len() == hw);
                            assert(input@[ic as int]@.len() == hw);
                            assert((y + k) * w <= hw) by (nonlinear_arith)
                                requires
                                    y < oh,
                                    oh == h - k + 1,
                                    k <= h,
                                    k <= w,
                                    hw == h * w,
                                    0 <= y,
                                    0 <= k,
                                    0 <= w,
                                    0 <= h,
                            ;
                        }
                        let p = extract_patch(&input[ic], y, x, k, k, w);
                        proof {
                            assert(self@.kernels[ic as int][o as int]
                                == self.kernels@[ic as int]@[o as int]@);
                            assert(p@.len() == k * k);
                        }
                        acc = add_fx(acc, dot(&p, &self.kernels[ic][o]));
                        ic = ic + 1;
                    }
                    proof {
                        row_deep(self.biases);
                        lemma_fundamental_div_mod_converse(
                            (y * ow + x) as int,
                            ow as int,
                            y as int,
                            x as int,
                        );
                    }
                    chan.push(add_fx(acc, self.biases[o]));
                    x = x + 1;
                }
                y = y + 1;
            }
            proof {
                assert(chan@ =~= conv_chan(self@, input.deep_view(), o as int));
            }
            out.push(chan);
            o = o + 1;
        }
        proof {
            mat_deep(out);
            assert(out.deep_view() =~= conv_out(self@, input.deep_view()));
        }
        Ok(LayerOutput::Conv(out))
    }

    /// Forward pass: cache the raw input maps and return one flattened
    /// `out_h() * out_w()` map per output channel, each position holding the
    /// patch-kernel correlation accumulated over all input channels plus the
    /// output channel's bias. Input of the wrong shape is a
    /// [`NNError::ShapeError`] and leaves the layer untouched.
    pub fn f_prop(&mut self, input: &Vec<Vec<i64>>) -> (r: Result<LayerOutput, NNError>)
        requires
            old(self)@.wf(),
        ensures
            final(self)@.wf(),
            if conv_input_ok(old(self)@, input.deep_view()) {
                &&& r is Ok
                &&& r->Ok_0@ == TensorV::Conv(conv_out(old(self)@, input.deep_view()))
                &&& final(self)@ == (ConvV { input: input.deep_view(), ..old(self)@ })
            } else {
                &&& r == Err::<LayerOutput, NNError>(NNError::ShapeError)
                &&& final(self)@ == old(self)@
            },
    {
        let r = self.f_prop_ref(input);
        if r.is_ok() {
            self.input = clone_mat(input);
        }
        r
    }

    /// Backward pass, in three steps sharing the sliding-window machinery of
    /// the forward pass: the kernel gradients are the cached input
    /// cross-correlated with the per-channel output-gradient maps; kernels
    /// and biases then take one gradient-descent step; finally the input
    /// gradient is the full correlation of the output gradient with the
    /// stepped kernels, flattened channel-major. Calling before any forward
    /// pass is a [`NNError::StateError`]; a gradient of the wrong length is
    /// a [`NNError::ShapeError`]; both leave the layer untouched.
    pub fn b_prop(&mut self, output_gradient: &Vec<i64>, learning_rate: i64) -> (r: Result<
        Vec<i64>,
        NNError,
    >)
        requires
            old(self)@.wf(),
        ensures
            final(self)@.wf(),
            if old(self)@.input.len() == 0 {
                &&& r == Err::<Vec<i64>, NNError>(NNError::StateError)
                &&& final(self)@ == old(self)@
            } else if output_gradient@.len() != old(self)@.out_channels * (old(self)@.out_h()
                * old(self)@.out_w()) {
                &&& r == Err::<Vec<i64>, NNError>(NNError::ShapeError)
                &&& final(self)@ == old(self)@
            } else {
                &&& r is Ok
                &&& final(self)@ == (ConvV {
                    kernels: conv_kern_step(old(self)@, output_gradient@, learning_rate),
                    biases: conv_bias_step(old(self)@, output_gradient@, learning_rate),
                    ..old(self)@
                })
                &&& r->Ok_0@ == conv_input_grad(final(self)@, output_gradient@)
            },
    {
        let c = self.input_shape.0;
        let h = self.input_shape.1;
        let w = self.input_shape.2;
        let oc = self.kernel_shape.0;
        let k = self.kernel_shape.1;
        let hw = h * w;
        let oh = h - k + 1;
        let ow = w - k + 1;
        let sz = oh * ow;
        let total = oc * sz;
        if self.input.len() == 0 {
            return Err(NNError::StateError);
        }
        proof {
            row_deep(*output_gradient);
        }
        if output_gradient.len() != total {
            return Err(NNError::ShapeError);
        }
        let ghost old_view = self@;
        // Split the flat output gradient into one chunk per output channel.
        let mut chunks: Vec<Vec<i64>> = Vec::new();
        let mut o: usize = 0;
        while o < oc
            invariant
                output_gradient@.len() == total,
                total == oc * sz,
                o <= oc,
                chunks@.len() == o,
                forall|t: int|
                    0 <= t < o ==> (#[trigger] chunks@[t])@ == og_chunk(
                        output_gradient@,
                        sz as int,
                        t,
                    ),
            decreases oc - o,
        {
            proof {
                vstd::arithmetic::mul::lemma_mul_inequality(
                    (o + 1) as int,
                    oc as int,
                    sz as int,
                );
                vstd::arithmetic::mul::lemma_mul_is_distributive_add_other_way(
                    sz as int,
                    o as int,
                    1,
                );
            }
            chunks.push(subvec(output_gradient, o * sz, o * sz + sz));
            o = o + 1;
        }
        // Kernel gradients by cross-correlation, and the descent step.
        let mut new_kernels: Vec<Vec<Vec<i64>>> = Vec::new();
        let mut ic: usize = 0;
        while ic < c
            invariant
                self@ == old_view,
                self@.wf(),
                c == self@.channels,
                h == self@.height,
                w == self@.width,
                oc == self@.out_channels,
                k == self@.kernel,
                hw == h * w,
                oh == self@.out_h(),
                ow == self@.out_w(),
                sz == oh * ow,
                total == oc * sz,
                self@.input.len() == c,
                output_gradient@.len() == total,
                chunks@.len() == oc,
                forall|t: int|
                    0 <= t < oc ==> (#[trigger] chunks@[t])@ == og_chunk(
                        output_gradient@,
                        sz as int,
                        t,
                    ),
                ic <= c,
                new_kernels@.len() == ic,
                forall|t: int|
                    0 <= t < ic ==> (#[trigger] new_kernels@[t]).deep_view() == conv_kern_step(
                        self@,
                        output_gradient@,
                        learning_rate,
                    )[t],
            decreases c - ic,
        {
            let mut bank: Vec<Vec<i64>> = Vec::new();
            let mut o: usize = 0;
            while o < oc
                invariant
                    self@ == old_view,
                    self@.wf(),
                    c == self@.channels,
                    h == self@.height,
                    w == self@.width,
                    oc == self@.out_channels,
                    k == self@.kernel,
                    hw == h * w,
                    oh == self@.out_h(),
                    ow == self@.out_w(),
                    sz == oh * ow,
                    total == oc * sz,
                    self@.input.len() == c,
                    output_gradient@.len() == total,
                    chunks@.len() == oc,
                    forall|t: int|
                        0 <= t < oc ==> (#[trigger] chunks@[t])@ == og_chunk(
                            output_gradient@,
                            sz as int,
                            t,
                        ),
                    ic < c,
                    o <= oc,
                    bank@.len() == o,
                    forall|t: int|
                        0 <= t < o ==> (#[trigger] bank@[t])@ == step_seq(
                            self@.kernels[ic as int][t],
                            kg_block(
                                self@.input[ic as int],
                                og_chunk(output_gradient@, (oh * ow) as int, t),
                                oh as int,
                                ow as int,
                                k as int,
                                w as int,
                            ),
                            learning_rate,
                        ),
                decreases oc - o,
            {
                // One kernel gradient block: slide an output-sized window
                // over the cached input map.
                let mut kg: Vec<i64> = Vec::new();
                let mut ry: usize = 0;
                while ry < k
                    invariant
                        self@ == old_view,
                        self@.wf(),
                        c == self@.channels,
                        h == self@.height,
                        w == self@.width,
                        oc == self@.out_channels,
                        k == self@.kernel,
                        hw == h * w,
                        oh == self@.out_h(),
                        ow == self@.out_w(),
                        sz == oh * ow,
                        self@.input.len() == c,
                        output_gradient@.len() == total,
                        total == oc * sz,
                        chunks@.len() == oc,
                        forall|t: int|
                            0 <= t < oc ==> (#[trigger] chunks@[t])@ == og_chunk(
                                output_gradient@,
                                sz as int,
                                t,
                            ),
                        ic < c,
                        o < oc,
                        ry <= k,
                        kg@.len() == ry * k,
                        forall|t: int|
                            0 <= t < ry * k ==> kg@[t] == dot_fx(
                                patch(
                                    self@.input[ic as int],
                                    t / (k as int),
                                    t % (k as int),
                                    oh as int,
                                    ow as int,
                                    w as int,
                                ),
                                og_chunk(output_gradient@, sz as int, o as int),
                            ),
                    decreases k - ry,
                {
                    let mut rx: usize = 0;
                    proof {
                        vstd::arithmetic::mul::lemma_mul_inequality(
                            (ry + 1) as int,
                            k as int,
                            k as int,
                        );
                        vstd::arithmetic::mul::lemma_mul_is_distributive_add_other_way(
                            k as int,
                            ry as int,
                            1,
                        );
                    }
                    while rx < k
                        invariant
                            self@ == old_view,
                            self@.wf(),
                            c == self@.channels,
                            h == self@.height,
                            w == self@.width,
                            oc == self@.out_channels,
                            k == self@.kernel,
                            hw == h * w,
                            oh == self@.out_h(),
                            ow == self@.out_w(),
                            sz == oh * ow,
                            self@.input.len() == c,
                            output_gradient@.len() == total,
                            total == oc * sz,
                            chunks@.len() == oc,
                            forall|t: int|
                                0 <= t < oc ==> (#[trigger] chunks@[t])@ == og_chunk(
                                    output_gradient@,
                                    sz as int,
                                    t,
                                ),
                            ic < c,
                            o < oc,
                            ry < k,
                            ry * k + k <= k * k,
                            rx <= k,
                            kg@.len() == ry * k + rx,
                            forall|t: int|
                                0 <= t < ry * k + rx ==> kg@[t] == dot_fx(
                                    patch(
                                        self@.input[ic as int],
                                        t / (k as int),
                                        t % (k as int),
                                        oh as int,
                                        ow as int,
                                        w as int,
                                    ),
                                    og_chunk(output_gradient@, sz as int, o as int),
                                ),
                        decreases k - rx,
                    {
                        proof {
                            mat_deep(self.input);
                            assert(self@.input[ic as int] == self.input@[ic as int]@);
                            assert(self.input@[ic as int]@.len() == hw);
                            assert((ry + oh) * w <= hw) by (nonlinear_arith)
                                requires
                                    ry < k,
                                    oh == h - k + 1,
                                    1 <= k <= h,
                                    k <= w,
                                    hw == h * w,
                                    0 <= ry,
                                    0 <= w,
                                    0 <= h,
                            ;
                        }
                        let p = extract_patch(&self.input[ic], ry, rx, oh, ow, w);
                        proof {
                            lemma_fundamental_div_mod_converse(
                                (ry * k + rx) as int,
                                k as int,
                                ry as int,
                                rx as int,
                            );
                            assert((o as int + 1) * (sz as int) == (o as int) * (sz as int)
                                + sz) by (nonlinear_arith);
                            vstd::arithmetic::mul::lemma_mul_nonnegative(o as int, sz as int);
                            vstd::arithmetic::mul::lemma_mul_inequality(
                                o as int + 1,
                                oc as int,
                                sz as int,
                            );
                            assert(chunks@[o as int]@.len() == sz);
                        }
                        kg.push(dot(&p, &chunks[o]));
                        rx = rx + 1;
                    }
                    ry = ry + 1;
                }
                proof {
                    cube_deep(self.kernels);
                    assert(self@.kernels[ic as int][o as int]
                        == self.kernels@[ic as int]@[o as int]@);
                    assert(kg@ =~= kg_block(
                        self@.input[ic as int],
                        og_chunk(output_gradient@, sz as int, o as int),
                        oh as int,
                        ow as int,
                        k as int,
                        w as int,
                    ));
                }
                bank.push(step_vec(&self.kernels[ic][o], &kg, learning_rate));
                o = o + 1;
            }
            proof {
                mat_deep(bank);
                assert(bank.deep_view() =~= conv_kern_step(
                    self@,
                    output_gradient@,
                    learning_rate,
                )[ic as int]);
            }
            new_kernels.push(bank);
            ic = ic + 1;
        }
        // Bias step: each output channel's bias moves by the sum of its
        // gradient chunk.
        let mut new_biases: Vec<i64> = Vec::new();
        let mut o: usize = 0;
        while o < oc
            invariant
                self@ == old_view,
                self@.wf(),
                oc == self@.out_channels,
                oh == self@.out_h(),
                ow == self@.out_w(),
                sz == oh * ow,
                output_gradient@.len() == total,
                total == oc * sz,
                chunks@.len() == oc,
                forall|t: int|
                    0 <= t < oc ==> (#[trigger] chunks@[t])@ == og_chunk(
                        output_gradient@,
                        sz as int,
                        t,
                    ),
                o <= oc,
                new_biases@.len() == o,
                forall|t: int|
                    0 <= t < o ==> new_biases@[t] == fx_sub(
                        self@.biases[t],
                        fx_mul(
                            sum_fx(og_chunk(output_gradient@, sz as int, t)),
                            learning_rate,
                        ),
                    ),
            decreases oc - o,
        {
            proof {
                row_deep(self.biases);
            }
            new_biases.push(sub_fx(self.biases[o], mul_fx(sum_vec(&chunks[o]), learning_rate)));
            o = o + 1;
        }
        proof {
            cube_deep(new_kernels);
            assert(new_kernels.deep_view() =~= conv_kern_step(
                self@,
                output_gradient@,
                learning_rate,
            ));
            row_deep(new_biases);
            assert(new_biases@ =~= conv_bias_step(self@, output_gradient@, learning_rate));
        }
        self.kernels = new_kernels;
        self.biases = new_biases;
        proof {
            assert forall|i2: int, o2: int|
                0 <= i2 < self@.kernels.len() && 0 <= o2 < self@.out_channels implies (
            #[trigger] self@.kernels[i2][o2]).len() == self@.kernel * self@.kernel by {
                assert(old_view.kernels[i2][o2].len() == old_view.kernel * old_view.kernel);
            }
            assert(self@.wf());
        }
        // Input gradient: the full correlation of the output gradient with
        // the stepped kernels.
        let mut grad_chans: Vec<Vec<i64>> = Vec::new();
        let mut ic: usize = 0;
        while ic < c
            invariant
                self@.wf(),
                c == self@.channels,
                h == self@.height,
                w == self@.width,
                oc == self@.out_channels,
                k == self@.kernel,
                hw == h * w,
                oh == self@.out_h(),
                ow == self@.out_w(),
                sz == oh * ow,
                output_gradient@.len() == total,
                total == oc * sz,
                chunks@.len() == oc,
                forall|t: int|
                    0 <= t < oc ==> (#[trigger] chunks@[t])@ == og_chunk(
                        output_gradient@,
                        sz as int,
                        t,
                    ),
                ic <= c,
                grad_chans@.len() == ic,
                forall|t: int|
                    0 <= t < ic ==> (#[trigger] grad_chans@[t])@ == Seq::new(
                        (h * w) as nat,
                        |p: int|
                            fc_cell(self@, output_gradient@, t, p / (w as int), p % (w as int)),
                    ),
            decreases c - ic,
        {
            let mut gchan: Vec<i64> = Vec::new();
            let mut y: usize = 0;
            while y < h
                invariant
                    self@.wf(),
                    c == self@.channels,
                    h == self@.height,
                    w == self@.width,
                    oc == self@.out_channels,
                    k == self@.kernel,
                    hw == h * w,
                    oh == self@.out_h(),
                    ow == self@.out_w(),
                    sz == oh * ow,
                    output_gradient@.len() == total,
                    total == oc * sz,
                    chunks@.len() == oc,
                    forall|t: int|
                        0 <= t < oc ==> (#[trigger] chunks@[t])@ == og_chunk(
                            output_gradient@,
                            sz as int,
                            t,
                        ),
                    ic < c,
                    y <= h,
                    gchan@.len() == y * w,
                    forall|p: int|
                        0 <= p < y * w ==> gchan@[p] == fc_cell(
                            self@,
                            output_gradient@,
                            ic as int,
                            p / (w as int),
                            p % (w as int),
                        ),
                decreases h - y,
            {
                let mut x: usize = 0;
                proof {
                    vstd::arithmetic::mul::lemma_mul_inequality(
                        (y + 1) as int,
                        h as int,
                        w as int,
                    );
                    vstd::arithmetic::mul::lemma_mul_is_distributive_add_other_way(
                        w as int,
                        y as int,
                        1,
                    );
                }
                while x < w
                    invariant
                        self@.wf(),
                        c == self@.channels,
                        h == self@.height,
                        w == self@.width,
                        oc == self@.out_channels,
                        k == self@.kernel,
                        hw == h * w,
                        oh == self@.out_h(),
                        ow == self@.out_w(),
                        sz == oh * ow,
                        output_gradient@.len() == total,
                        total == oc * sz,
                        chunks@.len() == oc,
                        forall|t: int|
                            0 <= t < oc ==> (#[trigger] chunks@[t])@ == og_chunk(
                                output_gradient@,
                                sz as int,
                                t,
                            ),
                        ic < c,
                        y < h,
                        y * w + w <= h * w,
                        x <= w,
                        gchan@.len() == y * w + x,
                        forall|p: int|
                            0 <= p < y * w + x ==> gchan@[p] == fc_cell(
                                self@,
                                output_gradient@,
                                ic as int,
                                p / (w as int),
                                p % (w as int),
                            ),
                    decreases w - x,
                {
                    proof {
                        cube_deep(self.kernels);
                        mat_deep(self.kernels@[ic as int]);
                        assert(self.kernels.deep_view()[ic as int] == self.kernels@[
                            ic as int].deep_view());
                        assert(self@.kernels[ic as int].len() == oc);
                        assert(self.kernels@[ic as int]@.len() == oc);
                        assert forall|t: int|
                            0 <= t < oc implies (#[trigger] self.kernels@[ic as int]@[t])@
                            == self@.kernels[ic as int][t] by {
                            assert(self.kernels@[ic as int].deep_view()[t]
                                == self.kernels@[ic as int]@[t]@);
                        }
                        assert forall|t: int| 0 <= t < oc implies (
                        #[trigger] chunks.deep_view()[t]) == chunk_seq(
                            output_gradient@,
                            sz as int,
                            oc as nat,
                        )[t] by {
                            mat_deep(chunks);
                        }
                        mat_deep(chunks);
                        assert(chunks.deep_view() =~= chunk_seq(
                            output_gradient@,
                            sz as int,
                            oc as nat,
                        ));
                        assert(self.kernels.deep_view()[ic as int] == self.kernels@[
                            ic as int].deep_view());
                        assert forall|t: int| 0 <= t < oc implies (#[trigger] chunks@[t])@.len()
                            == oh * ow by {
                            assert((t + 1) * (sz as int) == t * (sz as int) + sz)
                                by (nonlinear_arith);
                            vstd::arithmetic::mul::lemma_mul_nonnegative(t, sz as int);
                            vstd::arithmetic::mul::lemma_mul_inequality(
                                t + 1,
                                oc as int,
                                sz as int,
                            );
                        }
                        lemma_fundamental_div_mod_converse(
                            (y * w + x) as int,
                            w as int,
                            y as int,
                            x as int,
                        );
                    }
                    let cell = fc_cell_exec(&chunks, &self.kernels[ic], y, x, k, oh, ow);
                    gchan.push(cell);
                    x = x + 1;
                }
                y = y + 1;
            }
            proof {
                assert(gchan@ =~= Seq::new(
                    (h * w) as nat,
                    |p: int|
                        fc_cell(self@, output_gradient@, ic as int, p / (w as int), p % (w as int)),
                ));
            }
            grad_chans.push(gchan);
            ic = ic + 1;
        }
        let flat = flatten_mat(&grad_chans);
        proof {
            mat_deep(grad_chans);
            assert forall|t: int| 0 <= t < c implies #[trigger] grad_chans.deep_view()[t]
                == conv_grad_chans(self@, output_gradient@)[t] by {
                assert(grad_chans.deep_view()[t] == grad_chans@[t]@);
            }
            assert(grad_chans.deep_view() =~= conv_grad_chans(self@, output_gradient@));
            row_deep(flat);
        }
        Ok(flat)
    }
}

/// The full-correlation value at one input position: every window position
/// of every output channel whose (stepped) kernel overlaps `(y, x)`
/// contributes the product of its gradient entry and the overlapping kernel
/// cell.
fn fc_cell_exec(
    chunks: &Vec<Vec<i64>>,
    blocks: &Vec<Vec<i64>>,
    y: usize,
    x: usize,
    k: usize,
    oh: usize,
    ow: usize,
) -> (r: i64)
    requires
        chunks@.len() == blocks@.len(),
        1 <= ow,
        1 <= k,
        oh * ow <= usize::MAX,
        k * k <= usize::MAX,
        forall|o: int| 0 <= o < chunks@.len() ==> (#[trigger] chunks@[o])@.len() == oh * ow,
        forall|o: int| 0 <= o < blocks@.len() ==> (#[trigger] blocks@[o])@.len() == k * k,
    ensures
        r == fc_chans(
            0i64,
            chunks.deep_view(),
            blocks.deep_view(),
            y as int,
            x as int,
            k as int,
            oh as int,
            ow as int,
            chunks@.len() as int,
        ),
{
    let oc = chunks.len();
    let mut acc: i64 = 0;
    let mut o: usize = 0;
    while o < oc
        invariant
            chunks@.len() == oc,
            blocks@.len() == oc,
            1 <= ow,
            1 <= k,
            oh * ow <= usize::MAX,
            k * k <= usize::MAX,
            forall|t: int| 0 <= t < oc ==> (#[trigger] chunks@[t])@.len() == oh * ow,
            forall|t: int| 0 <= t < oc ==> (#[trigger] blocks@[t])@.len() == k * k,
            o <= oc,
            acc == fc_chans(
                0i64,
                chunks.deep_view(),
                blocks.deep_view(),
                y as int,
                x as int,
                k as int,
                oh as int,
                ow as int,
                o as int,
            ),
        decreases oc - o,
    {
        let ghost acc_o = acc;
        let mut u: usize = 0;
        while u < oh
            invariant
                chunks@.len() == oc,
                blocks@.len() == oc,
                1 <= ow,
                1 <= k,
                oh * ow <= usize::MAX,
                k * k <= usize::MAX,
                forall|t: int| 0 <= t < oc ==> (#[trigger] chunks@[t])@.len() == oh * ow,
                forall|t: int| 0 <= t < oc ==> (#[trigger] blocks@[t])@.len() == k * k,
                o < oc,
                u <= oh,
                acc == fc_row_block(
                    acc_o,
                    chunks.deep_view()[o as int],
                    blocks.deep_view()[o as int],
                    y as int,
                    x as int,
                    k as int,
                    ow as int,
                    u as int,
                ),
            decreases oh - u,
        {
            let ghost acc_u = acc;
            let mut v: usize = 0;
            while v < ow
                invariant
                    chunks@.len() == oc,
                    blocks@.len() == oc,
                    1 <= ow,
                    1 <= k,
                    oh * ow <= usize::MAX,
                    k * k <= usize::MAX,
                    forall|t: int| 0 <= t < oc ==> (#[trigger] chunks@[t])@.len() == oh * ow,
                    forall|t: int| 0 <= t < oc ==> (#[trigger] blocks@[t])@.len() == k * k,
                    o < oc,
                    u < oh,
                    v <= ow,
                    acc == fc_row(
                        acc_u,
                        chunks.deep_view()[o as int],
                        blocks.deep_view()[o as int],
                        y as int,
                        x as int,
                        u as int,
                        k as int,
                        ow as int,
                        v as int,
                    ),
                decreases ow - v,
            {
                proof {
                    mat_deep(*chunks);
                    mat_deep(*blocks);
                }
                if y >= u && y - u < k && x >= v && x - v < k {
                    proof {
                        assert(u * ow + v < oh * ow) by (nonlinear_arith)
                            requires
                                u < oh,
                                v < ow,
                                0 <= u,
                                0 <= v,
                                0 <= ow,
                        ;
                        assert((y - u) * k + (x - v) < k * k) by (nonlinear_arith)
                            requires
                                y - u < k,
                                x - v < k,
                                0 <= y - u,
                                0 <= x - v,
                                1 <= k,
                        ;
                    }
                    acc = add_fx(
                        acc,
                        mul_fx(chunks[o][u * ow + v], blocks[o][(y - u) * k + (x - v)]),
                    );
                }
                v = v + 1;
            }
            u = u + 1;
        }
        o = o + 1;
    }
    acc
}

} // verus!
