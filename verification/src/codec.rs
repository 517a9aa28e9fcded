//! Binary persistence of a network.
//!
//! A model is serialized as a flat list of 64-bit tokens, each written as
//! eight little-endian bytes: the layer count; per layer a variant tag, its
//! shape, its parameters in row-major order; the activation count; and one
//! tag per activation. Caches are not persisted: a loaded network has fresh
//! caches and, by construction, the same predictions as the saved one.

use crate::activations::{ActKind, ActV, ActivationFn, Relu, Sigmoid, Tanh};
use crate::convolution::{conv_geometry_ok, ConvV, ConvolutionLayer};
use crate::dense::{DenseLayer, DenseV};
use crate::layer::{LayerOutput, LayerType, LayerV, TensorV};
use crate::network::{NetV, Network};
use crate::views::{cube_deep, mat_deep, row_deep};
use crate::NNError;
use vstd::prelude::*;

verus! {

/// Byte `k` (little-endian) of a 64-bit token.
#[verifier::opaque]
pub open spec fn u64_byte(v: u64, k: int) -> u8 {
    ((v >> (8 * k)) & 0xff) as u8
}

/// The eight little-endian bytes of every token, concatenated.
pub open spec fn bytes_of_tokens(ts: Seq<u64>) -> Seq<u8> {
    Seq::new(ts.len() * 8, |t: int| u64_byte(ts[t / 8], t % 8))
}

/// The 64-bit token starting at position `p` of a byte string.
#[verifier::opaque]
pub open spec fn le_u64_at(bs: Seq<u8>, p: int) -> u64
    recommends
        0 <= p,
        p + 8 <= bs.len(),
{
    (bs[p] as u64) | ((bs[p + 1] as u64) << 8) | ((bs[p + 2] as u64) << 16) | ((bs[p + 3] as u64)
        << 24) | ((bs[p + 4] as u64) << 32) | ((bs[p + 5] as u64) << 40) | ((bs[p + 6] as u64)
        << 48) | ((bs[p + 7] as u64) << 56)
}

/// A byte string of full tokens, read back as tokens.
pub open spec fn tokens_of_bytes(bs: Seq<u8>) -> Seq<u64> {
    Seq::new(bs.len() / 8, |i: int| le_u64_at(bs, 8 * i))
}

/// Reassembling a token from its eight little-endian bytes gives the token
/// back.
pub proof fn lemma_u64_bytes_roundtrip(v: u64)
    ensures
        (u64_byte(v, 0) as u64) | ((u64_byte(v, 1) as u64) << 8) | ((u64_byte(v, 2) as u64) << 16)
            | ((u64_byte(v, 3) as u64) << 24) | ((u64_byte(v, 4) as u64) << 32) | ((u64_byte(v, 5)
            as u64) << 40) | ((u64_byte(v, 6) as u64) << 48) | ((u64_byte(v, 7) as u64) << 56)
            == v,
{
    reveal(u64_byte);
    assert((((v >> 0) & 0xff) as u8 as u64) | ((((v >> 8) & 0xff) as u8 as u64) << 8) | ((((v
        >> 16) & 0xff) as u8 as u64) << 16) | ((((v >> 24) & 0xff) as u8 as u64) << 24) | ((((v
        >> 32) & 0xff) as u8 as u64) << 32) | ((((v >> 40) & 0xff) as u8 as u64) << 40) | ((((v
        >> 48) & 0xff) as u8 as u64) << 48) | ((((v >> 56) & 0xff) as u8 as u64) << 56) == v)
        by (bit_vector);
    assert(8 * 0 == 0 && 8 * 1 == 8 && 8 * 2 == 16 && 8 * 3 == 24 && 8 * 4 == 32 && 8 * 5 == 40
        && 8 * 6 == 48 && 8 * 7 == 56);
}

/// Byte strings written token by token read back as the same tokens.
pub proof fn lemma_tokens_bytes_roundtrip(ts: Seq<u64>)
    ensures
        tokens_of_bytes(bytes_of_tokens(ts)) == ts,
{
    reveal(le_u64_at);
    let bs = bytes_of_tokens(ts);
    assert(bs.len() == ts.len() * 8);
    assert(bs.len() / 8 == ts.len()) by {
        vstd::arithmetic::div_mod::lemma_div_multiples_vanish(ts.len() as int, 8);
        vstd::arithmetic::mul::lemma_mul_is_commutative(ts.len() as int, 8);
    }
    assert forall|i: int| 0 <= i < ts.len() implies tokens_of_bytes(bs)[i] == ts[i] by {
        assert forall|k: int| 0 <= k < 8 implies bs[8 * i + k] == u64_byte(ts[i], k) by {
            vstd::arithmetic::div_mod::lemma_fundamental_div_mod_converse(8 * i + k, 8, i, k);
        }
        lemma_u64_bytes_roundtrip(ts[i]);
        assert(le_u64_at(bs, 8 * i) == ts[i]);
    }
    assert(tokens_of_bytes(bs) =~= ts);
}

/// A scalar stored as its two's-complement 64-bit pattern.
pub open spec fn tok_of_scalar(x: i64) -> u64 {
    x as u64
}

/// The two's-complement pattern read back as a scalar.
pub proof fn lemma_scalar_roundtrip(x: i64)
    ensures
        (tok_of_scalar(x) as i64) == x,
{
    assert((x as u64) as i64 == x) by (bit_vector);
}

/// A row of scalars as tokens.
pub open spec fn row_tokens(s: Seq<i64>) -> Seq<u64> {
    Seq::new(s.len(), |i: int| tok_of_scalar(s[i]))
}

/// A rectangular matrix as tokens, row-major. `cols` is each row's width.
pub open spec fn mat_tokens(m: Seq<Seq<i64>>, cols: int) -> Seq<u64>
    recommends
        0 <= cols,
{
    Seq::new((m.len() * cols) as nat, |t: int| tok_of_scalar(m[t / cols][t % cols]))
}

/// A kernel bank as tokens: banks in input-channel-major order, blocks in
/// output-channel order, each block row-major. `oc` is the inner bank width
/// and `kk` each block's length.
pub open spec fn cube_tokens(c3: Seq<Seq<Seq<i64>>>, oc: int, kk: int) -> Seq<u64>
    recommends
        0 <= oc,
        0 <= kk,
{
    Seq::new(
        (c3.len() * (oc * kk)) as nat,
        |t: int| tok_of_scalar(c3[(t / kk) / oc][(t / kk) % oc][t % kk]),
    )
}

/// One layer as tokens: a variant tag, the shape, then the parameters.
pub open spec fn layer_tokens(l: LayerV) -> Seq<u64> {
    match l {
        LayerV::Dense(d) => seq![0u64, d.input.len() as u64, d.weights.len() as u64] + mat_tokens(
            d.weights,
            d.input.len() as int,
        ) + row_tokens(d.biases),
        LayerV::Conv(cv) => seq![
            1u64,
            cv.channels as u64,
            cv.height as u64,
            cv.width as u64,
            cv.out_channels as u64,
            cv.kernel as u64,
        ] + cube_tokens(
            cv.kernels,
            cv.out_channels as int,
            (cv.kernel * cv.kernel) as int,
        ) + row_tokens(cv.biases),
    }
}

/// The layer list as tokens, in order.
pub open spec fn layers_tokens(ls: Seq<LayerV>) -> Seq<u64>
    decreases ls.len(),
{
    if ls.len() == 0 {
        Seq::empty()
    } else {
        layer_tokens(ls[0]) + layers_tokens(ls.drop_first())
    }
}

/// One activation's tag.
pub open spec fn act_tag(k: ActKind) -> u64 {
    match k {
        ActKind::Tanh => 0u64,
        ActKind::Sigmoid => 1u64,
        ActKind::Relu => 2u64,
    }
}

/// The activation list as tokens: one tag each.
pub open spec fn acts_tokens(acts: Seq<ActV>) -> Seq<u64> {
    Seq::new(acts.len(), |i: int| act_tag(acts[i].kind))
}

/// The whole network as tokens.
pub open spec fn net_tokens(n: NetV) -> Seq<u64> {
    seq![n.layers.len() as u64] + layers_tokens(n.layers) + seq![n.acts.len() as u64]
        + acts_tokens(n.acts)
}

/// What `save` produces: the token stream as little-endian bytes.
pub open spec fn enc_net(n: NetV) -> Seq<u8> {
    bytes_of_tokens(net_tokens(n))
}

/// Splitting a layer off the end of the list splits its tokens off the end.
pub proof fn lemma_layers_tokens_snoc(ls: Seq<LayerV>)
    requires
        ls.len() > 0,
    ensures
        layers_tokens(ls) == layers_tokens(ls.drop_last()) + layer_tokens(ls.last()),
    decreases ls.len(),
{
    if ls.len() == 1 {
        assert(ls.drop_first() =~= Seq::<LayerV>::empty());
        assert(ls.drop_last() =~= Seq::<LayerV>::empty());
        assert(ls[0] == ls.last());
        assert(layers_tokens(ls.drop_first()) =~= Seq::<u64>::empty());
        assert(layers_tokens(ls) =~= layer_tokens(ls.last()));
        assert(layers_tokens(ls.drop_last()) + layer_tokens(ls.last()) =~= layer_tokens(
            ls.last(),
        ));
    } else {
        lemma_layers_tokens_snoc(ls.drop_first());
        assert(ls.drop_first().drop_last() =~= ls.drop_last().drop_first());
        assert(ls.drop_first().last() == ls.last());
        assert(ls.drop_last()[0] == ls[0]);
        assert(layers_tokens(ls) == layer_tokens(ls[0]) + layers_tokens(ls.drop_first()));
        assert(layers_tokens(ls.drop_first()) == layers_tokens(ls.drop_first().drop_last())
            + layer_tokens(ls.last()));
        assert(layers_tokens(ls.drop_last()) == layer_tokens(ls[0]) + layers_tokens(
            ls.drop_last().drop_first(),
        ));
        assert(layers_tokens(ls) =~= layers_tokens(ls.drop_last()) + layer_tokens(ls.last()));
    }
}

/// Append one row of scalars to the token stream.
fn push_row_tokens(out: &mut Vec<u64>, row: &Vec<i64>)
    ensures
        final(out)@ == old(out)@ + row_tokens(row@),
{
    let ghost start = out@;
    let mut i: usize = 0;
    proof {
        assert(out@ =~= start + row_tokens(row@).take(0));
    }
    while i < row.len()
        invariant
            i <= row@.len(),
            out@ == start + row_tokens(row@).take(i as int),
        decreases row@.len() - i,
    {
        out.push(row[i] as u64);
        proof {
            assert(out@ =~= start + row_tokens(row@).take(i + 1));
        }
        i = i + 1;
    }
    proof {
        assert(row_tokens(row@).take(row@.len() as int) =~= row_tokens(row@));
    }
}

/// Append a rectangular matrix, row-major.
fn push_mat_tokens(out: &mut Vec<u64>, m: &Vec<Vec<i64>>, cols: usize)
    requires
        forall|j: int| 0 <= j < m@.len() ==> (#[trigger] m@[j])@.len() == cols,
    ensures
        final(out)@ == old(out)@ + mat_tokens(m.deep_view(), cols as int),
{
    let ghost start = out@;
    let ghost dv = m.deep_view();
    proof {
        mat_deep(*m);
    }
    let mut j: usize = 0;
    proof {
        assert(out@ =~= start + mat_tokens(dv, cols as int).take(0));
    }
    while j < m.len()
        invariant
            dv == m.deep_view(),
            forall|t: int| 0 <= t < m@.len() ==> (#[trigger] m@[t])@.len() == cols,
            j <= m@.len(),
            out@ == start + mat_tokens(dv, cols as int).take((j as int) * (cols as int)),
        decreases m@.len() - j,
    {
        proof {
            mat_deep(*m);
            vstd::arithmetic::mul::lemma_mul_inequality(
                j as int + 1,
                m@.len() as int,
                cols as int,
            );
            assert((j as int + 1) * (cols as int) == (j as int) * (cols as int) + cols)
                by (nonlinear_arith);
            vstd::arithmetic::mul::lemma_mul_nonnegative(j as int, cols as int);
        }
        let row = &m[j];
        push_row_tokens(out, row);
        proof {
            assert forall|t: int|
                (j as int) * (cols as int) <= t < (j as int) * (cols as int)
                    + cols implies mat_tokens(dv, cols as int)[t] == row_tokens(row@)[t - (
            j as int) * (cols as int)] by {
                vstd::arithmetic::div_mod::lemma_fundamental_div_mod_converse(
                    t,
                    cols as int,
                    j as int,
                    t - (j as int) * (cols as int),
                );
                assert(dv[j as int] == m@[j as int]@);
            }
            assert(out@ =~= start + mat_tokens(dv, cols as int).take(
                (j as int + 1) * (cols as int),
            ));
        }
        j = j + 1;
    }
    proof {
        assert(mat_tokens(dv, cols as int).take((m@.len() as int) * (cols as int)) =~= mat_tokens(
            dv,
            cols as int,
        ));
    }
}

/// Append a kernel bank: banks in input-channel-major order, blocks in
/// output-channel order.
fn push_cube_tokens(out: &mut Vec<u64>, c3: &Vec<Vec<Vec<i64>>>, oc: usize, kk: usize)
    requires
        forall|i: int| 0 <= i < c3@.len() ==> (#[trigger] c3@[i])@.len() == oc,
        forall|i: int, o: int|
            0 <= i < c3@.len() && 0 <= o < oc ==> (#[trigger] c3@[i]@[o])@.len() == kk,
    ensures
        final(out)@ == old(out)@ + cube_tokens(c3.deep_view(), oc as int, kk as int),
{
    let ghost start = out@;
    let ghost dv = c3.deep_view();
    proof {
        cube_deep(*c3);
    }
    let mut i: usize = 0;
    proof {
        assert(out@ =~= start + cube_tokens(dv, oc as int, kk as int).take(0));
    }
    while i < c3.len()
        invariant
            dv == c3.deep_view(),
            forall|t: int| 0 <= t < c3@.len() ==> (#[trigger] c3@[t])@.len() == oc,
            forall|t: int, o: int|
                0 <= t < c3@.len() && 0 <= o < oc ==> (#[trigger] c3@[t]@[o])@.len() == kk,
            i <= c3@.len(),
            out@ == start + cube_tokens(dv, oc as int, kk as int).take(
                (i as int) * ((oc as int) * (kk as int)),
            ),
        decreases c3@.len() - i,
    {
        let mut o: usize = 0;
        proof {
            vstd::arithmetic::mul::lemma_mul_nonnegative(
                i as int,
                (oc as int) * (kk as int),
            );
        }
        while o < oc
            invariant
                dv == c3.deep_view(),
                forall|t: int| 0 <= t < c3@.len() ==> (#[trigger] c3@[t])@.len() == oc,
                forall|t: int, u: int|
                    0 <= t < c3@.len() && 0 <= u < oc ==> (#[trigger] c3@[t]@[u])@.len() == kk,
                i < c3@.len(),
                o <= oc,
                out@ == start + cube_tokens(dv, oc as int, kk as int).take(
                    (i as int) * ((oc as int) * (kk as int)) + (o as int) * (kk as int),
                ),
            decreases oc - o,
        {
            proof {
                cube_deep(*c3);
                vstd::arithmetic::mul::lemma_mul_inequality(o as int + 1, oc as int, kk as int);
                vstd::arithmetic::mul::lemma_mul_nonnegative(o as int, kk as int);
                assert((o as int + 1) * (kk as int) == (o as int) * (kk as int) + kk)
                    by (nonlinear_arith);
            }
            let row = &c3[i][o];
            push_row_tokens(out, row);
            proof {
                let base = (i as int) * ((oc as int) * (kk as int)) + (o as int) * (kk as int);
                assert forall|t: int| base <= t < base + kk implies cube_tokens(
                    dv,
                    oc as int,
                    kk as int,
                )[t] == row_tokens(row@)[t - base] by {
                    assert(((i as int) * (oc as int) + o) * (kk as int) == base)
                        by (nonlinear_arith)
                        requires
                            base == (i as int) * ((oc as int) * (kk as int)) + (o as int) * (
                            kk as int),
                    ;
                    vstd::arithmetic::div_mod::lemma_fundamental_div_mod_converse(
                        t,
                        kk as int,
                        (i as int) * (oc as int) + o,
                        t - base,
                    );
                    assert((i as int) * (oc as int) + o + 1 <= (c3@.len() as int) * (oc as int))
                        by (nonlinear_arith)
                        requires
                            0 <= (i as int),
                            (i as int) < (c3@.len() as int),
                            0 <= (o as int),
                            (o as int) < (oc as int),
                    ;
                    vstd::arithmetic::mul::lemma_mul_inequality(
                        (i as int) * (oc as int) + o + 1,
                        (c3@.len() as int) * (oc as int),
                        kk as int,
                    );
                    assert(((i as int) * (oc as int) + o + 1) * (kk as int) == ((i as int) * (
                    oc as int) + o) * (kk as int) + kk) by (nonlinear_arith);
                    vstd::arithmetic::mul::lemma_mul_nonnegative(
                        (i as int) * (oc as int) + o,
                        kk as int,
                    );
                    assert(((c3@.len() as int) * (oc as int)) * (kk as int) == (
                    c3@.len() as int) * ((oc as int) * (kk as int))) by (nonlinear_arith);
                    vstd::arithmetic::div_mod::lemma_fundamental_div_mod_converse(
                        t / (kk as int),
                        oc as int,
                        i as int,
                        o as int,
                    );
                    assert(dv[i as int] == c3@[i as int].deep_view());
                    assert(dv[i as int][o as int] == c3@[i as int]@[o as int]@);
                }
                assert((i as int) * ((oc as int) * (kk as int)) + (o as int + 1) * (kk as int)
                    <= (c3@.len() as int) * ((oc as int) * (kk as int))) by (nonlinear_arith)
                    requires
                        0 <= (i as int),
                        (i as int) < (c3@.len() as int),
                        0 <= (o as int),
                        (o as int) < (oc as int),
                        0 <= (kk as int),
                ;
                vstd::arithmetic::mul::lemma_mul_nonnegative(
                    i as int,
                    (oc as int) * (kk as int),
                );
                vstd::arithmetic::mul::lemma_mul_nonnegative(o as int, kk as int);
                assert(out@ =~= start + cube_tokens(dv, oc as int, kk as int).take(
                    (i as int) * ((oc as int) * (kk as int)) + (o as int + 1) * (kk as int),
                ));
            }
            o = o + 1;
        }
        proof {
            assert((i as int + 1) * ((oc as int) * (kk as int)) == (i as int) * ((oc as int) * (
            kk as int)) + (oc as int) * (kk as int)) by (nonlinear_arith);
        }
        i = i + 1;
    }
    proof {
        assert(cube_tokens(dv, oc as int, kk as int).take(
            (c3@.len() as int) * ((oc as int) * (kk as int)),
        ) =~= cube_tokens(dv, oc as int, kk as int));
    }
}

/// Serialize a token stream as little-endian bytes.
fn tokens_to_bytes(ts: &Vec<u64>) -> (r: Vec<u8>)
    ensures
        r@ == bytes_of_tokens(ts@),
{
    proof {
        reveal(u64_byte);
    }
    let mut out: Vec<u8> = Vec::new();
    let mut i: usize = 0;
    proof {
        assert(out@ =~= bytes_of_tokens(ts@).take(0));
    }
    while i < ts.len()
        invariant
            i <= ts@.len(),
            out@ == bytes_of_tokens(ts@).take((i as int) * 8),
        decreases ts@.len() - i,
    {
        let v = ts[i];
        out.push((v & 0xff) as u8);
        out.push(((v >> 8) & 0xff) as u8);
        out.push(((v >> 16) & 0xff) as u8);
        out.push(((v >> 24) & 0xff) as u8);
        out.push(((v >> 32) & 0xff) as u8);
        out.push(((v >> 40) & 0xff) as u8);
        out.push(((v >> 48) & 0xff) as u8);
        out.push(((v >> 56) & 0xff) as u8);
        proof {
            reveal(u64_byte);
            assert forall|k: int| 0 <= k < 8 implies bytes_of_tokens(ts@)[(i as int) * 8 + k]
                == u64_byte(v, k) by {
                vstd::arithmetic::div_mod::lemma_fundamental_div_mod_converse(
                    (i as int) * 8 + k,
                    8,
                    i as int,
                    k,
                );
                vstd::arithmetic::mul::lemma_mul_inequality(i as int + 1, ts@.len() as int, 8);
            }
            assert(v >> 0 == v) by (bit_vector);
            assert(u64_byte(v, 0) == (v & 0xff) as u8 && u64_byte(v, 1) == ((v >> 8) & 0xff) as u8
                && u64_byte(v, 2) == ((v >> 16) & 0xff) as u8 && u64_byte(v, 3) == ((v >> 24)
                & 0xff) as u8 && u64_byte(v, 4) == ((v >> 32) & 0xff) as u8 && u64_byte(v, 5) == ((
            v >> 40) & 0xff) as u8 && u64_byte(v, 6) == ((v >> 48) & 0xff) as u8 && u64_byte(v, 7)
                == ((v >> 56) & 0xff) as u8);
            assert(out@ =~= bytes_of_tokens(ts@).take((i as int + 1) * 8));
        }
        i = i + 1;
    }
    proof {
        assert(bytes_of_tokens(ts@).take((ts@.len() as int) * 8) =~= bytes_of_tokens(ts@));
    }
    out
}

impl Network {
    /// Serialize the network's structure and parameters (not its caches) as
    /// a byte buffer.
    pub fn save(&self) -> (r: Vec<u8>)
        requires
            self@.layers_wf(),
        ensures
            r@ == enc_net(self@),
    {
        let mut tokens: Vec<u64> = Vec::new();
        tokens.push(self.layers.len() as u64);
        let ghost lv = self@.layers;
        proof {
            assert(lv.take(0) =~= Seq::<LayerV>::empty());
            assert(tokens@ =~= seq![self@.layers.len() as u64] + layers_tokens(lv.take(0)));
        }
        let mut i: usize = 0;
        while i < self.layers.len()
            invariant
                lv == self@.layers,
                self@.layers_wf(),
                i <= self@.layers.len(),
                tokens@ == seq![self@.layers.len() as u64] + layers_tokens(lv.take(i as int)),
            decreases self@.layers.len() - i,
        {
            let ghost pre = tokens@;
            proof {
                assert(self@.layers[i as int].wf());
            }
            match &self.layers[i] {
                LayerType::Dense(d) => {
                    proof {
                        row_deep(d.input);
                        mat_deep(d.weights);
                        row_deep(d.biases);
                        assert forall|t: int|
                            0 <= t < d.weights@.len() implies (#[trigger] d.weights@[t])@.len()
                            == d.input@.len() by {
                            assert(d.weights.deep_view()[t] == d.weights@[t]@);
                        }
                    }
                    tokens.push(0u64);
                    tokens.push(d.input.len() as u64);
                    tokens.push(d.weights.len() as u64);
                    push_mat_tokens(&mut tokens, &d.weights, d.input.len());
                    push_row_tokens(&mut tokens, &d.biases);
                    proof {
                        assert(tokens@ =~= pre + layer_tokens(lv[i as int]));
                    }
                },
                LayerType::Conv(cv) => {
                    proof {
                        mat_deep(cv.input);
                        cube_deep(cv.kernels);
                        row_deep(cv.biases);
                    }
                    tokens.push(1u64);
                    tokens.push(cv.input_shape.0 as u64);
                    tokens.push(cv.input_shape.1 as u64);
                    tokens.push(cv.input_shape.2 as u64);
                    tokens.push(cv.kernel_shape.0 as u64);
                    tokens.push(cv.kernel_shape.1 as u64);
                    let kk = cv.kernel_shape.1 * cv.kernel_shape.1;
                    proof {
                        assert forall|t: int, u: int|
                            0 <= t < cv.kernels@.len() && 0 <= u
                                < cv.kernel_shape.0 implies (#[trigger] cv.kernels@[t]@[u])@.len()
                            == kk by {
                            assert(cv@.kernels[t] == cv.kernels@[t].deep_view());
                            assert(cv@.kernels[t][u] == cv.kernels@[t]@[u]@);
                        }
                        assert forall|t: int|
                            0 <= t < cv.kernels@.len() implies (#[trigger] cv.kernels@[t])@.len()
                            == cv.kernel_shape.0 by {
                            assert(cv@.kernels[t] == cv.kernels@[t].deep_view());
                        }
                    }
                    push_cube_tokens(&mut tokens, &cv.kernels, cv.kernel_shape.0, kk);
                    push_row_tokens(&mut tokens, &cv.biases);
                    proof {
                        assert(tokens@ =~= pre + layer_tokens(lv[i as int]));
                    }
                },
            }
            proof {
                assert(lv.take(i + 1).drop_last() =~= lv.take(i as int));
                assert(lv.take(i + 1).last() == lv[i as int]);
                lemma_layers_tokens_snoc(lv.take(i + 1));
                assert(tokens@ =~= seq![self@.layers.len() as u64] + layers_tokens(
                    lv.take(i + 1),
                ));
            }
            i = i + 1;
        }
        proof {
            assert(lv.take(lv.len() as int) =~= lv);
        }
        tokens.push(self.activations.len() as u64);
        let ghost av = self@.acts;
        let ghost head = tokens@;
        let mut j: usize = 0;
        proof {
            assert(tokens@ =~= head + acts_tokens(av).take(0));
        }
        while j < self.activations.len()
            invariant
                av == self@.acts,
                head == seq![self@.layers.len() as u64] + layers_tokens(self@.layers) + seq![
                    self@.acts.len() as u64,
                ],
                j <= self@.acts.len(),
                tokens@ == head + acts_tokens(av).take(j as int),
            decreases self@.acts.len() - j,
        {
            match &self.activations[j] {
                ActivationFn::Tanh(_) => tokens.push(0u64),
                ActivationFn::Sigmoid(_) => tokens.push(1u64),
                ActivationFn::Relu(_) => tokens.push(2u64),
            }
            proof {
                assert(tokens@ =~= head + acts_tokens(av).take(j + 1));
            }
            j = j + 1;
        }
        proof {
            assert(acts_tokens(av).take(av.len() as int) =~= acts_tokens(av));
            assert(tokens@ =~= net_tokens(self@));
        }
        tokens_to_bytes(&tokens)
    }
}

/// The activation kind a tag denotes.
pub open spec fn kind_of_tag(t: u64) -> ActKind {
    if t == 0 {
        ActKind::Tanh
    } else if t == 1 {
        ActKind::Sigmoid
    } else {
        ActKind::Relu
    }
}

/// Parse one layer at token position `pos`: the tag, the shape (validated),
/// then the parameters. The parsed layer has a fresh cache.
#[verifier::opaque]
pub open spec fn dec_layer(ts: Seq<u64>, pos: int) -> Option<(LayerV, int)> {
    if !(0 <= pos && pos + 1 <= ts.len()) {
        None
    } else if ts[pos] == 0u64 {
        if pos + 3 > ts.len() {
            None
        } else {
            let n_in = ts[pos + 1] as int;
            let n_out = ts[pos + 2] as int;
            if !(n_in <= usize::MAX && n_out <= usize::MAX && n_out * n_in <= usize::MAX) {
                None
            } else if pos + 3 + n_out * n_in + n_out > ts.len() {
                None
            } else {
                let base = pos + 3;
                let w = Seq::new(
                    n_out as nat,
                    |j: int| Seq::new(n_in as nat, |i2: int| ts[base + j * n_in + i2] as i64),
                );
                let b = Seq::new(n_out as nat, |j: int| ts[base + n_out * n_in + j] as i64);
                Some(
                    (
                        LayerV::Dense(
                            DenseV {
                                input: Seq::new(n_in as nat, |q: int| 0i64),
                                weights: w,
                                biases: b,
                            },
                        ),
                        base + n_out * n_in + n_out,
                    ),
                )
            }
        }
    } else if ts[pos] == 1u64 {
        if pos + 6 > ts.len() {
            None
        } else {
            let c = ts[pos + 1] as int;
            let h = ts[pos + 2] as int;
            let w0 = ts[pos + 3] as int;
            let oc = ts[pos + 4] as int;
            let k = ts[pos + 5] as int;
            if !(c <= usize::MAX && h <= usize::MAX && w0 <= usize::MAX && oc <= usize::MAX && k
                <= usize::MAX && conv_geometry_ok(c, h, w0, oc, k) && oc * (k * k) <= usize::MAX
                && c * (oc * (k * k)) <= usize::MAX) {
                None
            } else if pos + 6 + c * (oc * (k * k)) + oc > ts.len() {
                None
            } else {
                let kk = k * k;
                let base = pos + 6;
                let kern = Seq::new(
                    c as nat,
                    |ic: int|
                        Seq::new(
                            oc as nat,
                            |o: int|
                                Seq::new(
                                    kk as nat,
                                    |t: int| ts[base + ic * (oc * kk) + o * kk + t] as i64,
                                ),
                        ),
                );
                let b = Seq::new(oc as nat, |o: int| ts[base + c * (oc * kk) + o] as i64);
                Some(
                    (
                        LayerV::Conv(
                            ConvV {
                                input: Seq::empty(),
                                channels: c as nat,
                                height: h as nat,
                                width: w0 as nat,
                                out_channels: oc as nat,
                                kernel: k as nat,
                                kernels: kern,
                                biases: b,
                            },
                        ),
                        base + c * (oc * kk) + oc,
                    ),
                )
            }
        }
    } else {
        None
    }
}

/// Parse `cnt` layers in order.
pub open spec fn dec_layers(ts: Seq<u64>, pos: int, cnt: nat) -> Option<(Seq<LayerV>, int)>
    decreases cnt,
{
    if cnt == 0 {
        Some((Seq::empty(), pos))
    } else {
        match dec_layer(ts, pos) {
            None => None,
            Some((l, p2)) => match dec_layers(ts, p2, (cnt - 1) as nat) {
                None => None,
                Some((rest, p3)) => Some((seq![l] + rest, p3)),
            },
        }
    }
}

/// Parse `cnt` activation tags; every tag must denote a kind.
pub open spec fn dec_acts(ts: Seq<u64>, pos: int, cnt: nat) -> Option<(Seq<ActV>, int)> {
    if 0 <= pos && pos + cnt <= ts.len() && (forall|i: int|
        0 <= i < cnt ==> #[trigger] ts[pos + i] <= 2) {
        Some(
            (
                Seq::new(
                    cnt,
                    |i: int| ActV { kind: kind_of_tag(ts[pos + i]), cache: TensorV::Uninit },
                ),
                pos + cnt,
            ),
        )
    } else {
        None
    }
}

/// Parse a whole token stream, requiring it to be consumed exactly.
pub open spec fn dec_net(ts: Seq<u64>) -> Option<NetV> {
    if ts.len() < 1 {
        None
    } else {
        let lcnt = ts[0] as int;
        if lcnt > usize::MAX {
            None
        } else {
            match dec_layers(ts, 1, lcnt as nat) {
                None => None,
                Some((ls, p)) => {
                    if p + 1 > ts.len() {
                        None
                    } else {
                        let acnt = ts[p] as int;
                        if acnt > usize::MAX {
                            None
                        } else {
                            match dec_acts(ts, p + 1, acnt as nat) {
                                None => None,
                                Some((acts, p2)) => {
                                    if p2 == ts.len() {
                                        Some(NetV { layers: ls, acts })
                                    } else {
                                        None
                                    }
                                },
                            }
                        }
                    }
                },
            }
        }
    }
}

/// What `load` accepts: whole little-endian tokens forming exactly one
/// well-shaped network.
pub open spec fn spec_load(bs: Seq<u8>) -> Option<NetV> {
    if bs.len() % 8 != 0 {
        None
    } else {
        dec_net(tokens_of_bytes(bs))
    }
}

/// A layer with its cache emptied, as loading leaves it.
pub open spec fn reset_layer(l: LayerV) -> LayerV {
    match l {
        LayerV::Dense(d) => LayerV::Dense(
            DenseV { input: Seq::new(d.input.len(), |i: int| 0i64), ..d },
        ),
        LayerV::Conv(cv) => LayerV::Conv(ConvV { input: Seq::empty(), ..cv }),
    }
}

/// A network with every cache emptied, as loading leaves it.
pub open spec fn reset_net(n: NetV) -> NetV {
    NetV {
        layers: Seq::new(n.layers.len(), |i: int| reset_layer(n.layers[i])),
        acts: Seq::new(n.acts.len(), |i: int| ActV { kind: n.acts[i].kind, cache: TensorV::Uninit }),
    }
}

/// One layer can be written and read back: its dimensions are consistent and
/// every derived size fits in a `usize`.
pub open spec fn enc_ok_layer(l: LayerV) -> bool {
    match l {
        LayerV::Dense(d) => {
            &&& d.input.len() <= usize::MAX
            &&& d.weights.len() <= usize::MAX
            &&& d.weights.len() * d.input.len() <= usize::MAX
            &&& d.biases.len() == d.weights.len()
            &&& forall|j: int|
                0 <= j < d.weights.len() ==> (#[trigger] d.weights[j]).len() == d.input.len()
        },
        LayerV::Conv(cv) => {
            &&& cv.wf()
            &&& cv.channels <= usize::MAX
            &&& cv.height <= usize::MAX
            &&& cv.width <= usize::MAX
            &&& cv.out_channels <= usize::MAX
            &&& cv.kernel <= usize::MAX
            &&& cv.out_channels * (cv.kernel * cv.kernel) <= usize::MAX
            &&& cv.channels * (cv.out_channels * (cv.kernel * cv.kernel)) <= usize::MAX
        },
    }
}

/// A network can be written and read back.
pub open spec fn enc_ok(n: NetV) -> bool {
    &&& n.layers.len() <= usize::MAX
    &&& n.acts.len() <= usize::MAX
    &&& forall|i: int| 0 <= i < n.layers.len() ==> enc_ok_layer(#[trigger] n.layers[i])
}

/// A layer's tokens, written anywhere into a longer stream, parse back to
/// the same layer with a fresh cache, consuming exactly the layer's tokens.
#[verifier::rlimit(100)]
#[verifier::spinoff_prover]
pub proof fn lemma_dec_layer_at(ts: Seq<u64>, pos: int, l: LayerV)
    requires
        enc_ok_layer(l),
        0 <= pos,
        pos + layer_tokens(l).len() <= ts.len(),
        ts.subrange(pos, pos + layer_tokens(l).len()) == layer_tokens(l),
    ensures
        dec_layer(ts, pos) == Some((reset_layer(l), pos + layer_tokens(l).len())),
{
    reveal(dec_layer);
    let lt = layer_tokens(l);
    let sub = ts.subrange(pos, pos + lt.len());
    match l {
        LayerV::Dense(d) => {
            let n_in = d.input.len() as int;
            let n_out = d.weights.len() as int;
            let wc = n_out * n_in;
            vstd::arithmetic::mul::lemma_mul_nonnegative(n_out, n_in);
            assert(lt.len() == 3 + wc + n_out);
            assert(ts[pos] == 0u64) by {
                assert(sub[0] == ts[pos + 0]);
            }
            assert(ts[pos + 1] == d.input.len() as u64) by {
                assert(sub[1] == ts[pos + 1]);
            }
            assert(ts[pos + 2] == d.weights.len() as u64) by {
                assert(sub[2] == ts[pos + 2]);
            }
            assert(ts[pos + 1] as int == n_in);
            assert(ts[pos + 2] as int == n_out);
            let lp = dec_layer(ts, pos)->Some_0;
            let base = pos + 3;
            let w2 = lp.0->Dense_0.weights;
            assert forall|j: int| 0 <= j < n_out implies w2[j] == d.weights[j] by {
                assert forall|i2: int| 0 <= i2 < n_in implies w2[j][i2] == d.weights[j][i2] by {
                    vstd::arithmetic::div_mod::lemma_fundamental_div_mod_converse(
                        j * n_in + i2,
                        n_in,
                        j,
                        i2,
                    );
                    vstd::arithmetic::mul::lemma_mul_inequality(j + 1, n_out, n_in);
                    assert((j + 1) * n_in == j * n_in + n_in) by (nonlinear_arith);
                    vstd::arithmetic::mul::lemma_mul_nonnegative(j, n_in);
                    assert(ts[base + j * n_in + i2] == mat_tokens(d.weights, n_in)[j * n_in
                        + i2]) by {
                        assert(sub[3 + j * n_in + i2] == ts[pos + (3 + j * n_in + i2)]);
                        assert(lt[3 + j * n_in + i2] == mat_tokens(d.weights, n_in)[j * n_in
                            + i2]);
                    }
                    lemma_scalar_roundtrip(d.weights[j][i2]);
                }
                assert(w2[j] =~= d.weights[j]);
            }
            assert(w2 =~= d.weights);
            let b2 = lp.0->Dense_0.biases;
            assert forall|j: int| 0 <= j < n_out implies b2[j] == d.biases[j] by {
                assert(ts[base + wc + j] == row_tokens(d.biases)[j]) by {
                    assert(sub[3 + wc + j] == ts[pos + (3 + wc + j)]);
                    assert(lt[3 + wc + j] == row_tokens(d.biases)[j]);
                }
                lemma_scalar_roundtrip(d.biases[j]);
            }
            assert(b2 =~= d.biases);
            assert(lp.0->Dense_0.input =~= reset_layer(l)->Dense_0.input);
        },
        LayerV::Conv(cv) => {
            let c = cv.channels as int;
            let h = cv.height as int;
            let w0 = cv.width as int;
            let oc = cv.out_channels as int;
            let k = cv.kernel as int;
            let kk = k * k;
            vstd::arithmetic::mul::lemma_mul_nonnegative(oc, kk);
            vstd::arithmetic::mul::lemma_mul_nonnegative(c, oc * kk);
            assert(lt.len() == 6 + c * (oc * kk) + oc) by {
                assert(cube_tokens(cv.kernels, oc, kk).len() == c * (oc * kk));
            }
            assert(ts[pos] == 1u64) by {
                assert(sub[0] == ts[pos + 0]);
            }
            assert(ts[pos + 1] == cv.channels as u64) by {
                assert(sub[1] == ts[pos + 1]);
            }
            assert(ts[pos + 2] == cv.height as u64) by {
                assert(sub[2] == ts[pos + 2]);
            }
            assert(ts[pos + 3] == cv.width as u64) by {
                assert(sub[3] == ts[pos + 3]);
            }
            assert(ts[pos + 4] == cv.out_channels as u64) by {
                assert(sub[4] == ts[pos + 4]);
            }
            assert(ts[pos + 5] == cv.kernel as u64) by {
                assert(sub[5] == ts[pos + 5]);
            }
            assert(ts[pos + 1] as int == c && ts[pos + 2] as int == h && ts[pos + 3] as int == w0
                && ts[pos + 4] as int == oc && ts[pos + 5] as int == k);
            assert(conv_geometry_ok(c, h, w0, oc, k));
            let lp = dec_layer(ts, pos)->Some_0;
            let base = pos + 6;
            let k2 = lp.0->Conv_0.kernels;
            assert forall|ic: int| 0 <= ic < c implies k2[ic] == cv.kernels[ic] by {
                assert forall|o: int| 0 <= o < oc implies k2[ic][o] == cv.kernels[ic][o] by {
                    assert forall|u: int|
                        0 <= u < kk implies k2[ic][o][u] == cv.kernels[ic][o][u] by {
                        let tt = ic * (oc * kk) + o * kk + u;
                        assert((ic * oc + o) * kk == ic * (oc * kk) + o * kk)
                            by (nonlinear_arith);
                        vstd::arithmetic::mul::lemma_mul_nonnegative(ic * oc + o, kk);
                        vstd::arithmetic::div_mod::lemma_fundamental_div_mod_converse(
                            tt,
                            kk,
                            ic * oc + o,
                            u,
                        );
                        vstd::arithmetic::mul::lemma_mul_nonnegative(ic, oc);
                        vstd::arithmetic::div_mod::lemma_fundamental_div_mod_converse(
                            tt / kk,
                            oc,
                            ic,
                            o,
                        );
                        assert(tt < c * (oc * kk)) by (nonlinear_arith)
                            requires
                                0 <= ic < c,
                                0 <= o < oc,
                                0 <= u < kk,
                                tt == ic * (oc * kk) + o * kk + u,
                        ;
                        assert(0 <= tt) by (nonlinear_arith)
                            requires
                                0 <= ic,
                                0 <= o,
                                0 <= u,
                                0 <= oc,
                                0 <= kk,
                                tt == ic * (oc * kk) + o * kk + u,
                        ;
                        assert(ts[base + tt] == cube_tokens(cv.kernels, oc, kk)[tt]) by {
                            assert(sub[6 + tt] == ts[pos + (6 + tt)]);
                            assert(lt[6 + tt] == cube_tokens(cv.kernels, oc, kk)[tt]);
                        }
                        lemma_scalar_roundtrip(cv.kernels[ic][o][u]);
                    }
                    assert(k2[ic][o] =~= cv.kernels[ic][o]);
                }
                assert(k2[ic] =~= cv.kernels[ic]);
            }
            assert(k2 =~= cv.kernels);
            let b2 = lp.0->Conv_0.biases;
            assert forall|o: int| 0 <= o < oc implies b2[o] == cv.biases[o] by {
                assert(ts[base + c * (oc * kk) + o] == row_tokens(cv.biases)[o]) by {
                    assert(sub[6 + c * (oc * kk) + o] == ts[pos + (6 + c * (oc * kk) + o)]);
                    assert(lt[6 + c * (oc * kk) + o] == row_tokens(cv.biases)[o]);
                }
                lemma_scalar_roundtrip(cv.biases[o]);
            }
            assert(b2 =~= cv.biases);
        },
    }
}

/// A layer list's tokens, written anywhere into a longer stream, parse back
/// to the same layers with fresh caches.
pub proof fn lemma_dec_layers_at(ts: Seq<u64>, pos: int, ls: Seq<LayerV>)
    requires
        forall|i: int| 0 <= i < ls.len() ==> enc_ok_layer(#[trigger] ls[i]),
        0 <= pos,
        pos + layers_tokens(ls).len() <= ts.len(),
        ts.subrange(pos, pos + layers_tokens(ls).len()) == layers_tokens(ls),
    ensures
        dec_layers(ts, pos, ls.len()) == Some(
            (Seq::new(ls.len(), |i: int| reset_layer(ls[i])), pos + layers_tokens(ls).len()),
        ),
    decreases ls.len(),
{
    if ls.len() == 0 {
        assert(Seq::new(0nat, |i: int| reset_layer(ls[i])) =~= Seq::<LayerV>::empty());
    } else {
        let l0 = ls[0];
        let rest = ls.drop_first();
        let l0t = layer_tokens(l0);
        let rt = layers_tokens(rest);
        assert(layers_tokens(ls) == l0t + rt);
        assert(ts.subrange(pos, pos + l0t.len()) =~= l0t) by {
            assert forall|i: int| 0 <= i < l0t.len() implies ts[pos + i] == l0t[i] by {
                assert(ts.subrange(pos, pos + layers_tokens(ls).len())[i] == ts[pos + i]);
                assert(layers_tokens(ls)[i] == l0t[i]);
            }
        }
        lemma_dec_layer_at(ts, pos, l0);
        let p2 = pos + l0t.len();
        assert(ts.subrange(p2, p2 + rt.len()) =~= rt) by {
            assert forall|i: int| 0 <= i < rt.len() implies ts[p2 + i] == rt[i] by {
                assert(ts.subrange(pos, pos + layers_tokens(ls).len())[l0t.len() + i] == ts[p2
                    + i]);
                assert(layers_tokens(ls)[l0t.len() + i] == rt[i]);
            }
        }
        assert forall|i: int| 0 <= i < rest.len() implies enc_ok_layer(#[trigger] rest[i]) by {
            assert(rest[i] == ls[i + 1]);
        }
        lemma_dec_layers_at(ts, p2, rest);
        assert(seq![reset_layer(l0)] + Seq::new(rest.len(), |i: int| reset_layer(rest[i]))
            =~= Seq::new(ls.len(), |i: int| reset_layer(ls[i])));
    }
}

/// An activation tag list, written anywhere into a longer stream, parses
/// back to the same kinds with fresh caches.
#[verifier::spinoff_prover]
pub proof fn lemma_dec_acts_at(ts: Seq<u64>, pos: int, acts: Seq<ActV>)
    requires
        0 <= pos,
        pos + acts.len() <= ts.len(),
        ts.subrange(pos, pos + acts.len() as int) == acts_tokens(acts),
    ensures
        dec_acts(ts, pos, acts.len()) == Some(
            (
                Seq::new(acts.len(), |i: int| ActV { kind: acts[i].kind, cache: TensorV::Uninit }),
                pos + acts.len(),
            ),
        ),
{
    let sub = ts.subrange(pos, pos + acts.len() as int);
    assert forall|i: int| 0 <= i < acts.len() implies #[trigger] ts[pos + i] <= 2 by {
        assert(sub[i] == ts[pos + i]);
        assert(acts_tokens(acts)[i] == act_tag(acts[i].kind));
    }
    let ap = dec_acts(ts, pos, acts.len())->Some_0;
    assert forall|i: int|
        0 <= i < acts.len() implies ap.0[i] == (ActV {
        kind: acts[i].kind,
        cache: TensorV::Uninit,
    }) by {
        assert(sub[i] == ts[pos + i]);
        assert(acts_tokens(acts)[i] == act_tag(acts[i].kind));
        assert(kind_of_tag(act_tag(acts[i].kind)) == acts[i].kind);
    }
    assert(ap.0 =~= Seq::new(
        acts.len(),
        |i: int| ActV { kind: acts[i].kind, cache: TensorV::Uninit },
    ));
}

/// Loading what `save` wrote gives back the same network with fresh caches.
#[verifier::rlimit(100)]
#[verifier::spinoff_prover]
pub proof fn law_save_load_roundtrip(n: NetV)
    requires
        enc_ok(n),
    ensures
        spec_load(enc_net(n)) == Some(reset_net(n)),
{
    let ts = net_tokens(n);
    let bs = enc_net(n);
    lemma_tokens_bytes_roundtrip(ts);
    assert(bs.len() % 8 == 0) by {
        assert(bs.len() == ts.len() * 8);
        vstd::arithmetic::div_mod::lemma_mod_multiples_basic(ts.len() as int, 8);
    }
    assert(tokens_of_bytes(bs) == ts);
    let llen = layers_tokens(n.layers).len() as int;
    assert(ts.len() == 1 + llen + 1 + n.acts.len());
    assert(ts[0] == n.layers.len() as u64);
    assert(ts[0] as int == n.layers.len() as int);
    assert(ts.subrange(1, 1 + llen) =~= layers_tokens(n.layers)) by {
        assert forall|i: int|
            0 <= i < llen implies ts.subrange(1, 1 + llen)[i] == layers_tokens(n.layers)[i] by {
            assert(ts.subrange(1, 1 + llen)[i] == ts[1 + i]);
            assert(ts[1 + i] == layers_tokens(n.layers)[i]);
        }
    }
    lemma_dec_layers_at(ts, 1, n.layers);
    let p = 1 + llen;
    assert(ts[p] == n.acts.len() as u64);
    assert(ts.subrange(p + 1, p + 1 + n.acts.len() as int) =~= acts_tokens(n.acts)) by {
        assert forall|i: int|
            0 <= i < n.acts.len() implies ts.subrange(p + 1, p + 1 + n.acts.len() as int)[i]
            == acts_tokens(n.acts)[i] by {
            assert(ts.subrange(p + 1, p + 1 + n.acts.len() as int)[i] == ts[p + 1 + i]);
            assert(ts[p + 1 + i] == acts_tokens(n.acts)[i]);
        }
    }
    lemma_dec_acts_at(ts, p + 1, n.acts);
    let ap = dec_acts(ts, p + 1, n.acts.len())->Some_0;
    assert(ap.1 == ts.len());
    assert(reset_net(n).layers =~= Seq::new(n.layers.len(), |i: int| reset_layer(n.layers[i])));
    assert(reset_net(n).acts =~= ap.0);
    assert(dec_net(ts) == Some(reset_net(n)));
}

/// Reassemble the 64-bit tokens of a byte buffer; a trailing partial token
/// is a failure.
fn bytes_to_tokens(bytes: &Vec<u8>) -> (r: Result<Vec<u64>, NNError>)
    ensures
        match r {
            Ok(ts) => bytes@.len() % 8 == 0 && ts@ == tokens_of_bytes(bytes@),
            Err(e) => e == NNError::SerializationError && bytes@.len() % 8 != 0,
        },
{
    if bytes.len() % 8 != 0 {
        return Err(NNError::SerializationError);
    }
    let n = bytes.len() / 8;
    proof {
        vstd::std_specs::vec::axiom_spec_len(bytes);
    }
    let mut out: Vec<u64> = Vec::new();
    let mut i: usize = 0;
    proof {
        assert(out@ =~= tokens_of_bytes(bytes@).take(0));
    }
    while i < n
        invariant
            bytes@.len() % 8 == 0,
            bytes@.len() <= usize::MAX,
            n == bytes@.len() / 8,
            i <= n,
            out@ == tokens_of_bytes(bytes@).take(i as int),
        decreases n - i,
    {
        proof {
            vstd::arithmetic::div_mod::lemma_fundamental_div_mod(bytes@.len() as int, 8);
            vstd::arithmetic::mul::lemma_mul_inequality(i as int + 1, n as int, 8);
            vstd::arithmetic::mul::lemma_mul_is_commutative(i as int + 1, 8);
            vstd::arithmetic::mul::lemma_mul_is_commutative(i as int, 8);
            vstd::arithmetic::mul::lemma_mul_is_commutative(n as int, 8);
            assert((i as int + 1) * 8 == (i as int) * 8 + 8) by (nonlinear_arith);
            vstd::arithmetic::mul::lemma_mul_nonnegative(i as int, 8);
        }
        let p = 8 * i;
        let tok = (bytes[p] as u64) | ((bytes[p + 1] as u64) << 8u64) | ((bytes[p + 2] as u64)
            << 16u64) | ((bytes[p + 3] as u64) << 24u64) | ((bytes[p + 4] as u64) << 32u64) | ((
        bytes[p + 5] as u64) << 40u64) | ((bytes[p + 6] as u64) << 48u64) | ((bytes[p + 7] as u64)
            << 56u64);
        out.push(tok);
        proof {
            reveal(le_u64_at);
            assert(tok == le_u64_at(bytes@, 8 * (i as int)));
            assert(out@ =~= tokens_of_bytes(bytes@).take(i + 1));
        }
        i = i + 1;
    }
    proof {
        assert(tokens_of_bytes(bytes@).take(tokens_of_bytes(bytes@).len() as int)
            =~= tokens_of_bytes(bytes@));
    }
    Ok(out)
}

/// Read `cnt` tokens starting at `pos` as scalars.
fn read_row(ts: &Vec<u64>, pos: usize, cnt: usize) -> (r: Vec<i64>)
    requires
        pos + cnt <= ts@.len(),
    ensures
        r@ == Seq::new(cnt as nat, |i: int| ts@[pos + i] as i64),
{
    let mut out: Vec<i64> = Vec::new();
    let mut i: usize = 0;
    proof {
        vstd::std_specs::vec::axiom_spec_len(ts);
    }
    while i < cnt
        invariant
            pos + cnt <= ts@.len(),
            ts@.len() <= usize::MAX,
            i <= cnt,
            out@.len() == i,
            forall|t: int| 0 <= t < i ==> out@[t] == ts@[pos + t] as i64,
        decreases cnt - i,
    {
        out.push(ts[pos + i] as i64);
        i = i + 1;
    }
    proof {
        assert(out@ =~= Seq::new(cnt as nat, |i: int| ts@[pos + i] as i64));
    }
    out
}

/// Parse one layer at token position `pos`.
fn dec_layer_exec(ts: &Vec<u64>, pos: usize) -> (r: Result<(LayerType, usize), NNError>)
    requires
        pos <= ts@.len(),
    ensures
        match dec_layer(ts@, pos as int) {
            Some(lp) => {
                &&& r is Ok
                &&& r->Ok_0.0@ == lp.0
                &&& r->Ok_0.1 == lp.1
                &&& lp.1 <= ts@.len()
                &&& r->Ok_0.0@.wf()
            },
            None => r == Err::<(LayerType, usize), NNError>(NNError::SerializationError),
        },
{
    proof {
        reveal(dec_layer);
        vstd::std_specs::vec::axiom_spec_len(ts);
    }
    if ts.len() - pos < 1 {
        return Err(NNError::SerializationError);
    }
    let tag = ts[pos];
    if tag == 0 {
        if ts.len() - pos < 3 {
            return Err(NNError::SerializationError);
        }
        let n_in_t = ts[pos + 1];
        let n_out_t = ts[pos + 2];
        if n_in_t > (usize::MAX as u64) || n_out_t > (usize::MAX as u64) {
            return Err(NNError::SerializationError);
        }
        let n_in = n_in_t as usize;
        let n_out = n_out_t as usize;
        let wc = match n_out.checked_mul(n_in) {
            Some(v) => v,
            None => {
                return Err(NNError::SerializationError);
            },
        };
        let avail = ts.len() - (pos + 3);
        if wc > avail || n_out > avail - wc {
            return Err(NNError::SerializationError);
        }
        let mut weights: Vec<Vec<i64>> = Vec::new();
        let mut j: usize = 0;
        while j < n_out
            invariant
                pos + 3 + wc + n_out <= ts@.len(),
                ts@.len() <= usize::MAX,
                wc == n_out * n_in,
                j <= n_out,
                weights@.len() == j,
                forall|t: int|
                    0 <= t < j ==> (#[trigger] weights@[t])@ == Seq::new(
                        n_in as nat,
                        |i2: int| ts@[pos + 3 + t * (n_in as int) + i2] as i64,
                    ),
            decreases n_out - j,
        {
            proof {
                vstd::arithmetic::mul::lemma_mul_inequality(
                    j as int + 1,
                    n_out as int,
                    n_in as int,
                );
                assert((j as int + 1) * (n_in as int) == (j as int) * (n_in as int) + n_in)
                    by (nonlinear_arith);
                vstd::arithmetic::mul::lemma_mul_nonnegative(j as int, n_in as int);
            }
            let row = read_row(ts, pos + 3 + j * n_in, n_in);
            weights.push(row);
            j = j + 1;
        }
        let biases = read_row(ts, pos + 3 + wc, n_out);
        let layer = match DenseLayer::with_params(weights, biases, n_in) {
            Ok(l) => l,
            Err(_) => {
                proof {
                    assert(false);
                }
                return Err(NNError::SerializationError);
            },
        };
        proof {
            let lp = dec_layer(ts@, pos as int)->Some_0;
            mat_deep(layer.weights);
            assert forall|t: int|
                0 <= t < n_out implies layer@.weights[t] == lp.0->Dense_0.weights[t] by {
                assert(layer@.weights[t] =~= lp.0->Dense_0.weights[t]);
            }
            assert(layer@.weights =~= lp.0->Dense_0.weights);
            assert(layer@.biases =~= lp.0->Dense_0.biases);
            assert(layer@.input =~= lp.0->Dense_0.input);
        }
        Ok((LayerType::Dense(layer), pos + 3 + wc + n_out))
    } else if tag == 1 {
        if ts.len() - pos < 6 {
            return Err(NNError::SerializationError);
        }
        let c_t = ts[pos + 1];
        let h_t = ts[pos + 2];
        let w_t = ts[pos + 3];
        let oc_t = ts[pos + 4];
        let k_t = ts[pos + 5];
        if c_t > (usize::MAX as u64) || h_t > (usize::MAX as u64) || w_t > (usize::MAX as u64)
            || oc_t > (usize::MAX as u64) || k_t > (usize::MAX as u64) {
            return Err(NNError::SerializationError);
        }
        let c = c_t as usize;
        let h = h_t as usize;
        let w = w_t as usize;
        let oc = oc_t as usize;
        let k = k_t as usize;
        if k < 1 || k > h || k > w {
            return Err(NNError::SerializationError);
        }
        let hw = match h.checked_mul(w) {
            Some(v) => v,
            None => {
                return Err(NNError::SerializationError);
            },
        };
        if c.checked_mul(hw).is_none() {
            return Err(NNError::SerializationError);
        }
        let oh = h - k + 1;
        let ow = w - k + 1;
        let ohw = match oh.checked_mul(ow) {
            Some(v) => v,
            None => {
                return Err(NNError::SerializationError);
            },
        };
        if oc.checked_mul(ohw).is_none() {
            return Err(NNError::SerializationError);
        }
        let kk = match k.checked_mul(k) {
            Some(v) => v,
            None => {
                return Err(NNError::SerializationError);
            },
        };
        let okk = match oc.checked_mul(kk) {
            Some(v) => v,
            None => {
                return Err(NNError::SerializationError);
            },
        };
        let ckk = match c.checked_mul(okk) {
            Some(v) => v,
            None => {
                return Err(NNError::SerializationError);
            },
        };
        let avail = ts.len() - (pos + 6);
        if ckk > avail || oc > avail - ckk {
            return Err(NNError::SerializationError);
        }
        let mut kernels: Vec<Vec<Vec<i64>>> = Vec::new();
        let mut ic: usize = 0;
        while ic < c
            invariant
                pos + 6 + ckk + oc <= ts@.len(),
                ts@.len() <= usize::MAX,
                okk == oc * kk,
                ckk == c * okk,
                kk == k * k,
                ic <= c,
                kernels@.len() == ic,
                forall|t: int, o: int|
                    0 <= t < ic && 0 <= o < oc ==> (#[trigger] kernels@[t]@[o])@ == Seq::new(
                        kk as nat,
                        |u: int| ts@[pos + 6 + t * ((oc * kk) as int) + o * (kk as int) + u] as i64,
                    ),
                forall|t: int| 0 <= t < ic ==> (#[trigger] kernels@[t])@.len() == oc,
            decreases c - ic,
        {
            let mut bank: Vec<Vec<i64>> = Vec::new();
            let mut o: usize = 0;
            proof {
                vstd::arithmetic::mul::lemma_mul_inequality(
                    ic as int + 1,
                    c as int,
                    okk as int,
                );
                assert((ic as int + 1) * (okk as int) == (ic as int) * (okk as int) + okk)
                    by (nonlinear_arith);
                vstd::arithmetic::mul::lemma_mul_nonnegative(ic as int, okk as int);
            }
            while o < oc
                invariant
                    pos + 6 + ckk + oc <= ts@.len(),
                    ts@.len() <= usize::MAX,
                    okk == oc * kk,
                    ckk == c * okk,
                    kk == k * k,
                    ic < c,
                    ic * okk + okk <= ckk,
                    ic * okk >= 0,
                    o <= oc,
                    bank@.len() == o,
                    forall|u: int|
                        0 <= u < o ==> (#[trigger] bank@[u])@ == Seq::new(
                            kk as nat,
                            |t2: int| ts@[pos + 6 + (ic as int) * ((oc * kk) as int) + u * (
                            kk as int) + t2] as i64,
                        ),
                decreases oc - o,
            {
                proof {
                    vstd::arithmetic::mul::lemma_mul_inequality(
                        o as int + 1,
                        oc as int,
                        kk as int,
                    );
                    assert((o as int + 1) * (kk as int) == (o as int) * (kk as int) + kk)
                        by (nonlinear_arith);
                    vstd::arithmetic::mul::lemma_mul_nonnegative(o as int, kk as int);
                }
                let block = read_row(ts, pos + 6 + ic * okk + o * kk, kk);
                bank.push(block);
                o = o + 1;
            }
            kernels.push(bank);
            ic = ic + 1;
        }
        let biases = read_row(ts, pos + 6 + ckk, oc);
        let layer = match ConvolutionLayer::with_params((c, h, w), (oc, k), kernels, biases) {
            Ok(l) => l,
            Err(_) => {
                proof {
                    assert(false);
                }
                return Err(NNError::SerializationError);
            },
        };
        proof {
            let lp = dec_layer(ts@, pos as int)->Some_0;
            cube_deep(layer.kernels);
            assert forall|t: int, o: int|
                0 <= t < c && 0 <= o < oc implies layer@.kernels[t][o] == lp.0
                ->Conv_0.kernels[t][o] by {
                assert(layer@.kernels[t] == layer.kernels@[t].deep_view());
                assert(layer@.kernels[t][o] == layer.kernels@[t]@[o]@);
                assert(layer@.kernels[t][o] =~= lp.0->Conv_0.kernels[t][o]);
            }
            assert forall|t: int| 0 <= t < c implies layer@.kernels[t] == lp.0
                ->Conv_0.kernels[t] by {
                assert(layer@.kernels[t] =~= lp.0->Conv_0.kernels[t]);
            }
            assert(layer@.kernels =~= lp.0->Conv_0.kernels);
            assert(layer@.biases =~= lp.0->Conv_0.biases);
            assert(layer@.input =~= lp.0->Conv_0.input);
        }
        Ok((LayerType::Conv(layer), pos + 6 + ckk + oc))
    } else {
        Err(NNError::SerializationError)
    }
}

impl Network {
    /// Deserialize a network from a byte buffer written by
    /// [`Network::save`]. Truncated or malformed data is a
    /// [`NNError::SerializationError`].
    pub fn from_bytes(bytes: &Vec<u8>) -> (r: Result<Network, NNError>)
        ensures
            match spec_load(bytes@) {
                Some(n) => {
                    &&& r is Ok
                    &&& r->Ok_0@ == n
                    &&& n.layers_wf()
                },
                None => r == Err::<Network, NNError>(NNError::SerializationError),
            },
    {
        let toks = match bytes_to_tokens(bytes) {
            Ok(v) => v,
            Err(e) => {
                return Err(e);
            },
        };
        if toks.len() < 1 {
            return Err(NNError::SerializationError);
        }
        let lcnt_t = toks[0];
        if lcnt_t > (usize::MAX as u64) {
            return Err(NNError::SerializationError);
        }
        let lcnt = lcnt_t as usize;
        let mut layers: Vec<LayerType> = Vec::new();
        let mut pos: usize = 1;
        let mut i: usize = 0;
        while i < lcnt
            invariant
                toks@ == tokens_of_bytes(bytes@),
                bytes@.len() % 8 == 0,
                toks@.len() >= 1,
                lcnt == toks@[0] as int,
                i <= lcnt,
                pos <= toks@.len(),
                layers@.len() == i,
                dec_layers(toks@, 1, lcnt as nat) == match dec_layers(
                    toks@,
                    pos as int,
                    (lcnt - i) as nat,
                ) {
                    None => None::<(Seq<LayerV>, int)>,
                    Some(sp) => Some(
                        (Seq::new(layers@.len(), |t: int| layers@[t]@) + sp.0, sp.1),
                    ),
                },
                forall|t: int| 0 <= t < i ==> (#[trigger] layers@[t])@.wf(),
            decreases lcnt - i,
        {
            let (l, p2) = match dec_layer_exec(&toks, pos) {
                Ok(v) => v,
                Err(e) => {
                    proof {
                        assert(dec_layers(toks@, pos as int, (lcnt - i) as nat) is None);
                    }
                    return Err(NNError::SerializationError);
                },
            };
            layers.push(l);
            pos = p2;
            i = i + 1;
            proof {
                let prev = Seq::new((layers@.len() - 1) as nat, |t: int| layers@[t]@);
                let now = Seq::new(layers@.len(), |t: int| layers@[t]@);
                assert(now =~= prev + seq![l@]);
                assert forall|sp0: Seq<LayerV>| true implies (prev + (seq![l@] + sp0)) =~= (now
                    + sp0) by {}
            }
        }
        proof {
            assert(dec_layers(toks@, pos as int, 0) == Some::<(Seq<LayerV>, int)>(
                (Seq::empty(), pos as int),
            ));
        }
        if toks.len() - pos < 1 {
            return Err(NNError::SerializationError);
        }
        let acnt_t = toks[pos];
        if acnt_t > (usize::MAX as u64) {
            return Err(NNError::SerializationError);
        }
        let acnt = acnt_t as usize;
        if acnt > toks.len() - (pos + 1) {
            return Err(NNError::SerializationError);
        }
        let mut activations: Vec<ActivationFn> = Vec::new();
        let mut j: usize = 0;
        let ghost apos = pos + 1;
        proof {
            vstd::std_specs::vec::axiom_spec_len(&toks);
        }
        while j < acnt
            invariant
                toks@ == tokens_of_bytes(bytes@),
                bytes@.len() % 8 == 0,
                toks@.len() >= 1,
                lcnt == toks@[0] as int,
                dec_layers(toks@, 1, lcnt as nat) is Some,
                dec_layers(toks@, 1, lcnt as nat)->Some_0.1 == pos as int,
                dec_layers(toks@, 1, lcnt as nat)->Some_0.0 == Seq::new(
                    layers@.len(),
                    |t: int| layers@[t]@,
                ),
                forall|t: int| 0 <= t < layers@.len() ==> (#[trigger] layers@[t])@.wf(),
                acnt == toks@[pos as int] as int,
                apos == pos + 1,
                pos + 1 + acnt <= toks@.len(),
                toks@.len() <= usize::MAX,
                j <= acnt,
                activations@.len() == j,
                forall|t: int| 0 <= t < j ==> #[trigger] toks@[apos + t] <= 2,
                forall|t: int|
                    0 <= t < j ==> (#[trigger] activations@[t])@ == (ActV {
                        kind: kind_of_tag(toks@[apos + t]),
                        cache: TensorV::Uninit,
                    }),
            decreases acnt - j,
        {
            let tag = toks[pos + 1 + j];
            if tag == 0 {
                activations.push(ActivationFn::Tanh(Tanh::default()));
            } else if tag == 1 {
                activations.push(ActivationFn::Sigmoid(Sigmoid::default()));
            } else if tag == 2 {
                activations.push(ActivationFn::Relu(Relu::default()));
            } else {
                proof {
                    assert(toks@[apos + j] > 2);
                    assert(dec_acts(toks@, apos, acnt as nat) is None);
                }
                return Err(NNError::SerializationError);
            }
            j = j + 1;
        }
        if pos + 1 + acnt != toks.len() {
            proof {
                assert(dec_acts(toks@, apos, acnt as nat) matches Some(ap) ==> ap.1 != toks@.len());
            }
            return Err(NNError::SerializationError);
        }
        let r = Network { layers, activations };
        proof {
            assert(dec_acts(toks@, apos, acnt as nat) is Some);
            let ap = dec_acts(toks@, apos, acnt as nat)->Some_0;
            assert(r@.acts =~= ap.0);
            let lp = dec_layers(toks@, 1, lcnt as nat)->Some_0;
            assert(r@.layers =~= lp.0);
            assert(spec_load(bytes@) == Some(r@));
            assert forall|t: int| 0 <= t < r@.layers.len() implies (
            #[trigger] r@.layers[t]).wf() by {
                assert(r@.layers[t] == layers@[t]@);
            }
        }
        Ok(r)
    }

    /// Replace this network with one deserialized from a byte slice.
    #[verifier::rlimit(60)]
    pub fn from_slice(&mut self, slice: &[u8]) -> (r: Result<(), NNError>)
        ensures
            match spec_load(slice@) {
                Some(n) => {
                    &&& r is Ok
                    &&& final(self)@ == n
                },
                None => {
                    &&& r == Err::<(), NNError>(NNError::SerializationError)
                    &&& final(self)@ == old(self)@
                },
            },
    {
        let mut buf: Vec<u8> = Vec::new();
        let mut i: usize = 0;
        while i < slice.len()
            invariant
                i <= slice@.len(),
                buf@ == slice@.take(i as int),
            decreases slice@.len() - i,
        {
            buf.push(slice[i]);
            proof {
                assert(buf@ =~= slice@.take(i + 1));
            }
            i = i + 1;
        }
        proof {
            assert(slice@.take(slice@.len() as int) =~= slice@);
        }
        match Network::from_bytes(&buf) {
            Ok(n) => {
                *self = n;
                Ok(())
            },
            Err(e) => Err(e),
        }
    }
}

} // verus!
