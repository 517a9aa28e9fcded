//! The tensor value flowing between stages, and the closed set of layer
//! variants.

use crate::convolution::ConvolutionLayer;
use crate::dense::DenseLayer;
use vstd::prelude::*;

verus! {

/// Mathematical model of a tensor value: a flat vector, a sequence of
/// flattened 2D channels, or the sentinel before any forward pass.
pub enum TensorV {
    Dense(Seq<i64>),
    Conv(Seq<Seq<i64>>),
    Uninit,
}

/// The value a stage hands to the next one. `Uninit` is the state of an
/// activation cache before any forward pass; reading it in a backward pass
/// is a [`crate::NNError::StateError`].
#[derive(Debug)]
pub enum LayerOutput {
    Conv(Vec<Vec<i64>>),
    Dense(Vec<i64>),
    Uninit,
}

impl View for LayerOutput {
    type V = TensorV;

    open spec fn view(&self) -> TensorV {
        match self {
            LayerOutput::Conv(v) => TensorV::Conv(v.deep_view()),
            LayerOutput::Dense(v) => TensorV::Dense(v.deep_view()),
            LayerOutput::Uninit => TensorV::Uninit,
        }
    }
}

impl Clone for LayerOutput {
    /// A clone models the same tensor value.
    fn clone(&self) -> (r: Self)
        ensures
            r@ == self@,
    {
        match self {
            LayerOutput::Conv(v) => {
                let c = clone_mat(v);
                LayerOutput::Conv(c)
            },
            LayerOutput::Dense(v) => {
                let c = clone_row(v);
                LayerOutput::Dense(c)
            },
            LayerOutput::Uninit => LayerOutput::Uninit,
        }
    }
}

/// Clone a scalar vector; the copy models the same sequence.
pub(crate) fn clone_row(v: &Vec<i64>) -> (r: Vec<i64>)
    ensures
        r@ == v@,
{
    let c = v.clone();
    proof {
        assert(c@ =~= v@);
    }
    c
}

/// Clone a vector of scalar vectors; the copy models the same sequences.
pub(crate) fn clone_mat(v: &Vec<Vec<i64>>) -> (r: Vec<Vec<i64>>)
    ensures
        r.deep_view() == v.deep_view(),
        r@.len() == v@.len(),
{
    let mut out: Vec<Vec<i64>> = Vec::new();
    let mut i: usize = 0;
    while i < v.len()
        invariant
            i <= v@.len(),
            out@.len() == i,
            forall|j: int| 0 <= j < i ==> out.deep_view()[j] == v.deep_view()[j],
        decreases v@.len() - i,
    {
        out.push(clone_row(&v[i]));
        i = i + 1;
    }
    proof {
        assert(out.deep_view() =~= v.deep_view());
    }
    out
}

/// Clone a three-deep vector of scalars; the copy models the same sequences.
pub(crate) fn clone_cube(v: &Vec<Vec<Vec<i64>>>) -> (r: Vec<Vec<Vec<i64>>>)
    ensures
        r.deep_view() == v.deep_view(),
        r@.len() == v@.len(),
{
    let mut out: Vec<Vec<Vec<i64>>> = Vec::new();
    let mut i: usize = 0;
    while i < v.len()
        invariant
            i <= v@.len(),
            out@.len() == i,
            forall|j: int| 0 <= j < i ==> out.deep_view()[j] == v.deep_view()[j],
        decreases v@.len() - i,
    {
        out.push(clone_mat(&v[i]));
        i = i + 1;
    }
    proof {
        assert(out.deep_view() =~= v.deep_view());
    }
    out
}

/// Channels flattened into one vector, in channel-major order.
pub open spec fn flat_chans(ch: Seq<Seq<i64>>) -> Seq<i64>
    decreases ch.len(),
{
    if ch.len() == 0 {
        Seq::empty()
    } else {
        flat_chans(ch.drop_last()) + ch.last()
    }
}

/// Flatten a multi-channel value into one vector, channel-major.
pub fn flatten_mat(v: &Vec<Vec<i64>>) -> (r: Vec<i64>)
    ensures
        r@ == flat_chans(v.deep_view()),
{
    let mut out: Vec<i64> = Vec::new();
    let mut i: usize = 0;
    proof {
        assert(out@ =~= flat_chans(v.deep_view().subrange(0, 0)));
    }
    while i < v.len()
        invariant
            i <= v@.len(),
            out@ == flat_chans(v.deep_view().subrange(0, i as int)),
        decreases v@.len() - i,
    {
        let row = &v[i];
        proof {
            crate::views::mat_deep(*v);
            assert(out@ =~= flat_chans(v.deep_view().subrange(0, i as int)) + row@.subrange(
                0,
                0,
            ));
        }
        let mut t: usize = 0;
        while t < row.len()
            invariant
                i < v@.len(),
                row@ == v@[i as int]@,
                t <= row@.len(),
                out@ == flat_chans(v.deep_view().subrange(0, i as int)) + row@.subrange(
                    0,
                    t as int,
                ),
            decreases row@.len() - t,
        {
            out.push(row[t]);
            proof {
                assert(out@ =~= flat_chans(v.deep_view().subrange(0, i as int)) + row@.subrange(
                    0,
                    t + 1,
                ));
            }
            t = t + 1;
        }
        proof {
            crate::views::mat_deep(*v);
            let dv = v.deep_view();
            assert(dv.subrange(0, i + 1).drop_last() =~= dv.subrange(0, i as int));
            assert(dv.subrange(0, i + 1).last() == dv[i as int]);
            assert(row@.subrange(0, row@.len() as int) =~= row@);
            assert(out@ == flat_chans(dv.subrange(0, i + 1)));
        }
        i = i + 1;
    }
    proof {
        assert(v.deep_view().subrange(0, v@.len() as int) =~= v.deep_view());
    }
    out
}

/// Mathematical model of a layer.
pub enum LayerV {
    Dense(crate::dense::DenseV),
    Conv(crate::convolution::ConvV),
}

impl LayerV {
    /// Internal consistency of a layer's parameters and cache.
    pub open spec fn wf(self) -> bool {
        match self {
            LayerV::Dense(d) => d.wf(),
            LayerV::Conv(c) => c.wf(),
        }
    }
}

/// The closed set of layer variants.
#[derive(Debug)]
pub enum LayerType {
    Dense(DenseLayer),
    Conv(ConvolutionLayer),
}

impl View for LayerType {
    type V = LayerV;

    open spec fn view(&self) -> LayerV {
        match self {
            LayerType::Dense(l) => LayerV::Dense(l@),
            LayerType::Conv(l) => LayerV::Conv(l@),
        }
    }
}

impl Clone for LayerType {
    /// A clone models the same layer.
    fn clone(&self) -> (r: Self)
        ensures
            r@ == self@,
    {
        match self {
            LayerType::Dense(l) => LayerType::Dense(l.clone()),
            LayerType::Conv(l) => LayerType::Conv(l.clone()),
        }
    }
}

} // verus!
