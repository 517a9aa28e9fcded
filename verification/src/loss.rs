//! Loss functions over (truth, prediction) vector pairs.

use crate::fixed::{add_fx, div_count_fx, fx_add, fx_div_count, fx_mul, fx_sub, mul_fx, sub_fx,
    sum_fx, sum_prefix};
use crate::NNError;
use vstd::prelude::*;

verus! {

/// Both vectors share one positive length.
pub open spec fn loss_shape_ok(truth: Seq<i64>, prediction: Seq<i64>) -> bool {
    truth.len() == prediction.len() && truth.len() > 0
}

/// The squared differences `(t[i] - p[i])^2`.
pub open spec fn sq_diff_seq(truth: Seq<i64>, prediction: Seq<i64>) -> Seq<i64>
    recommends
        truth.len() == prediction.len(),
{
    Seq::new(truth.len(), |i: int| fx_mul(fx_sub(truth[i], prediction[i]), fx_sub(truth[i], prediction[i])))
}

/// Mean squared error: `(1/n) * sum (t - p)^2`.
pub open spec fn spec_mse(truth: Seq<i64>, prediction: Seq<i64>) -> i64
    recommends
        loss_shape_ok(truth, prediction),
{
    fx_div_count(sum_fx(sq_diff_seq(truth, prediction)), truth.len() as usize)
}

/// Gradient of the mean squared error: `2 * (p[i] - t[i]) / n`.
pub open spec fn spec_mse_grad(truth: Seq<i64>, prediction: Seq<i64>) -> Seq<i64>
    recommends
        loss_shape_ok(truth, prediction),
{
    Seq::new(
        truth.len(),
        |i: int|
            fx_div_count(
                fx_add(fx_sub(prediction[i], truth[i]), fx_sub(prediction[i], truth[i])),
                truth.len() as usize,
            ),
    )
}

/// A pairwise loss over (truth, prediction) vectors: a scalar loss and the
/// gradient seed fed backward through a network. Both fail with a
/// [`NNError::ShapeError`] unless the vectors share one positive length.
pub trait Loss: Sized {
    /// What [`Loss::loss`] returns.
    spec fn spec_loss(&self, truth: Seq<i64>, prediction: Seq<i64>) -> Result<i64, NNError>;

    /// What [`Loss::loss_prime`] returns.
    spec fn spec_grad(&self, truth: Seq<i64>, prediction: Seq<i64>) -> Result<Seq<i64>, NNError>;

    /// The scalar loss of a prediction against the truth.
    fn loss(&self, truth: &Vec<i64>, prediction: &Vec<i64>) -> (r: Result<i64, NNError>)
        ensures
            r == self.spec_loss(truth@, prediction@),
    ;

    /// The gradient of the loss with respect to the prediction.
    fn loss_prime(&self, truth: &Vec<i64>, prediction: &Vec<i64>) -> (r: Result<Vec<i64>, NNError>)
        ensures
            match self.spec_grad(truth@, prediction@) {
                Ok(g) => r is Ok && r->Ok_0@ == g,
                Err(e) => r == Err::<Vec<i64>, NNError>(e),
            },
    ;
}

/// Mean-squared-error loss.
#[derive(Debug, PartialEq, Eq, Structural, Clone, Copy)]
pub struct MSE;

impl Loss for MSE {
    /// The mean squared error, or a shape failure.
    open spec fn spec_loss(&self, truth: Seq<i64>, prediction: Seq<i64>) -> Result<i64, NNError> {
        if loss_shape_ok(truth, prediction) {
            Ok(spec_mse(truth, prediction))
        } else {
            Err(NNError::ShapeError)
        }
    }

    /// The per-component gradient `2 * (p - t) / n`, or a shape failure.
    open spec fn spec_grad(&self, truth: Seq<i64>, prediction: Seq<i64>) -> Result<
        Seq<i64>,
        NNError,
    > {
        if loss_shape_ok(truth, prediction) {
            Ok(spec_mse_grad(truth, prediction))
        } else {
            Err(NNError::ShapeError)
        }
    }

    fn loss(&self, truth: &Vec<i64>, prediction: &Vec<i64>) -> (r: Result<i64, NNError>) {
        if truth.len() == 0 || truth.len() != prediction.len() {
            return Err(NNError::ShapeError);
        }
        let mut acc: i64 = 0;
        let mut i: usize = 0;
        while i < truth.len()
            invariant
                truth@.len() == prediction@.len(),
                i <= truth@.len(),
                acc == sum_prefix(sq_diff_seq(truth@, prediction@), i as int),
            decreases truth@.len() - i,
        {
            let d = sub_fx(truth[i], prediction[i]);
            acc = add_fx(acc, mul_fx(d, d));
            i = i + 1;
        }
        Ok(div_count_fx(acc, truth.len()))
    }

    fn loss_prime(&self, truth: &Vec<i64>, prediction: &Vec<i64>) -> (r: Result<
        Vec<i64>,
        NNError,
    >) {
        if truth.len() == 0 || truth.len() != prediction.len() {
            return Err(NNError::ShapeError);
        }
        let n = truth.len();
        let mut out: Vec<i64> = Vec::new();
        let mut i: usize = 0;
        while i < truth.len()
            invariant
                truth@.len() == prediction@.len(),
                n == truth@.len(),
                n > 0,
                i <= truth@.len(),
                out@.len() == i,
                forall|t: int|
                    0 <= t < i ==> out@[t] == fx_div_count(
                        fx_add(
                            fx_sub(prediction@[t], truth@[t]),
                            fx_sub(prediction@[t], truth@[t]),
                        ),
                        n,
                    ),
            decreases truth@.len() - i,
        {
            let d = sub_fx(prediction[i], truth[i]);
            out.push(div_count_fx(add_fx(d, d), n));
            i = i + 1;
        }
        proof {
            assert(out@ =~= spec_mse_grad(truth@, prediction@));
        }
        Ok(out)
    }
}

} // verus!
