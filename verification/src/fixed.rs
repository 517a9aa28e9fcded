//! Fixed-point scalar arithmetic.
//!
//! A scalar is an `i64` whose value is the stored integer divided by
//! [`SCALE`]. Addition and subtraction saturate at the `i64` bounds;
//! multiplication and division rescale, truncate toward zero and then
//! saturate. The spec functions here are the reference semantics that every
//! contract in the crate speaks of.

use vstd::prelude::*;

verus! {

/// Number of fixed-point steps per unit: scalar `x` represents `x / SCALE`.
pub const SCALE: i64 = 65536;

/// Clamp a mathematical integer into the `i64` range.
pub open spec fn sat(x: int) -> int {
    if x > i64::MAX {
        i64::MAX as int
    } else if x < i64::MIN {
        i64::MIN as int
    } else {
        x
    }
}

/// Division truncated toward zero, for a positive divisor.
pub open spec fn tdiv(x: int, d: int) -> int
    recommends
        d > 0,
{
    if x >= 0 {
        x / d
    } else {
        -((-x) / d)
    }
}

/// Saturating fixed-point addition.
pub open spec fn fx_add(a: i64, b: i64) -> i64 {
    sat(a + b) as i64
}

/// Saturating fixed-point subtraction.
pub open spec fn fx_sub(a: i64, b: i64) -> i64 {
    sat(a - b) as i64
}

/// Fixed-point multiplication: rescale the double-width product.
pub open spec fn fx_mul(a: i64, b: i64) -> i64 {
    sat(tdiv(a * b, SCALE as int)) as i64
}

/// Divide a fixed-point value by a positive integer count.
pub open spec fn fx_divn(a: i64, n: i64) -> i64
    recommends
        n > 0,
{
    sat(tdiv(a as int, n as int)) as i64
}

/// Divide a fixed-point value by a positive element count.
pub open spec fn fx_div_count(a: i64, n: usize) -> i64
    recommends
        n > 0,
{
    sat(tdiv(a as int, n as int)) as i64
}

/// Fixed-point division by a positive fixed-point value.
pub open spec fn fx_div(a: i64, b: i64) -> i64
    recommends
        b >= 1,
{
    sat(tdiv(a * SCALE, b as int)) as i64
}

/// Mean of two fixed-point values, truncated toward zero.
pub open spec fn fx_avg(a: i64, b: i64) -> i64 {
    sat(tdiv(a + b, 2)) as i64
}

/// Saturating fixed-point addition.
pub fn add_fx(a: i64, b: i64) -> (r: i64)
    ensures
        r == fx_add(a, b),
{
    let s: i128 = a as i128 + b as i128;
    clamp_i128(s)
}

/// Saturating fixed-point subtraction.
pub fn sub_fx(a: i64, b: i64) -> (r: i64)
    ensures
        r == fx_sub(a, b),
{
    let s: i128 = a as i128 - b as i128;
    clamp_i128(s)
}

/// Fixed-point multiplication with truncation toward zero.
pub fn mul_fx(a: i64, b: i64) -> (r: i64)
    ensures
        r == fx_mul(a, b),
{
    proof {
        lemma_i64_mul_fits(a as int, b as int);
    }
    let p: i128 = (a as i128) * (b as i128);
    let q = tdiv_i128(p, SCALE as i128);
    clamp_i128(q)
}

/// Divide a fixed-point value by a positive integer count.
pub fn divn_fx(a: i64, n: i64) -> (r: i64)
    requires
        n > 0,
    ensures
        r == fx_divn(a, n),
{
    let q = tdiv_i128(a as i128, n as i128);
    clamp_i128(q)
}

/// Divide a fixed-point value by a positive element count.
pub fn div_count_fx(a: i64, n: usize) -> (r: i64)
    requires
        n > 0,
    ensures
        r == fx_div_count(a, n),
{
    let q = tdiv_i128(a as i128, n as i128);
    clamp_i128(q)
}

/// Fixed-point division by a positive fixed-point value.
pub fn div_fx(a: i64, b: i64) -> (r: i64)
    requires
        b >= 1,
    ensures
        r == fx_div(a, b),
{
    proof {
        lemma_i64_mul_fits(a as int, SCALE as int);
    }
    let p: i128 = (a as i128) * (SCALE as i128);
    let q = tdiv_i128(p, b as i128);
    clamp_i128(q)
}

/// Mean of two fixed-point values, truncated toward zero.
pub fn avg_fx(a: i64, b: i64) -> (r: i64)
    ensures
        r == fx_avg(a, b),
{
    let s: i128 = a as i128 + b as i128;
    let q = tdiv_i128(s, 2);
    clamp_i128(q)
}

/// The product of two values in the `i64` range fits in an `i128`.
pub proof fn lemma_i64_mul_fits(a: int, b: int)
    requires
        i64::MIN <= a <= i64::MAX,
        i64::MIN <= b <= i64::MAX,
    ensures
        i128::MIN <= a * b <= i128::MAX,
{
    assert(i128::MIN <= a * b <= i128::MAX) by (nonlinear_arith)
        requires
            -0x8000_0000_0000_0000 <= a <= 0x7fff_ffff_ffff_ffff,
            -0x8000_0000_0000_0000 <= b <= 0x7fff_ffff_ffff_ffff,
    ;
}

/// A truncated quotient lies between zero and the dividend.
pub proof fn lemma_tdiv_bounds(x: int, d: int)
    requires
        0 < d,
    ensures
        x >= 0 ==> 0 <= tdiv(x, d) <= x,
        x < 0 ==> x <= tdiv(x, d) <= 0,
{
    if x >= 0 {
        vstd::arithmetic::div_mod::lemma_div_pos_is_pos(x, d);
        vstd::arithmetic::div_mod::lemma_div_nonincreasing(x, d);
    } else {
        vstd::arithmetic::div_mod::lemma_div_pos_is_pos(-x, d);
        vstd::arithmetic::div_mod::lemma_div_nonincreasing(-x, d);
    }
}

/// Truncating division on `i128`, for a positive divisor.
fn tdiv_i128(x: i128, d: i128) -> (r: i128)
    requires
        0 < d,
    ensures
        r == tdiv(x as int, d as int),
{
    proof {
        lemma_tdiv_bounds(x as int, d as int);
    }
    match x.checked_div(d) {
        Some(q) => q,
        None => {
            proof {
                assert(false);
            }
            0
        },
    }
}

/// The product of two nonnegative scalars is nonnegative.
pub proof fn lemma_fx_mul_nonneg(a: i64, b: i64)
    requires
        a >= 0,
        b >= 0,
    ensures
        fx_mul(a, b) >= 0,
{
    vstd::arithmetic::mul::lemma_mul_nonnegative(a as int, b as int);
    lemma_tdiv_bounds(a * b, SCALE as int);
}

/// Multiplying a nonnegative scalar by a factor of at most one does not
/// increase it.
pub proof fn lemma_fx_mul_upper(a: i64, b: i64)
    requires
        0 <= a <= SCALE,
        0 <= b,
    ensures
        0 <= fx_mul(a, b) <= b,
{
    lemma_fx_mul_nonneg(a, b);
    vstd::arithmetic::mul::lemma_mul_inequality(a as int, SCALE as int, b as int);
    vstd::arithmetic::div_mod::lemma_div_is_ordered(a * b, SCALE * b, SCALE as int);
    vstd::arithmetic::div_mod::lemma_div_multiples_vanish(b as int, SCALE as int);
    vstd::arithmetic::mul::lemma_mul_nonnegative(a as int, b as int);
}

/// Multiplying a nonnegative scalar by a factor of at least one does not
/// decrease it.
pub proof fn lemma_fx_mul_lower(a: i64, b: i64)
    requires
        a >= SCALE,
        b >= 0,
    ensures
        fx_mul(a, b) >= b,
{
    vstd::arithmetic::mul::lemma_mul_inequality(SCALE as int, a as int, b as int);
    vstd::arithmetic::div_mod::lemma_div_is_ordered(SCALE * b, a * b, SCALE as int);
    vstd::arithmetic::div_mod::lemma_div_multiples_vanish(b as int, SCALE as int);
    vstd::arithmetic::mul::lemma_mul_nonnegative(SCALE as int, b as int);
}

/// Fixed-point dot product of the first `n` positions, accumulated left to
/// right.
pub open spec fn dot_prefix(a: Seq<i64>, b: Seq<i64>, n: int) -> i64
    recommends
        n <= a.len(),
        n <= b.len(),
    decreases n,
{
    if n <= 0 {
        0i64
    } else {
        fx_add(dot_prefix(a, b, n - 1), fx_mul(a[n - 1], b[n - 1]))
    }
}

/// Fixed-point dot product of two equally long vectors.
pub open spec fn dot_fx(a: Seq<i64>, b: Seq<i64>) -> i64
    recommends
        a.len() == b.len(),
{
    dot_prefix(a, b, a.len() as int)
}

/// Sum of the first `n` positions, accumulated left to right.
pub open spec fn sum_prefix(s: Seq<i64>, n: int) -> i64
    recommends
        n <= s.len(),
    decreases n,
{
    if n <= 0 {
        0i64
    } else {
        fx_add(sum_prefix(s, n - 1), s[n - 1])
    }
}

/// Sum of a fixed-point vector.
pub open spec fn sum_fx(s: Seq<i64>) -> i64 {
    sum_prefix(s, s.len() as int)
}

/// One gradient-descent step on a parameter vector: each parameter moves by
/// its gradient scaled by the learning rate.
pub open spec fn step_seq(p: Seq<i64>, g: Seq<i64>, lr: i64) -> Seq<i64>
    recommends
        p.len() == g.len(),
{
    Seq::new(p.len(), |i: int| fx_sub(p[i], fx_mul(g[i], lr)))
}

/// Elementwise mean of two parameter vectors.
pub open spec fn avg_seq(a: Seq<i64>, b: Seq<i64>) -> Seq<i64>
    recommends
        a.len() == b.len(),
{
    Seq::new(a.len(), |i: int| fx_avg(a[i], b[i]))
}

/// Fixed-point dot product of two equally long vectors.
pub fn dot(a: &Vec<i64>, b: &Vec<i64>) -> (r: i64)
    requires
        a@.len() == b@.len(),
    ensures
        r == dot_fx(a@, b@),
{
    let mut acc: i64 = 0;
    let mut i: usize = 0;
    while i < a.len()
        invariant
            i <= a@.len(),
            b@.len() == a@.len(),
            acc == dot_prefix(a@, b@, i as int),
        decreases a@.len() - i,
    {
        acc = add_fx(acc, mul_fx(a[i], b[i]));
        i = i + 1;
    }
    acc
}

/// Sum of a fixed-point vector.
pub fn sum_vec(s: &Vec<i64>) -> (r: i64)
    ensures
        r == sum_fx(s@),
{
    let mut acc: i64 = 0;
    let mut i: usize = 0;
    while i < s.len()
        invariant
            i <= s@.len(),
            acc == sum_prefix(s@, i as int),
        decreases s@.len() - i,
    {
        acc = add_fx(acc, s[i]);
        i = i + 1;
    }
    acc
}

/// One gradient-descent step on a parameter vector.
pub fn step_vec(p: &Vec<i64>, g: &Vec<i64>, lr: i64) -> (r: Vec<i64>)
    requires
        p@.len() == g@.len(),
    ensures
        r@ == step_seq(p@, g@, lr),
{
    let mut out: Vec<i64> = Vec::new();
    let mut i: usize = 0;
    while i < p.len()
        invariant
            i <= p@.len(),
            g@.len() == p@.len(),
            out@.len() == i,
            forall|j: int| 0 <= j < i ==> out@[j] == fx_sub(p@[j], fx_mul(g@[j], lr)),
        decreases p@.len() - i,
    {
        out.push(sub_fx(p[i], mul_fx(g[i], lr)));
        i = i + 1;
    }
    proof {
        assert(out@ =~= step_seq(p@, g@, lr));
    }
    out
}

/// Elementwise mean of two parameter vectors.
pub fn avg_vec(a: &Vec<i64>, b: &Vec<i64>) -> (r: Vec<i64>)
    requires
        a@.len() == b@.len(),
    ensures
        r@ == avg_seq(a@, b@),
{
    let mut out: Vec<i64> = Vec::new();
    let mut i: usize = 0;
    while i < a.len()
        invariant
            i <= a@.len(),
            b@.len() == a@.len(),
            out@.len() == i,
            forall|j: int| 0 <= j < i ==> out@[j] == fx_avg(a@[j], b@[j]),
        decreases a@.len() - i,
    {
        out.push(avg_fx(a[i], b[i]));
        i = i + 1;
    }
    proof {
        assert(out@ =~= avg_seq(a@, b@));
    }
    out
}

/// A vector of `n` zero scalars.
pub fn zeros_vec(n: usize) -> (r: Vec<i64>)
    ensures
        r@ == Seq::new(n as nat, |i: int| 0i64),
{
    let mut out: Vec<i64> = Vec::new();
    let mut i: usize = 0;
    while i < n
        invariant
            i <= n,
            out@.len() == i,
            forall|j: int| 0 <= j < i ==> out@[j] == 0i64,
        decreases n - i,
    {
        out.push(0);
        i = i + 1;
    }
    proof {
        assert(out@ =~= Seq::new(n as nat, |i: int| 0i64));
    }
    out
}

/// Clamp an `i128` into the `i64` range.
fn clamp_i128(x: i128) -> (r: i64)
    ensures
        r == sat(x as int),
{
    if x > i64::MAX as i128 {
        i64::MAX
    } else if x < i64::MIN as i128 {
        i64::MIN
    } else {
        x as i64
    }
}

} // verus!
