//! Element-wise operations, norms and softmax on the CPU.

use vstd::prelude::*;

use crate::constants::RMS_NORM_EPS_BITS;
use crate::float_bits::{f32_lt, float_lt};
use crate::quant::{bf16_scalar, bf16_value, overwrite};
use crate::scalar::{least, one, one_of, zero, zero_of, Scalar};
use crate::sums::{
    inner, largest, lemma_largest_step, lemma_take_all, lemma_total_step, total,
};

verus! {

/// The epsilon of the model's norms.
pub open spec fn norm_eps<S: Scalar>() -> S {
    S::s_of_bits(RMS_NORM_EPS_BITS)
}

/// The epsilon of the model's norms.
pub fn norm_epsilon<S: Scalar>() -> (r: S)
    ensures
        r == norm_eps::<S>(),
{
    S::of_bits(RMS_NORM_EPS_BITS)
}

/// The numbers with bf16 bit patterns.
pub open spec fn bf16_values<S: Scalar>(w: Seq<u16>) -> Seq<S> {
    Seq::new(w.len(), |i: int| bf16_value::<S>(w[i]))
}

/// The logistic function.
pub open spec fn sigmoid_value<S: Scalar>(x: S) -> S {
    one::<S>().s_over(one::<S>().s_plus(x.s_neg().s_exp()))
}

/// The logistic function.
pub fn sigmoid<S: Scalar>(x: &S) -> (r: S)
    ensures
        r == sigmoid_value(*x),
{
    one_of::<S>().over(&one_of::<S>().plus(&x.negated().exponential()))
}

/// A number times its logistic function.
pub open spec fn silu_value<S: Scalar>(x: S) -> S {
    x.s_over(one::<S>().s_plus(x.s_neg().s_exp()))
}

/// A number times its logistic function.
pub fn silu_of<S: Scalar>(x: &S) -> (r: S)
    ensures
        r == silu_value(*x),
{
    x.over(&one_of::<S>().plus(&x.negated().exponential()))
}

/// Replace the first `n` numbers by their SiLU.
pub fn silu<S: Scalar>(x: &mut [S], n: usize)
    requires
        n <= old(x)@.len(),
    ensures
        final(x)@ == overwrite(
            old(x)@,
            0,
            Seq::new(n as nat, |i: int| silu_value(old(x)@[i])),
        ),
{
    for i in 0..n
        invariant
            n <= x@.len(),
            x@.len() == old(x)@.len(),
            forall|j: int| 0 <= j < i ==> x@[j] == silu_value(old(x)@[j]),
            forall|j: int| i <= j < x@.len() ==> x@[j] == old(x)@[j],
    {
        x[i] = silu_of(&x[i]);
    }
    assert(x@ =~= overwrite(old(x)@, 0, Seq::new(n as nat, |i: int| silu_value(old(x)@[i]))));
}

/// The largest of the numbers from `base` on, at least negative infinity.
pub open spec fn max_upto<S: Scalar>(x: Seq<S>, base: int, n: int) -> S
    decreases n,
{
    if n <= 0 {
        least()
    } else {
        max_upto(x, base, n - 1).s_max(x[base + n - 1])
    }
}

/// The exponential of a number, shifted by the largest.
pub open spec fn shifted_exp<S: Scalar>(x: Seq<S>, base: int, n: int, i: int) -> S {
    x[base + i].s_minus(max_upto(x, base, n)).s_exp()
}

/// The sum of the first `k` shifted exponentials.
pub open spec fn exp_sum<S: Scalar>(x: Seq<S>, base: int, n: int, k: int) -> S
    decreases k,
{
    if k <= 0 {
        zero()
    } else {
        exp_sum(x, base, n, k - 1).s_plus(shifted_exp(x, base, n, k - 1))
    }
}

/// The softmax of `n` numbers from `base` on.
pub open spec fn softmax_of<S: Scalar>(x: Seq<S>, base: int, n: int) -> Seq<S> {
    let inv = one::<S>().s_over(exp_sum(x, base, n, n));
    Seq::new(n as nat, |i: int| shifted_exp(x, base, n, i).s_times(inv))
}

/// The softmax of `n` numbers, left unscaled unless the sum of the exponentials is positive.
pub open spec fn guarded_softmax_of<S: Scalar>(x: Seq<S>, base: int, n: int) -> Seq<S> {
    let sum = exp_sum(x, base, n, n);
    if float_lt(0, sum.s_bits()) {
        softmax_of(x, base, n)
    } else {
        Seq::new(n as nat, |i: int| shifted_exp(x, base, n, i))
    }
}

/// Replace `n` numbers from `base` on by their shifted exponentials; returns the sum.
fn exponentials<S: Scalar>(x: &mut [S], base: usize, n: usize) -> (sum: S)
    requires
        base + n <= old(x)@.len(),
    ensures
        sum == exp_sum(old(x)@, base as int, n as int, n as int),
        final(x)@ == overwrite(
            old(x)@,
            base as int,
            Seq::new(n as nat, |i: int| shifted_exp(old(x)@, base as int, n as int, i)),
        ),
{
    let mut max: S = S::of_bits(0xFF800000);
    for i in 0..n
        invariant
            base + n <= x@.len(),
            x@ == old(x)@,
            max == max_upto(old(x)@, base as int, i as int),
    {
        assert(x@.len() == x.len());
        max = max.larger(&x[base + i]);
    }
    let mut sum: S = zero_of();
    for i in 0..n
        invariant
            base + n <= x@.len(),
            x@.len() == old(x)@.len(),
            max == max_upto(old(x)@, base as int, n as int),
            sum == exp_sum(old(x)@, base as int, n as int, i as int),
            forall|j: int|
                0 <= j < i ==> #[trigger] x@[base + j] == shifted_exp(
                    old(x)@,
                    base as int,
                    n as int,
                    j,
                ),
            forall|j: int|
                0 <= j < x@.len() && !(base <= j < base + i) ==> #[trigger] x@[j] == old(x)@[j],
    {
        assert(x@.len() == x.len());
        assert(x@[base + i] == old(x)@[base + i]);
        let e: S = x[base + i].minus(&max).exponential();
        sum = sum.plus(&e);
        x[base + i] = e;
    }
    proof {
        let e = Seq::new(n as nat, |i: int| shifted_exp(old(x)@, base as int, n as int, i));
        assert forall|j: int| base <= j < base + n implies x@[j] == e[j - base] by {
            assert(x@[base + (j - base)] == e[j - base]);
        }
        assert(x@ =~= overwrite(old(x)@, base as int, e));
    }
    sum
}

/// Multiply `n` numbers from `base` on by a factor.
pub(crate) fn scale_range<S: Scalar>(x: &mut [S], base: usize, n: usize, factor: &S)
    requires
        base + n <= old(x)@.len(),
    ensures
        final(x)@ == overwrite(
            old(x)@,
            base as int,
            Seq::new(n as nat, |i: int| old(x)@[base + i].s_times(*factor)),
        ),
{
    for i in 0..n
        invariant
            base + n <= x@.len(),
            x@.len() == old(x)@.len(),
            forall|j: int|
                0 <= j < x@.len() ==> #[trigger] x@[j] == (if base <= j < base + i {
                    old(x)@[j].s_times(*factor)
                } else {
                    old(x)@[j]
                }),
    {
        assert(x@.len() == x.len());
        x[base + i] = x[base + i].times(factor);
    }
    assert(x@ =~= overwrite(
        old(x)@,
        base as int,
        Seq::new(n as nat, |i: int| old(x)@[base + i].s_times(*factor)),
    ));
}

/// Replace all numbers by their softmax.
pub fn softmax<S: Scalar>(x: &mut [S])
    ensures
        final(x)@ == softmax_of(old(x)@, 0, old(x)@.len() as int),
{
    let n: usize = x.len();
    let sum: S = exponentials(x, 0, n);
    let inv: S = one_of::<S>().over(&sum);
    scale_range(x, 0, n, &inv);
    assert(x@ =~= softmax_of(old(x)@, 0, old(x)@.len() as int));
}

/// Replace the first `n` numbers by their softmax.
pub fn softmax_prefix<S: Scalar>(x: &mut [S], n: usize)
    requires
        n <= old(x)@.len(),
    ensures
        final(x)@ == overwrite(old(x)@, 0, softmax_of(old(x)@, 0, n as int)),
{
    let sum: S = exponentials(x, 0, n);
    let inv: S = one_of::<S>().over(&sum);
    scale_range(x, 0, n, &inv);
    assert(x@ =~= overwrite(old(x)@, 0, softmax_of(old(x)@, 0, n as int)));
}

/// Replace `n` numbers from `base` on by their softmax; without a positive sum they are only
/// exponentiated.
pub fn softmax_range<S: Scalar>(x: &mut [S], base: usize, n: usize)
    requires
        base + n <= old(x)@.len(),
    ensures
        final(x)@ == overwrite(
            old(x)@,
            base as int,
            guarded_softmax_of(old(x)@, base as int, n as int),
        ),
{
    let sum: S = exponentials(x, base, n);
    if f32_lt(0, sum.bits()) {
        let inv: S = one_of::<S>().over(&sum);
        scale_range(x, base, n, &inv);
    }
    assert(x@ =~= overwrite(
        old(x)@,
        base as int,
        guarded_softmax_of(old(x)@, base as int, n as int),
    ));
}

/// The sum of the first `n` numbers.
pub open spec fn sum_upto<S: Scalar>(x: Seq<S>, n: int) -> S
    decreases n,
{
    if n <= 0 {
        zero()
    } else {
        sum_upto(x, n - 1).s_plus(x[n - 1])
    }
}

/// Weights scaled to sum to one; left alone unless their sum is positive.
pub open spec fn normalized<S: Scalar>(w: Seq<S>) -> Seq<S> {
    let sum = sum_upto(w, w.len() as int);
    if float_lt(0, sum.s_bits()) {
        let inv = one::<S>().s_over(sum);
        Seq::new(w.len(), |i: int| w[i].s_times(inv))
    } else {
        w
    }
}

/// Scale weights to sum to one; nothing happens unless their sum is positive.
pub fn normalize_weights<S: Scalar>(weights: &mut [S])
    ensures
        final(weights)@ == normalized(old(weights)@),
{
    let n: usize = weights.len();
    let mut sum: S = zero_of();
    for i in 0..n
        invariant
            n == weights@.len(),
            weights@ == old(weights)@,
            sum == sum_upto(old(weights)@, i as int),
    {
        sum = sum.plus(&weights[i]);
    }
    if f32_lt(0, sum.bits()) {
        let inv: S = one_of::<S>().over(&sum);
        scale_range(weights, 0, n, &inv);
    }
    assert(weights@ =~= normalized(old(weights)@));
}

/// The sum of the squares of `n` numbers from `base` on.
pub open spec fn square_sum<S: Scalar>(x: Seq<S>, base: int, n: int) -> S
    decreases n,
{
    if n <= 0 {
        zero()
    } else {
        square_sum(x, base, n - 1).s_plus(x[base + n - 1].s_times(x[base + n - 1]))
    }
}

/// The reciprocal of the root mean square of `n` numbers from `base` on.
pub open spec fn inv_rms<S: Scalar>(x: Seq<S>, base: int, n: usize, eps: S) -> S {
    one::<S>().s_over(
        square_sum(x, base, n as int).s_over(S::s_of_usize(n)).s_plus(eps).s_sqrt(),
    )
}

/// The reciprocal of the root mean square of `n` numbers from `base` on.
pub(crate) fn inverse_rms<S: Scalar>(x: &[S], base: usize, n: usize, eps: &S) -> (r: S)
    requires
        base + n <= x@.len(),
    ensures
        r == inv_rms(x@, base as int, n, *eps),
{
    let mut sum: S = zero_of();
    for i in 0..n
        invariant
            base + n <= x@.len(),
            sum == square_sum(x@, base as int, i as int),
    {
        assert(x@.len() == x.len());
        sum = sum.plus(&x[base + i].times(&x[base + i]));
    }
    one_of::<S>().over(&sum.over(&S::of_usize(n)).plus(eps).root())
}

/// A vector divided by its root mean square and weighted. The mean divides by `dim` the
/// squares of all of `x`.
pub open spec fn rms_normed<S: Scalar>(x: Seq<S>, weight: Seq<S>, dim: usize, eps: S) -> Seq<S> {
    let rms = one::<S>().s_over(
        square_sum(x, 0, x.len() as int).s_over(S::s_of_usize(dim)).s_plus(eps).s_sqrt(),
    );
    Seq::new(dim as nat, |i: int| x[i].s_times(rms).s_times(weight[i]))
}

/// Normalise a vector and weight it.
pub fn rms_norm<S: Scalar>(x: &[S], weight: &[S], out: &mut [S], dim: usize, eps: &S)
    requires
        dim <= x@.len(),
        dim <= weight@.len(),
        dim <= old(out)@.len(),
    ensures
        final(out)@ == overwrite(old(out)@, 0, rms_normed(x@, weight@, dim, *eps)),
{
    let n: usize = x.len();
    let mut sum: S = zero_of();
    for i in 0..n
        invariant
            n == x@.len(),
            sum == square_sum(x@, 0, i as int),
    {
        sum = sum.plus(&x[i].times(&x[i]));
    }
    let rms: S = one_of::<S>().over(&sum.over(&S::of_usize(dim)).plus(eps).root());
    for i in 0..dim
        invariant
            dim <= x@.len(),
            dim <= weight@.len(),
            dim <= out@.len(),
            out@.len() == old(out)@.len(),
            forall|j: int| 0 <= j < i ==> out@[j] == x@[j].s_times(rms).s_times(weight@[j]),
            forall|j: int| i <= j < out@.len() ==> out@[j] == old(out)@[j],
    {
        out[i] = x[i].times(&rms).times(&weight[i]);
    }
    assert(out@ =~= overwrite(old(out)@, 0, rms_normed(x@, weight@, dim, *eps)));
}

/// The numbers from `base` on divided by their root mean square.
pub open spec fn bare_normed<S: Scalar>(x: Seq<S>, base: int, dim: usize, eps: S) -> Seq<S> {
    Seq::new(dim as nat, |i: int| x[base + i].s_times(inv_rms(x, base, dim, eps)))
}

/// Normalise the `dim` numbers of `x` from `x_base` on into `out` from `out_base` on.
pub fn rms_norm_bare<S: Scalar>(
    x: &[S],
    x_base: usize,
    out: &mut [S],
    out_base: usize,
    dim: usize,
    eps: &S,
)
    requires
        x_base + dim <= x@.len(),
        out_base + dim <= old(out)@.len(),
    ensures
        final(out)@ == overwrite(
            old(out)@,
            out_base as int,
            bare_normed(x@, x_base as int, dim, *eps),
        ),
{
    let inv: S = inverse_rms(x, x_base, dim, eps);
    for i in 0..dim
        invariant
            x_base + dim <= x@.len(),
            out_base + dim <= out@.len(),
            out@.len() == old(out)@.len(),
            inv == inv_rms(x@, x_base as int, dim, *eps),
            forall|j: int|
                0 <= j < out@.len() ==> #[trigger] out@[j] == (if out_base <= j < out_base + i {
                    x@[x_base + (j - out_base)].s_times(inv)
                } else {
                    old(out)@[j]
                }),
    {
        assert(x@.len() == x.len() && out@.len() == out.len());
        out[out_base + i] = x[x_base + i].times(&inv);
    }
    assert(out@ =~= overwrite(
        old(out)@,
        out_base as int,
        bare_normed(x@, x_base as int, dim, *eps),
    ));
}

/// The numbers from `base` on normalised, weighted and gated by the SiLU of `z`.
pub open spec fn gated_normed<S: Scalar>(
    x: Seq<S>,
    z: Seq<S>,
    base: int,
    w: Seq<u16>,
    dim: usize,
    eps: S,
) -> Seq<S> {
    Seq::new(
        dim as nat,
        |i: int|
            x[base + i].s_times(inv_rms(x, base, dim, eps)).s_times(bf16_value(w[i])).s_times(
                silu_value(z[base + i]),
            ),
    )
}

/// Normalise `dim` numbers from `base` on, weight them and gate them by the SiLU of `z`.
pub fn rms_norm_gated<S: Scalar>(
    x: &[S],
    z: &[S],
    w_bf16: &[u16],
    out: &mut [S],
    base: usize,
    dim: usize,
    eps: &S,
)
    requires
        base + dim <= x@.len(),
        base + dim <= z@.len(),
        dim <= w_bf16@.len(),
        base + dim <= old(out)@.len(),
    ensures
        final(out)@ == overwrite(
            old(out)@,
            base as int,
            gated_normed(x@, z@, base as int, w_bf16@, dim, *eps),
        ),
{
    let inv: S = inverse_rms(x, base, dim, eps);
    for i in 0..dim
        invariant
            base + dim <= x@.len(),
            base + dim <= z@.len(),
            dim <= w_bf16@.len(),
            base + dim <= out@.len(),
            out@.len() == old(out)@.len(),
            inv == inv_rms(x@, base as int, dim, *eps),
            forall|j: int|
                0 <= j < out@.len() ==> #[trigger] out@[j] == (if base <= j < base + i {
                    x@[j].s_times(inv).s_times(bf16_value(w_bf16@[j - base])).s_times(
                        silu_value(z@[j]),
                    )
                } else {
                    old(out)@[j]
                }),
    {
        assert(x@.len() == x.len() && out@.len() == out.len());
        let w: S = bf16_scalar(w_bf16[i]);
        out[base + i] = x[base + i].times(&inv).times(&w).times(&silu_of(&z[base + i]));
    }
    assert(out@ =~= overwrite(
        old(out)@,
        base as int,
        gated_normed(x@, z@, base as int, w_bf16@, dim, *eps),
    ));
}

/// The numbers normalised and weighted by bf16 weights.
pub open spec fn bf16_normed<S: Scalar>(
    x: Seq<S>,
    base: int,
    w: Seq<u16>,
    dim: usize,
    eps: S,
) -> Seq<S> {
    Seq::new(
        dim as nat,
        |i: int| x[base + i].s_times(inv_rms(x, base, dim, eps)).s_times(bf16_value(w[i])),
    )
}

/// Normalise a vector with bf16 weights.
pub fn rms_norm_bf16<S: Scalar>(x: &[S], weight_bf16: &[u16], out: &mut [S], dim: usize, eps: &S)
    requires
        dim <= x@.len(),
        dim <= weight_bf16@.len(),
        dim <= old(out)@.len(),
    ensures
        final(out)@ == overwrite(old(out)@, 0, bf16_normed(x@, 0, weight_bf16@, dim, *eps)),
{
    let inv: S = inverse_rms(x, 0, dim, eps);
    for i in 0..dim
        invariant
            dim <= x@.len(),
            dim <= weight_bf16@.len(),
            dim <= out@.len(),
            out@.len() == old(out)@.len(),
            inv == inv_rms(x@, 0, dim, *eps),
            forall|j: int|
                0 <= j < i ==> out@[j] == x@[j].s_times(inv).s_times(bf16_value(weight_bf16@[j])),
            forall|j: int| i <= j < out@.len() ==> out@[j] == old(out)@[j],
    {
        out[i] = x[i].times(&inv).times(&bf16_scalar(weight_bf16[i]));
    }
    assert(out@ =~= overwrite(old(out)@, 0, bf16_normed(x@, 0, weight_bf16@, dim, *eps)));
}

/// Normalise `dim` numbers from `base` on in place, with bf16 weights.
pub fn rms_norm_bf16_inplace<S: Scalar>(
    x: &mut [S],
    base: usize,
    weight_bf16: &[u16],
    dim: usize,
    eps: &S,
)
    requires
        base + dim <= old(x)@.len(),
        dim <= weight_bf16@.len(),
    ensures
        final(x)@ == overwrite(
            old(x)@,
            base as int,
            bf16_normed(old(x)@, base as int, weight_bf16@, dim, *eps),
        ),
{
    let inv: S = inverse_rms(x, base, dim, eps);
    for i in 0..dim
        invariant
            base + dim <= x@.len(),
            dim <= weight_bf16@.len(),
            x@.len() == old(x)@.len(),
            inv == inv_rms(old(x)@, base as int, dim, *eps),
            forall|j: int|
                0 <= j < x@.len() ==> #[trigger] x@[j] == (if base <= j < base + i {
                    old(x)@[j].s_times(inv).s_times(bf16_value(weight_bf16@[j - base]))
                } else {
                    old(x)@[j]
                }),
    {
        assert(x@.len() == x.len());
        x[base + i] = x[base + i].times(&inv).times(&bf16_scalar(weight_bf16[i]));
    }
    assert(x@ =~= overwrite(
        old(x)@,
        base as int,
        bf16_normed(old(x)@, base as int, weight_bf16@, dim, *eps),
    ));
}

/// The final norm: each number times the product of the scale and its weight.
pub open spec fn final_normed<S: Scalar>(x: Seq<S>, w: Seq<u16>, dim: usize) -> Seq<S> {
    let inv = inv_rms(x, 0, dim, norm_eps());
    Seq::new(dim as nat, |i: int| x[i].s_times(inv.s_times(bf16_value(w[i]))))
}

/// Normalise the hidden state before the vocabulary projection; without weights it stays.
pub fn final_norm<S: Scalar>(weight: Option<&[u16]>, hidden: &mut [S], hidden_dim: usize)
    requires
        hidden_dim <= old(hidden)@.len(),
        weight matches Some(w) ==> hidden_dim <= w@.len(),
    ensures
        final(hidden)@ == match weight {
            Some(w) => overwrite(old(hidden)@, 0, final_normed(old(hidden)@, w@, hidden_dim)),
            None => old(hidden)@,
        },
{
    if let Some(w) = weight {
        let inv: S = inverse_rms(hidden, 0, hidden_dim, &norm_epsilon());
        for i in 0..hidden_dim
            invariant
                hidden_dim <= hidden@.len(),
                hidden_dim <= w@.len(),
                hidden@.len() == old(hidden)@.len(),
                inv == inv_rms(old(hidden)@, 0, hidden_dim, norm_eps()),
                forall|j: int|
                    0 <= j < i ==> hidden@[j] == old(hidden)@[j].s_times(
                        inv.s_times(bf16_value(w@[j])),
                    ),
                forall|j: int| i <= j < hidden@.len() ==> hidden@[j] == old(hidden)@[j],
        {
            hidden[i] = hidden[i].times(&inv.times(&bf16_scalar(w[i])));
        }
        assert(hidden@ =~= overwrite(
            old(hidden)@,
            0,
            final_normed(old(hidden)@, w@, hidden_dim),
        ));
    }
}

/// The first `dim` gates, each times the SiLU of its operand: `gate[i] * silu(up[i])`.
pub open spec fn gate_times_silu<S: Scalar>(gate: Seq<S>, up: Seq<S>, dim: int) -> Seq<S> {
    Seq::new(dim as nat, |i: int| gate[i].s_times(silu_value(up[i])))
}

/// SwiGLU activation: `out[i] = gate[i] * silu(up[i])`.
pub fn swiglu_fused<S: Scalar>(gate: &[S], up: &[S], out: &mut [S], dim: usize)
    requires
        dim <= gate@.len(),
        dim <= up@.len(),
        dim <= old(out)@.len(),
    ensures
        final(out)@ == overwrite(old(out)@, 0, gate_times_silu(gate@, up@, dim as int)),
{
    for i in 0..dim
        invariant
            dim <= gate@.len(),
            dim <= up@.len(),
            dim <= out@.len(),
            out@.len() == old(out)@.len(),
            forall|j: int| 0 <= j < i ==> out@[j] == gate@[j].s_times(silu_value(up@[j])),
            forall|j: int| i <= j < out@.len() ==> out@[j] == old(out)@[j],
    {
        out[i] = gate[i].times(&silu_of(&up[i]));
    }
    assert(out@ =~= overwrite(old(out)@, 0, gate_times_silu(gate@, up@, dim as int)));
}

/// The activation of an expert: the SiLU of each gate times its operand,
/// `silu(gate[i]) * up[i]`.
pub open spec fn expert_activation<S: Scalar>(gate: Seq<S>, up: Seq<S>, dim: int) -> Seq<S> {
    Seq::new(dim as nat, |i: int| silu_value(gate[i]).s_times(up[i]))
}

/// The activation of an expert: `out[i] = silu(gate[i]) * up[i]`.
pub fn activate_expert<S: Scalar>(gate: &[S], up: &[S], out: &mut [S], dim: usize)
    requires
        dim <= gate@.len(),
        dim <= up@.len(),
        dim <= old(out)@.len(),
    ensures
        final(out)@ == overwrite(old(out)@, 0, expert_activation(gate@, up@, dim as int)),
{
    for i in 0..dim
        invariant
            dim <= gate@.len(),
            dim <= up@.len(),
            dim <= out@.len(),
            out@.len() == old(out)@.len(),
            forall|j: int| 0 <= j < i ==> out@[j] == silu_value(gate@[j]).s_times(up@[j]),
            forall|j: int| i <= j < out@.len() ==> out@[j] == old(out)@[j],
    {
        out[i] = silu_of(&gate[i]).times(&up[i]);
    }
    assert(out@ =~= overwrite(old(out)@, 0, expert_activation(gate@, up@, dim as int)));
}

/// The first `dim` numbers, each times the logistic function of its gate.
pub open spec fn sigmoid_gated<S: Scalar>(x: Seq<S>, gate: Seq<S>, dim: int) -> Seq<S> {
    Seq::new(dim as nat, |i: int| x[i].s_times(sigmoid_value(gate[i])))
}

/// Gate numbers by the logistic function, in place.
pub fn sigmoid_gate_inplace<S: Scalar>(out: &mut [S], gate: &[S], dim: usize)
    requires
        dim <= gate@.len(),
        dim <= old(out)@.len(),
    ensures
        final(out)@ == overwrite(old(out)@, 0, sigmoid_gated(old(out)@, gate@, dim as int)),
{
    for i in 0..dim
        invariant
            dim <= gate@.len(),
            dim <= out@.len(),
            out@.len() == old(out)@.len(),
            forall|j: int|
                0 <= j < i ==> out@[j] == old(out)@[j].s_times(sigmoid_value(gate@[j])),
            forall|j: int| i <= j < out@.len() ==> out@[j] == old(out)@[j],
    {
        out[i] = out[i].times(&sigmoid(&gate[i]));
    }
    assert(out@ =~= overwrite(old(out)@, 0, sigmoid_gated(old(out)@, gate@, dim as int)));
}

/// The element-wise sum of the first `dim` numbers.
pub open spec fn added<S: Scalar>(a: Seq<S>, b: Seq<S>, dim: int) -> Seq<S> {
    Seq::new(dim as nat, |i: int| a[i].s_plus(b[i]))
}

/// Add two vectors.
pub fn residual_add<S: Scalar>(src: &[S], dst: &[S], out: &mut [S], dim: usize)
    requires
        dim <= src@.len(),
        dim <= dst@.len(),
        dim <= old(out)@.len(),
    ensures
        final(out)@ == overwrite(old(out)@, 0, added(src@, dst@, dim as int)),
{
    for i in 0..dim
        invariant
            dim <= src@.len(),
            dim <= dst@.len(),
            dim <= out@.len(),
            out@.len() == old(out)@.len(),
            forall|j: int| 0 <= j < i ==> out@[j] == src@[j].s_plus(dst@[j]),
            forall|j: int| i <= j < out@.len() ==> out@[j] == old(out)@[j],
    {
        out[i] = src[i].plus(&dst[i]);
    }
    assert(out@ =~= overwrite(old(out)@, 0, added(src@, dst@, dim as int)));
}

/// `n` zeros.
pub open spec fn zero_seq<S: Scalar>(n: int) -> Seq<S> {
    Seq::new(n as nat, |i: int| zero::<S>())
}

/// Set the first `n` numbers to zero.
pub fn fill_zero<S: Scalar>(x: &mut [S], n: usize)
    requires
        n <= old(x)@.len(),
    ensures
        final(x)@ == overwrite(old(x)@, 0, zero_seq(n as int)),
{
    for i in 0..n
        invariant
            n <= x@.len(),
            x@.len() == old(x)@.len(),
            forall|j: int| 0 <= j < i ==> x@[j] == zero::<S>(),
            forall|j: int| i <= j < x@.len() ==> x@[j] == old(x)@[j],
    {
        x[i] = zero_of();
    }
    assert(x@ =~= overwrite(old(x)@, 0, zero_seq(n as int)));
}

/// A copy of numbers.
pub fn copy_of<S: Scalar>(x: &[S]) -> (r: Vec<S>)
    ensures
        r@ == x@,
{
    let n: usize = x.len();
    let mut v: Vec<S> = Vec::new();
    for i in 0..n
        invariant
            n == x@.len(),
            v@ == x@.take(i as int),
    {
        v.push(x[i].dup());
        assert(v@ =~= x@.take(i + 1));
    }
    assert(v@ =~= x@);
    v
}

/// Copy `count` numbers of `src` from `src_base` on into `dst` from `dst_base` on.
pub fn copy_range<S: Scalar>(
    dst: &mut [S],
    dst_base: usize,
    src: &[S],
    src_base: usize,
    count: usize,
)
    requires
        dst_base + count <= old(dst)@.len(),
        src_base + count <= src@.len(),
    ensures
        final(dst)@ == overwrite(
            old(dst)@,
            dst_base as int,
            src@.subrange(src_base as int, src_base + count),
        ),
{
    for i in 0..count
        invariant
            dst_base + count <= dst@.len(),
            src_base + count <= src@.len(),
            dst@.len() == old(dst)@.len(),
            forall|j: int|
                0 <= j < dst@.len() ==> #[trigger] dst@[j] == (if dst_base <= j < dst_base + i {
                    src@[src_base + (j - dst_base)]
                } else {
                    old(dst)@[j]
                }),
    {
        assert(dst@.len() == dst.len() && src@.len() == src.len());
        dst[dst_base + i] = src[src_base + i].dup();
    }
    assert(dst@ =~= overwrite(
        old(dst)@,
        dst_base as int,
        src@.subrange(src_base as int, src_base + count),
    ));
}

/// A weighted sum of vectors, the first `k` terms.
pub open spec fn weighted_upto<S: Scalar>(
    outs: Seq<Seq<S>>,
    weights: Seq<S>,
    i: int,
    k: int,
) -> S
    decreases k,
{
    if k <= 0 {
        zero()
    } else {
        weighted_upto(outs, weights, i, k - 1).s_plus(weights[k - 1].s_times(outs[k - 1][i]))
    }
}

/// The contents of vectors.
pub open spec fn all_views<S: Scalar>(v: Seq<Vec<S>>) -> Seq<Seq<S>> {
    Seq::new(v.len(), |i: int| v[i]@)
}

/// Residual, weighted experts and gated shared expert added up.
pub open spec fn combined<S: Scalar>(
    h_mid: Seq<S>,
    shared_out: Seq<S>,
    outs: Seq<Seq<S>>,
    weights: Seq<S>,
    gate_score: S,
    dim: int,
    k: int,
) -> Seq<S> {
    Seq::new(
        dim as nat,
        |i: int|
            h_mid[i].s_plus(weighted_upto(outs, weights, i, k)).s_plus(
                sigmoid_value(gate_score).s_times(shared_out[i]),
            ),
    )
}

/// Add residual, weighted expert outputs and the gated shared expert.
pub fn moe_combine_residual<S: Scalar>(
    h_mid: &[S],
    shared_out: &[S],
    hidden_out: &mut [S],
    expert_outs: &Vec<Vec<S>>,
    expert_weights: &[S],
    shared_gate_score: &S,
    dim: usize,
    k: usize,
)
    requires
        dim <= h_mid@.len(),
        dim <= shared_out@.len(),
        dim <= old(hidden_out)@.len(),
        k <= expert_outs@.len(),
        k <= expert_weights@.len(),
        forall|j: int| 0 <= j < k ==> dim <= #[trigger] expert_outs@[j]@.len(),
    ensures
        final(hidden_out)@ == overwrite(
            old(hidden_out)@,
            0,
            combined(
                h_mid@,
                shared_out@,
                all_views(expert_outs@),
                expert_weights@,
                *shared_gate_score,
                dim as int,
                k as int,
            ),
        ),
{
    let shared_gate: S = sigmoid(shared_gate_score);
    let ghost outs = all_views(expert_outs@);
    for i in 0..dim
        invariant
            dim <= h_mid@.len(),
            dim <= shared_out@.len(),
            dim <= hidden_out@.len(),
            k <= expert_outs@.len(),
            k <= expert_weights@.len(),
            forall|j: int| 0 <= j < k ==> dim <= #[trigger] expert_outs@[j]@.len(),
            outs == all_views(expert_outs@),
            shared_gate == sigmoid_value(*shared_gate_score),
            hidden_out@.len() == old(hidden_out)@.len(),
            forall|j: int|
                0 <= j < i ==> hidden_out@[j] == h_mid@[j].s_plus(
                    #[trigger] weighted_upto(outs, expert_weights@, j, k as int),
                ).s_plus(shared_gate.s_times(shared_out@[j])),
            forall|j: int| i <= j < hidden_out@.len() ==> hidden_out@[j] == old(hidden_out)@[j],
    {
        let mut moe_sum: S = zero_of();
        for ki in 0..k
            invariant
                i < dim,
                k <= expert_outs@.len(),
                k <= expert_weights@.len(),
                forall|j: int| 0 <= j < k ==> dim <= #[trigger] expert_outs@[j]@.len(),
                outs == all_views(expert_outs@),
                moe_sum == weighted_upto(outs, expert_weights@, i as int, ki as int),
        {
            moe_sum = moe_sum.plus(&expert_weights[ki].times(&expert_outs[ki][i]));
        }
        hidden_out[i] = h_mid[i].plus(&moe_sum).plus(&shared_gate.times(&shared_out[i]));
    }
    assert(hidden_out@ =~= overwrite(
        old(hidden_out)@,
        0,
        combined(
            h_mid@,
            shared_out@,
            outs,
            expert_weights@,
            *shared_gate_score,
            dim as int,
            k as int,
        ),
    ));
}

proof fn lemma_max_upto<S: Scalar>(x: Seq<S>, base: int, n: int, k: int)
    requires
        0 <= base,
        0 <= k <= n,
        base + n <= x.len(),
    ensures
        max_upto(x, base, k) == largest(x.subrange(base, base + n).take(k)),
    decreases k,
{
    if k > 0 {
        lemma_max_upto(x, base, n, k - 1);
        lemma_largest_step(x.subrange(base, base + n), k - 1);
    }
}

/// The exponentials of a range's numbers, each less the largest of them.
spec fn exp_terms<S: Scalar>(x: Seq<S>, base: int, n: int) -> Seq<S> {
    Seq::new(
        n as nat,
        |j: int| x[base + j].s_minus(largest(x.subrange(base, base + n))).s_exp(),
    )
}

proof fn lemma_exp_sum<S: Scalar>(x: Seq<S>, base: int, n: int, k: int)
    requires
        0 <= base,
        0 <= k <= n,
        base + n <= x.len(),
    ensures
        exp_sum(x, base, n, k) == total(exp_terms(x, base, n).take(k)),
    decreases k,
{
    if k > 0 {
        lemma_exp_sum(x, base, n, k - 1);
        lemma_total_step(exp_terms(x, base, n), k - 1);
        lemma_max_upto(x, base, n, n);
        lemma_take_all(x.subrange(base, base + n));
    }
}

/// Softmax takes the exponential of each number less the largest, and scales all of them by one
/// over their sum. The guarded form does the same as long as that sum is positive, and leaves
/// the exponentials as they are otherwise.
pub proof fn law_softmax<S: Scalar>(x: Seq<S>, base: int, n: int, i: int)
    requires
        0 <= base,
        0 <= i < n,
        base + n <= x.len(),
    ensures
        ({
            let top = largest(x.subrange(base, base + n));
            let exps = Seq::new(n as nat, |j: int| x[base + j].s_minus(top).s_exp());
            &&& softmax_of(x, base, n).len() == n
            &&& softmax_of(x, base, n)[i] == exps[i].s_times(one::<S>().s_over(total(exps)))
            &&& guarded_softmax_of(x, base, n).len() == n
            &&& guarded_softmax_of(x, base, n)[i] == (if float_lt(0, total(exps).s_bits()) {
                exps[i].s_times(one::<S>().s_over(total(exps)))
            } else {
                exps[i]
            })
        }),
{
    lemma_max_upto(x, base, n, n);
    lemma_take_all(x.subrange(base, base + n));
    lemma_exp_sum(x, base, n, n);
    lemma_take_all(exp_terms(x, base, n));
    let top = largest(x.subrange(base, base + n));
    assert(exp_terms(x, base, n) =~= Seq::new(
        n as nat,
        |j: int| x[base + j].s_minus(top).s_exp(),
    ));
}

/// Softmax depends on the numbers of its range alone.
pub proof fn law_softmax_is_local<S: Scalar>(
    x: Seq<S>,
    base1: int,
    y: Seq<S>,
    base2: int,
    n: int,
)
    requires
        0 <= base1,
        0 <= base2,
        0 <= n,
        base1 + n <= x.len(),
        base2 + n <= y.len(),
        x.subrange(base1, base1 + n) == y.subrange(base2, base2 + n),
    ensures
        softmax_of(x, base1, n) == softmax_of(y, base2, n),
{
    assert forall|i: int| 0 <= i < n implies softmax_of(x, base1, n)[i] == softmax_of(
        y,
        base2,
        n,
    )[i] by {
        law_softmax(x, base1, n, i);
        law_softmax(y, base2, n, i);
        let top = largest(x.subrange(base1, base1 + n));
        let e1 = Seq::new(n as nat, |j: int| x[base1 + j].s_minus(top).s_exp());
        let e2 = Seq::new(n as nat, |j: int| y[base2 + j].s_minus(top).s_exp());
        assert forall|j: int| 0 <= j < n implies e1[j] == e2[j] by {
            assert(x[base1 + j] == x.subrange(base1, base1 + n)[j]);
            assert(y[base2 + j] == y.subrange(base2, base2 + n)[j]);
        }
        assert(e1 =~= e2);
    }
    assert(softmax_of(x, base1, n) =~= softmax_of(y, base2, n));
}

proof fn lemma_sum_upto<S: Scalar>(x: Seq<S>, n: int)
    requires
        0 <= n <= x.len(),
    ensures
        sum_upto(x, n) == total(x.take(n)),
    decreases n,
{
    if n > 0 {
        lemma_sum_upto(x, n - 1);
        lemma_total_step(x, n - 1);
    }
}

/// The sum of all numbers.
pub proof fn law_sum<S: Scalar>(x: Seq<S>)
    ensures
        sum_upto(x, x.len() as int) == total(x),
{
    lemma_sum_upto(x, x.len() as int);
    lemma_take_all(x);
}

/// Weights are scaled by one over their sum, all by the same factor; where the sum is not
/// positive they stay as they are.
pub proof fn law_normalized<S: Scalar>(w: Seq<S>, i: int)
    requires
        0 <= i < w.len(),
    ensures
        normalized(w).len() == w.len(),
        float_lt(0, total(w).s_bits()) ==> normalized(w)[i] == w[i].s_times(
            one::<S>().s_over(total(w)),
        ),
        !float_lt(0, total(w).s_bits()) ==> normalized(w) == w,
{
    law_sum(w);
}

proof fn lemma_square_sum<S: Scalar>(x: Seq<S>, base: int, n: int, k: int)
    requires
        0 <= base,
        0 <= k <= n,
        base + n <= x.len(),
    ensures
        ({
            let r = x.subrange(base, base + n);
            square_sum(x, base, k) == total(
                Seq::new(r.len(), |i: int| r[i].s_times(r[i])).take(k),
            )
        }),
    decreases k,
{
    if k > 0 {
        let r = x.subrange(base, base + n);
        lemma_square_sum(x, base, n, k - 1);
        lemma_total_step(Seq::new(r.len(), |i: int| r[i].s_times(r[i])), k - 1);
    }
}

/// The scale of a norm is one over the root of the mean square, with epsilon added, of the
/// numbers that are normed.
pub proof fn law_inv_rms<S: Scalar>(x: Seq<S>, base: int, n: usize, eps: S)
    requires
        0 <= base,
        base + n <= x.len(),
    ensures
        ({
            let r = x.subrange(base, base + n);
            inv_rms(x, base, n, eps) == one::<S>().s_over(
                inner(r, r).s_over(S::s_of_usize(n)).s_plus(eps).s_sqrt(),
            )
        }),
{
    let r = x.subrange(base, base + n);
    lemma_square_sum(x, base, n as int, n as int);
    lemma_take_all(Seq::new(r.len(), |i: int| r[i].s_times(r[i])));
}

/// What the norms make of a number: all numbers of a range are scaled by the same inverse root
/// of their mean square, and each by its own weight; a gated norm also by the SiLU of its gate.
pub proof fn law_norms<S: Scalar>(
    x: Seq<S>,
    base: int,
    z: Seq<S>,
    w: Seq<u16>,
    weight: Seq<S>,
    dim: usize,
    eps: S,
    i: int,
)
    requires
        0 <= base,
        0 <= i < dim,
        base + dim <= x.len(),
    ensures
        ({
            let r = x.subrange(base, base + dim);
            let scale = |e: S|
                one::<S>().s_over(inner(r, r).s_over(S::s_of_usize(dim)).s_plus(e).s_sqrt());
            let wi = S::s_of_bits((w[i] * 0x1_0000) as u32);
            let zi = z[base + i];
            &&& bare_normed(x, base, dim, eps)[i] == r[i].s_times(scale(eps))
            &&& bf16_normed(x, base, w, dim, eps)[i] == r[i].s_times(scale(eps)).s_times(wi)
            &&& gated_normed(x, z, base, w, dim, eps)[i] == r[i].s_times(scale(eps)).s_times(
                wi,
            ).s_times(zi.s_over(one::<S>().s_plus(zi.s_neg().s_exp())))
            &&& final_normed(r, w, dim)[i] == r[i].s_times(
                scale(S::s_of_bits(RMS_NORM_EPS_BITS)).s_times(wi),
            )
            &&& rms_normed(r, weight, dim, eps)[i] == r[i].s_times(scale(eps)).s_times(weight[i])
        }),
{
    let r = x.subrange(base, base + dim);
    law_inv_rms(x, base, dim, eps);
    assert(r.subrange(0, r.len() as int) =~= r);
    law_inv_rms(r, 0, dim, eps);
    law_inv_rms(r, 0, dim, norm_eps());
}

/// The logistic function of a number and its SiLU divide by the same: one plus the exponential
/// of the negated number. The logistic function divides one, the SiLU the number itself.
pub proof fn law_logistic<S: Scalar>(x: S)
    ensures
        ({
            let below = one::<S>().s_plus(x.s_neg().s_exp());
            &&& sigmoid_value(x) == one::<S>().s_over(below)
            &&& silu_value(x) == x.s_over(below)
        }),
{
}

/// What gates do, number by number. The two activations multiply the same numbers: that of an
/// expert takes the SiLU of its first operand, the other one that of its second.
pub proof fn law_gating<S: Scalar>(a: Seq<S>, b: Seq<S>, dim: int, i: int)
    requires
        0 <= i < dim,
    ensures
        ({
            let over = |x: S, y: S| x.s_over(one::<S>().s_plus(y.s_neg().s_exp()));
            &&& expert_activation(a, b, dim)[i] == over(a[i], a[i]).s_times(b[i])
            &&& gate_times_silu(a, b, dim)[i] == a[i].s_times(over(b[i], b[i]))
            &&& sigmoid_gated(a, b, dim)[i] == a[i].s_times(over(one(), b[i]))
            &&& added(a, b, dim)[i] == a[i].s_plus(b[i])
        }),
{
}

/// The terms of a weighted sum of outputs.
spec fn weighted_terms<S: Scalar>(outs: Seq<Seq<S>>, weights: Seq<S>, i: int, k: int) -> Seq<S> {
    Seq::new(k as nat, |j: int| weights[j].s_times(outs[j][i]))
}

proof fn lemma_weighted_upto<S: Scalar>(
    outs: Seq<Seq<S>>,
    weights: Seq<S>,
    i: int,
    k: int,
    n: int,
)
    requires
        0 <= n <= k,
    ensures
        weighted_upto(outs, weights, i, n) == total(weighted_terms(outs, weights, i, k).take(n)),
    decreases n,
{
    if n > 0 {
        lemma_weighted_upto(outs, weights, i, k, n - 1);
        lemma_total_step(weighted_terms(outs, weights, i, k), n - 1);
    }
}

/// Each number of the combined output is that of the residual, plus the sum over all experts of
/// the expert's weight times its output, plus the shared expert's output times the logistic
/// function of its score.
pub proof fn law_combined<S: Scalar>(
    h_mid: Seq<S>,
    shared_out: Seq<S>,
    outs: Seq<Seq<S>>,
    weights: Seq<S>,
    gate_score: S,
    dim: int,
    k: int,
    i: int,
)
    requires
        0 <= i < dim,
        0 <= k,
    ensures
        combined(h_mid, shared_out, outs, weights, gate_score, dim, k).len() == dim,
        combined(h_mid, shared_out, outs, weights, gate_score, dim, k)[i] == h_mid[i].s_plus(
            total(Seq::new(k as nat, |j: int| weights[j].s_times(outs[j][i]))),
        ).s_plus(
            one::<S>().s_over(one::<S>().s_plus(gate_score.s_neg().s_exp())).s_times(shared_out[i]),
        ),
{
    lemma_weighted_upto(outs, weights, i, k, k);
    lemma_take_all(weighted_terms(outs, weights, i, k));
    assert(weighted_terms(outs, weights, i, k) =~= Seq::new(
        k as nat,
        |j: int| weights[j].s_times(outs[j][i]),
    ));
}

/// The norms keep their root from zero by one millionth, to single precision.
pub proof fn law_norm_eps<S: Scalar>(x: Seq<S>, base: int, n: usize)
    ensures
        inv_rms(x, base, n, norm_eps()) == inv_rms(x, base, n, S::s_of_bits(0x3586_37BD)),
        norm_eps::<S>() == S::s_of_bits(0x3586_37BD),
{
}

} // verus!
