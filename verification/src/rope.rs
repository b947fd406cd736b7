//! Rotary position embedding.
//!
//! The cosine and sine of the angle of each pair at the current position are given as tables.

use vstd::prelude::*;

use crate::attention_math::{law_normed_heads, normed_heads, NormOrder};
use crate::math_util::{inv_rms, inverse_rms, law_inv_rms};
use crate::quant::{bf16_scalar, bf16_value, lemma_within};
use crate::scalar::Scalar;

verus! {

/// The numbers at `a` and `b` turned by an angle.
pub open spec fn turned<S: Scalar>(x: Seq<S>, a: int, b: int, cos: S, sin: S) -> Seq<S> {
    x.update(a, x[a].s_times(cos).s_minus(x[b].s_times(sin))).update(
        b,
        x[a].s_times(sin).s_plus(x[b].s_times(cos)),
    )
}

/// Turn the numbers at `a` and `b`.
fn turn<S: Scalar>(x: &mut [S], a: usize, b: usize, cos: &S, sin: &S)
    requires
        a < old(x)@.len(),
        b < old(x)@.len(),
    ensures
        final(x)@ == turned(old(x)@, a as int, b as int, *cos, *sin),
{
    let x0: S = x[a].dup();
    let x1: S = x[b].dup();
    x[a] = x0.times(cos).minus(&x1.times(sin));
    x[b] = x0.times(sin).plus(&x1.times(cos));
}

/// A head with its first `n` pairs turned. A pair lies `half` apart.
pub open spec fn roped_head<S: Scalar>(
    x: Seq<S>,
    base: int,
    half: int,
    cos: Seq<S>,
    sin: Seq<S>,
    n: int,
) -> Seq<S>
    decreases n,
{
    if n <= 0 {
        x
    } else {
        turned(
            roped_head(x, base, half, cos, sin, n - 1),
            base + n - 1,
            base + n - 1 + half,
            cos[n - 1],
            sin[n - 1],
        )
    }
}

/// The first `heads` heads turned.
pub open spec fn roped<S: Scalar>(
    x: Seq<S>,
    heads: int,
    head_dim: int,
    half: int,
    cos: Seq<S>,
    sin: Seq<S>,
) -> Seq<S>
    decreases heads,
{
    if heads <= 0 {
        x
    } else {
        roped_head(
            roped(x, heads - 1, head_dim, half, cos, sin),
            (heads - 1) * head_dim,
            half,
            cos,
            sin,
            half,
        )
    }
}

/// Turn all pairs of all heads.
fn rope_heads<S: Scalar>(
    x: &mut [S],
    heads: usize,
    head_dim: usize,
    half: usize,
    cos: &[S],
    sin: &[S],
)
    requires
        heads > 0 ==> (heads - 1) * head_dim + 2 * half <= old(x)@.len(),
        half <= cos@.len(),
        half <= sin@.len(),
    ensures
        final(x)@.len() == old(x)@.len(),
        final(x)@ == roped(old(x)@, heads as int, head_dim as int, half as int, cos@, sin@),
{
    for h in 0..heads
        invariant
            heads > 0 ==> (heads - 1) * head_dim + 2 * half <= x@.len(),
            half <= cos@.len(),
            half <= sin@.len(),
            x@.len() == old(x)@.len(),
            x@ == roped(old(x)@, h as int, head_dim as int, half as int, cos@, sin@),
    {
        proof {
            assert(x@.len() == x.len());
            vstd::arithmetic::mul::lemma_mul_inequality(h as int, heads - 1, head_dim as int);
            vstd::arithmetic::mul::lemma_mul_inequality(0, h as int, head_dim as int);
        }
        let base: usize = h * head_dim;
        let ghost before = x@;
        for i in 0..half
            invariant
                base + 2 * half <= before.len(),
                half <= cos@.len(),
                half <= sin@.len(),
                x@.len() == before.len(),
                x@ == roped_head(before, base as int, half as int, cos@, sin@, i as int),
        {
            assert(x@.len() == x.len());
            turn(x, base + i, base + i + half, &cos[i], &sin[i]);
        }
    }
}

/// Turn the heads of queries and keys. A pair lies half the rotary dimension apart.
pub fn apply_rope<S: Scalar>(
    q: &mut [S],
    k: &mut [S],
    cos: &[S],
    sin: &[S],
    num_q_heads: usize,
    num_kv_heads: usize,
    head_dim: usize,
    rotary_dim: usize,
)
    requires
        num_q_heads > 0 ==> (num_q_heads - 1) * head_dim + 2 * (rotary_dim as int / 2)
            <= old(q)@.len(),
        num_kv_heads > 0 ==> (num_kv_heads - 1) * head_dim + 2 * (rotary_dim as int / 2)
            <= old(k)@.len(),
        rotary_dim as int / 2 <= cos@.len(),
        rotary_dim as int / 2 <= sin@.len(),
    ensures
        final(q)@.len() == old(q)@.len(),
        final(k)@.len() == old(k)@.len(),
        final(q)@ == roped(
            old(q)@,
            num_q_heads as int,
            head_dim as int,
            rotary_dim as int / 2,
            cos@,
            sin@,
        ),
        final(k)@ == roped(
            old(k)@,
            num_kv_heads as int,
            head_dim as int,
            rotary_dim as int / 2,
            cos@,
            sin@,
        ),
{
    let half: usize = rotary_dim / 2;
    rope_heads(q, num_q_heads, head_dim, half, cos, sin);
    rope_heads(k, num_kv_heads, head_dim, half, cos, sin);
}

/// Where the pairs of a head do not overlap another head, each number of a turned head is a
/// combination of the two numbers of its pair, and the rest of the head stays.
pub proof fn law_rope_head<S: Scalar>(
    x: Seq<S>,
    base: int,
    half: int,
    cos: Seq<S>,
    sin: Seq<S>,
    n: int,
    i: int,
)
    requires
        0 <= base,
        0 <= n <= half,
        base + 2 * half <= x.len(),
        0 <= i < x.len(),
    ensures
        roped_head(x, base, half, cos, sin, n).len() == x.len(),
        roped_head(x, base, half, cos, sin, n)[i] == (if base <= i < base + n {
            x[i].s_times(cos[i - base]).s_minus(x[i + half].s_times(sin[i - base]))
        } else if base + half <= i < base + half + n {
            x[i - half].s_times(sin[i - half - base]).s_plus(x[i].s_times(cos[i - half - base]))
        } else {
            x[i]
        }),
    decreases n,
{
    if n > 0 {
        law_rope_head(x, base, half, cos, sin, n - 1, i);
        law_rope_head(x, base, half, cos, sin, n - 1, base + n - 1);
        law_rope_head(x, base, half, cos, sin, n - 1, base + n - 1 + half);
    }
}

/// A head with its first `n` neighbouring pairs turned.
pub open spec fn twisted_head<S: Scalar>(
    x: Seq<S>,
    base: int,
    cos: Seq<S>,
    sin: Seq<S>,
    n: int,
) -> Seq<S>
    decreases n,
{
    if n <= 0 {
        x
    } else {
        turned(
            twisted_head(x, base, cos, sin, n - 1),
            base + 2 * (n - 1),
            base + 2 * (n - 1) + 1,
            cos[n - 1],
            sin[n - 1],
        )
    }
}

/// The first `heads` heads with neighbouring pairs turned.
pub open spec fn twisted<S: Scalar>(
    x: Seq<S>,
    heads: int,
    head_dim: int,
    pairs: int,
    cos: Seq<S>,
    sin: Seq<S>,
) -> Seq<S>
    decreases heads,
{
    if heads <= 0 {
        x
    } else {
        twisted_head(
            twisted(x, heads - 1, head_dim, pairs, cos, sin),
            (heads - 1) * head_dim,
            cos,
            sin,
            pairs,
        )
    }
}

/// Turn the neighbouring pairs of all heads.
fn twist_heads<S: Scalar>(
    x: &mut [S],
    heads: usize,
    head_dim: usize,
    pairs: usize,
    cos: &[S],
    sin: &[S],
)
    requires
        heads > 0 ==> (heads - 1) * head_dim + 2 * pairs <= old(x)@.len(),
        pairs <= cos@.len(),
        pairs <= sin@.len(),
    ensures
        final(x)@.len() == old(x)@.len(),
        final(x)@ == twisted(old(x)@, heads as int, head_dim as int, pairs as int, cos@, sin@),
{
    for h in 0..heads
        invariant
            heads > 0 ==> (heads - 1) * head_dim + 2 * pairs <= x@.len(),
            pairs <= cos@.len(),
            pairs <= sin@.len(),
            x@.len() == old(x)@.len(),
            x@ == twisted(old(x)@, h as int, head_dim as int, pairs as int, cos@, sin@),
    {
        proof {
            assert(x@.len() == x.len());
            vstd::arithmetic::mul::lemma_mul_inequality(h as int, heads - 1, head_dim as int);
            vstd::arithmetic::mul::lemma_mul_inequality(0, h as int, head_dim as int);
        }
        let base: usize = h * head_dim;
        let ghost before = x@;
        for i in 0..pairs
            invariant
                base + 2 * pairs <= before.len(),
                pairs <= cos@.len(),
                pairs <= sin@.len(),
                x@.len() == before.len(),
                x@ == twisted_head(before, base as int, cos@, sin@, i as int),
        {
            assert(x@.len() == x.len());
            turn(x, base + 2 * i, base + 2 * i + 1, &cos[i], &sin[i]);
        }
    }
}

/// The number of neighbouring pairs that start below the rotary dimension.
pub open spec fn pair_count(rotary_dim: int) -> int {
    rotary_dim / 2 + rotary_dim % 2
}

/// Turn the heads of queries and keys. A pair is two neighbours.
pub fn apply_rotary_emb<S: Scalar>(
    q: &mut [S],
    k: &mut [S],
    cos: &[S],
    sin: &[S],
    num_heads: usize,
    num_kv_heads: usize,
    head_dim: usize,
    rotary_dim: usize,
)
    requires
        num_heads > 0 ==> (num_heads - 1) * head_dim + 2 * pair_count(rotary_dim as int)
            <= old(q)@.len(),
        num_kv_heads > 0 ==> (num_kv_heads - 1) * head_dim + 2 * pair_count(rotary_dim as int)
            <= old(k)@.len(),
        pair_count(rotary_dim as int) <= cos@.len(),
        pair_count(rotary_dim as int) <= sin@.len(),
    ensures
        final(q)@.len() == old(q)@.len(),
        final(k)@.len() == old(k)@.len(),
        final(q)@ == twisted(
            old(q)@,
            num_heads as int,
            head_dim as int,
            pair_count(rotary_dim as int),
            cos@,
            sin@,
        ),
        final(k)@ == twisted(
            old(k)@,
            num_kv_heads as int,
            head_dim as int,
            pair_count(rotary_dim as int),
            cos@,
            sin@,
        ),
{
    let pairs: usize = rotary_dim / 2 + rotary_dim % 2;
    twist_heads(q, num_heads, head_dim, pairs, cos, sin);
    twist_heads(k, num_kv_heads, head_dim, pairs, cos, sin);
}

/// A number of a head after the norm.
pub open spec fn head_normed<S: Scalar>(
    x: Seq<S>,
    base: int,
    w: Seq<u16>,
    head_dim: usize,
    eps: S,
    d: int,
) -> S {
    x[base + d].s_times(inv_rms(x, base, head_dim, eps)).s_times(bf16_value(w[d]))
}

/// A number of a head after norm and turn.
pub open spec fn head_normed_roped<S: Scalar>(
    x: Seq<S>,
    base: int,
    w: Seq<u16>,
    head_dim: usize,
    rotary_dim: int,
    cos: Seq<S>,
    sin: Seq<S>,
    eps: S,
    d: int,
) -> S {
    let half = rotary_dim / 2;
    let v = head_normed(x, base, w, head_dim, eps, d);
    if d < half {
        v.s_times(cos[d]).s_minus(
            head_normed(x, base, w, head_dim, eps, d + half).s_times(sin[d]),
        )
    } else if d < rotary_dim {
        head_normed(x, base, w, head_dim, eps, d - half).s_times(sin[d - half]).s_plus(
            v.s_times(cos[d - half]),
        )
    } else {
        v
    }
}

/// One number of a head after norm and turn.
fn normed_and_roped<S: Scalar>(
    x: &[S],
    base: usize,
    inv: &S,
    w: &[u16],
    rotary_dim: usize,
    cos: &[S],
    sin: &[S],
    d: usize,
    Ghost(head_dim): Ghost<usize>,
    Ghost(eps): Ghost<S>,
) -> (r: S)
    requires
        d < head_dim,
        rotary_dim <= head_dim,
        base + head_dim <= x@.len(),
        head_dim <= w@.len(),
        rotary_dim - rotary_dim as int / 2 <= cos@.len(),
        rotary_dim - rotary_dim as int / 2 <= sin@.len(),
        *inv == inv_rms(x@, base as int, head_dim, eps),
    ensures
        r == head_normed_roped(
            x@,
            base as int,
            w@,
            head_dim,
            rotary_dim as int,
            cos@,
            sin@,
            eps,
            d as int,
        ),
{
    assert(x@.len() == x.len());
    let half: usize = rotary_dim / 2;
    let v: S = x[base + d].times(inv).times(&bf16_scalar(w[d]));
    if d < half {
        let pair: S = x[base + d + half].times(inv).times(&bf16_scalar(w[d + half]));
        v.times(&cos[d]).minus(&pair.times(&sin[d]))
    } else if d < rotary_dim {
        let p: usize = d - half;
        let pair: S = x[base + p].times(inv).times(&bf16_scalar(w[p]));
        pair.times(&sin[p]).plus(&v.times(&cos[p]))
    } else {
        v
    }
}

/// Split the query projection into queries and gates, norm each query head and turn it.
pub fn q_head_norm_rope<S: Scalar>(
    q_proj: &[S],
    q_norm_w: &[u16],
    q_out: &mut [S],
    q_gate_out: &mut [S],
    num_q_heads: usize,
    head_dim: usize,
    rotary_dim: usize,
    cos: &[S],
    sin: &[S],
    eps: &S,
)
    requires
        rotary_dim <= head_dim,
        num_q_heads * 2 * head_dim <= q_proj@.len(),
        head_dim <= q_norm_w@.len(),
        num_q_heads * head_dim <= old(q_out)@.len(),
        num_q_heads * head_dim <= old(q_gate_out)@.len(),
        rotary_dim - rotary_dim as int / 2 <= cos@.len(),
        rotary_dim - rotary_dim as int / 2 <= sin@.len(),
    ensures
        final(q_out)@.len() == old(q_out)@.len(),
        final(q_gate_out)@.len() == old(q_gate_out)@.len(),
        forall|h: int, d: int|
            0 <= h < num_q_heads && 0 <= d < head_dim ==> #[trigger] final(q_out)@[h * head_dim + d]
                == head_normed_roped(
                q_proj@,
                h * 2 * head_dim,
                q_norm_w@,
                head_dim,
                rotary_dim as int,
                cos@,
                sin@,
                *eps,
                d,
            ),
        forall|h: int, d: int|
            0 <= h < num_q_heads && 0 <= d < head_dim ==> #[trigger] final(q_gate_out)@[h * head_dim
                + d] == q_proj@[h * 2 * head_dim + head_dim + d],
        forall|i: int|
            num_q_heads * head_dim <= i < old(q_out)@.len() ==> #[trigger] final(q_out)@[i]
                == old(q_out)@[i],
        forall|i: int|
            num_q_heads * head_dim <= i < old(q_gate_out)@.len()
                ==> #[trigger] final(q_gate_out)@[i] == old(q_gate_out)@[i],
{
    for h in 0..num_q_heads
        invariant
            rotary_dim <= head_dim,
            num_q_heads * 2 * head_dim <= q_proj@.len(),
            head_dim <= q_norm_w@.len(),
            num_q_heads * head_dim <= q_out@.len(),
            num_q_heads * head_dim <= q_gate_out@.len(),
            rotary_dim - rotary_dim as int / 2 <= cos@.len(),
            rotary_dim - rotary_dim as int / 2 <= sin@.len(),
            q_out@.len() == old(q_out)@.len(),
            q_gate_out@.len() == old(q_gate_out)@.len(),
            forall|g: int, d: int|
                0 <= g < h && 0 <= d < head_dim ==> #[trigger] q_out@[g * head_dim + d]
                    == head_normed_roped(
                    q_proj@,
                    g * 2 * head_dim,
                    q_norm_w@,
                    head_dim,
                    rotary_dim as int,
                    cos@,
                    sin@,
                    *eps,
                    d,
                ),
            forall|g: int, d: int|
                0 <= g < h && 0 <= d < head_dim ==> #[trigger] q_gate_out@[g * head_dim + d]
                    == q_proj@[g * 2 * head_dim + head_dim + d],
            forall|i: int|
                h * head_dim <= i < old(q_out)@.len() ==> #[trigger] q_out@[i] == old(q_out)@[i],
            forall|i: int|
                h * head_dim <= i < old(q_gate_out)@.len() ==> #[trigger] q_gate_out@[i]
                    == old(q_gate_out)@[i],
    {
        proof {
            assert(q_proj@.len() == q_proj.len() && q_out@.len() == q_out.len());
            assert(num_q_heads * 2 * head_dim == num_q_heads * (2 * head_dim)) by (nonlinear_arith);
            assert(h * 2 * head_dim == h * (2 * head_dim)) by (nonlinear_arith);
            lemma_within(h as int, num_q_heads as int, 2 * head_dim, 2 * head_dim);
            lemma_within(h as int, num_q_heads as int, head_dim as int, head_dim as int);
            assert(h * 2 <= h * 2 * head_dim || head_dim == 0) by (nonlinear_arith)
                requires
                    0 <= h,
                    0 <= head_dim,
            ;
            if head_dim == 0 {
                assert(h * (2 * head_dim) == 0) by (nonlinear_arith)
                    requires
                        head_dim == 0,
                ;
            }
            assert((h + 1) * head_dim == h * head_dim + head_dim) by (nonlinear_arith);
        }
        if head_dim > 0 {
            let src_base: usize = h * 2 * head_dim;
            let out_base: usize = h * head_dim;
            let ghost q_before = q_out@;
            let ghost g_before = q_gate_out@;
            let inv: S = inverse_rms(q_proj, src_base, head_dim, eps);
            for d in 0..head_dim
                invariant
                    rotary_dim <= head_dim,
                    src_base == h * 2 * head_dim,
                    out_base == h * head_dim,
                    src_base + 2 * head_dim <= q_proj@.len(),
                    out_base + head_dim <= q_out@.len(),
                    out_base + head_dim <= q_gate_out@.len(),
                    head_dim <= q_norm_w@.len(),
                    rotary_dim - rotary_dim as int / 2 <= cos@.len(),
                    rotary_dim - rotary_dim as int / 2 <= sin@.len(),
                    inv == inv_rms(q_proj@, src_base as int, head_dim, *eps),
                    q_out@.len() == q_before.len(),
                    q_gate_out@.len() == g_before.len(),
                    forall|i: int|
                        0 <= i < q_out@.len() ==> #[trigger] q_out@[i] == (if out_base <= i
                            < out_base + d {
                            head_normed_roped(
                                q_proj@,
                                src_base as int,
                                q_norm_w@,
                                head_dim,
                                rotary_dim as int,
                                cos@,
                                sin@,
                                *eps,
                                i - out_base,
                            )
                        } else {
                            q_before[i]
                        }),
                    forall|i: int|
                        0 <= i < q_gate_out@.len() ==> #[trigger] q_gate_out@[i] == (if out_base
                            <= i < out_base + d {
                            q_proj@[src_base + head_dim + (i - out_base)]
                        } else {
                            g_before[i]
                        }),
            {
                assert(q_proj@.len() == q_proj.len() && q_out@.len() == q_out.len()
                    && q_gate_out@.len() == q_gate_out.len());
                q_gate_out[out_base + d] = q_proj[src_base + head_dim + d].dup();
                q_out[out_base + d] = normed_and_roped(
                    q_proj,
                    src_base,
                    &inv,
                    q_norm_w,
                    rotary_dim,
                    cos,
                    sin,
                    d,
                    Ghost(head_dim),
                    Ghost(*eps),
                );
            }
            proof {
                assert forall|g: int, d: int| 0 <= g < h + 1 && 0 <= d < head_dim implies (
                #[trigger] q_out@[g * head_dim + d]) == head_normed_roped(
                    q_proj@,
                    g * 2 * head_dim,
                    q_norm_w@,
                    head_dim,
                    rotary_dim as int,
                    cos@,
                    sin@,
                    *eps,
                    d,
                ) by {
                    lemma_within(g, num_q_heads as int, head_dim as int, head_dim as int);
                    if g < h {
                        lemma_within(g, h as int, head_dim as int, head_dim as int);
                        assert(q_before[g * head_dim + d] == head_normed_roped(
                            q_proj@,
                            g * 2 * head_dim,
                            q_norm_w@,
                            head_dim,
                            rotary_dim as int,
                            cos@,
                            sin@,
                            *eps,
                            d,
                        ));
                    }
                }
                assert forall|g: int, d: int| 0 <= g < h + 1 && 0 <= d < head_dim implies (
                #[trigger] q_gate_out@[g * head_dim + d]) == q_proj@[g * 2 * head_dim + head_dim
                    + d] by {
                    lemma_within(g, num_q_heads as int, head_dim as int, head_dim as int);
                    if g < h {
                        lemma_within(g, h as int, head_dim as int, head_dim as int);
                        assert(g_before[g * head_dim + d] == q_proj@[g * 2 * head_dim + head_dim
                            + d]);
                    }
                }
            }
        }
    }
}

/// Norm each key head and turn it, in place.
pub fn k_head_norm_rope<S: Scalar>(
    k_buf: &mut [S],
    k_norm_w: &[u16],
    num_kv_heads: usize,
    head_dim: usize,
    rotary_dim: usize,
    cos: &[S],
    sin: &[S],
    eps: &S,
)
    requires
        rotary_dim <= head_dim,
        num_kv_heads * head_dim <= old(k_buf)@.len(),
        head_dim <= k_norm_w@.len(),
        rotary_dim - rotary_dim as int / 2 <= cos@.len(),
        rotary_dim - rotary_dim as int / 2 <= sin@.len(),
    ensures
        final(k_buf)@.len() == old(k_buf)@.len(),
        forall|h: int, d: int|
            0 <= h < num_kv_heads && 0 <= d < head_dim ==> #[trigger] final(k_buf)@[h * head_dim
                + d] == head_normed_roped(
                old(k_buf)@,
                h * head_dim,
                k_norm_w@,
                head_dim,
                rotary_dim as int,
                cos@,
                sin@,
                *eps,
                d,
            ),
        forall|i: int|
            num_kv_heads * head_dim <= i < old(k_buf)@.len() ==> #[trigger] final(k_buf)@[i]
                == old(k_buf)@[i],
{
    let orig: Vec<S> = crate::math_util::copy_of(k_buf);
    for h in 0..num_kv_heads
        invariant
            orig@ == old(k_buf)@,
            rotary_dim <= head_dim,
            num_kv_heads * head_dim <= orig@.len(),
            head_dim <= k_norm_w@.len(),
            rotary_dim - rotary_dim as int / 2 <= cos@.len(),
            rotary_dim - rotary_dim as int / 2 <= sin@.len(),
            k_buf@.len() == orig@.len(),
            forall|g: int, d: int|
                0 <= g < h && 0 <= d < head_dim ==> #[trigger] k_buf@[g * head_dim + d]
                    == head_normed_roped(
                    orig@,
                    g * head_dim,
                    k_norm_w@,
                    head_dim,
                    rotary_dim as int,
                    cos@,
                    sin@,
                    *eps,
                    d,
                ),
            forall|i: int| h * head_dim <= i < orig@.len() ==> #[trigger] k_buf@[i] == orig@[i],
    {
        proof {
            assert(k_buf@.len() == k_buf.len());
            lemma_within(h as int, num_kv_heads as int, head_dim as int, head_dim as int);
            assert((h + 1) * head_dim == h * head_dim + head_dim) by (nonlinear_arith);
        }
        let base: usize = h * head_dim;
        let ghost before = k_buf@;
        let inv: S = inverse_rms(orig.as_slice(), base, head_dim, eps);
        for d in 0..head_dim
            invariant
                rotary_dim <= head_dim,
                base + head_dim <= orig@.len(),
                head_dim <= k_norm_w@.len(),
                rotary_dim - rotary_dim as int / 2 <= cos@.len(),
                rotary_dim - rotary_dim as int / 2 <= sin@.len(),
                inv == inv_rms(orig@, base as int, head_dim, *eps),
                before.len() == orig@.len(),
                k_buf@.len() == before.len(),
                forall|i: int|
                    0 <= i < k_buf@.len() ==> #[trigger] k_buf@[i] == (if base <= i < base + d {
                        head_normed_roped(
                            orig@,
                            base as int,
                            k_norm_w@,
                            head_dim,
                            rotary_dim as int,
                            cos@,
                            sin@,
                            *eps,
                            i - base,
                        )
                    } else {
                        before[i]
                    }),
        {
            assert(k_buf@.len() == k_buf.len());
            k_buf[base + d] = normed_and_roped(
                orig.as_slice(),
                base,
                &inv,
                k_norm_w,
                rotary_dim,
                cos,
                sin,
                d,
                Ghost(head_dim),
                Ghost(*eps),
            );
        }
        proof {
            assert forall|g: int, d: int| 0 <= g < h + 1 && 0 <= d < head_dim implies (
            #[trigger] k_buf@[g * head_dim + d]) == head_normed_roped(
                orig@,
                g * head_dim,
                k_norm_w@,
                head_dim,
                rotary_dim as int,
                cos@,
                sin@,
                *eps,
                d,
            ) by {
                lemma_within(g, num_kv_heads as int, head_dim as int, head_dim as int);
                if g < h {
                    lemma_within(g, h as int, head_dim as int, head_dim as int);
                    assert(before[g * head_dim + d] == head_normed_roped(
                        orig@,
                        g * head_dim,
                        k_norm_w@,
                        head_dim,
                        rotary_dim as int,
                        cos@,
                        sin@,
                        *eps,
                        d,
                    ));
                }
            }
        }
    }
}

proof fn lemma_roped_beyond<S: Scalar>(
    x: Seq<S>,
    heads: int,
    head_dim: int,
    half: int,
    cos: Seq<S>,
    sin: Seq<S>,
    i: int,
)
    requires
        0 <= heads,
        0 <= half,
        2 * half <= head_dim,
        heads * head_dim <= i < x.len(),
    ensures
        roped(x, heads, head_dim, half, cos, sin).len() == x.len(),
        roped(x, heads, head_dim, half, cos, sin)[i] == x[i],
    decreases heads,
{
    if heads > 0 {
        lemma_within(heads - 1, heads, head_dim, head_dim);
        lemma_roped_beyond(x, heads - 1, head_dim, half, cos, sin, i);
        law_rope_head(
            roped(x, heads - 1, head_dim, half, cos, sin),
            (heads - 1) * head_dim,
            half,
            cos,
            sin,
            half,
            i,
        );
    }
}

/// Rotation of all heads with pairs half the rotary dimension apart, number by number: in every
/// head, numbers `d` and `d + half` are turned by the angle of place `d`; the rest of the head
/// stays.
pub proof fn law_rope<S: Scalar>(
    x: Seq<S>,
    heads: int,
    head_dim: int,
    half: int,
    cos: Seq<S>,
    sin: Seq<S>,
    h: int,
    d: int,
)
    requires
        0 <= h < heads,
        0 <= d < head_dim,
        0 <= half,
        2 * half <= head_dim,
        heads * head_dim <= x.len(),
    ensures
        ({
            let b = h * head_dim;
            let r = roped(x, heads, head_dim, half, cos, sin);
            &&& r.len() == x.len()
            &&& r[b + d] == (if d < half {
                x[b + d].s_times(cos[d]).s_minus(x[b + d + half].s_times(sin[d]))
            } else if d < 2 * half {
                x[b + d - half].s_times(sin[d - half]).s_plus(x[b + d].s_times(cos[d - half]))
            } else {
                x[b + d]
            })
        }),
    decreases heads,
{
    let b = h * head_dim;
    let last = (heads - 1) * head_dim;
    lemma_within(heads - 1, heads, head_dim, head_dim);
    lemma_within(h, heads, head_dim, head_dim);
    let before = roped(x, heads - 1, head_dim, half, cos, sin);
    lemma_roped_beyond(x, heads - 1, head_dim, half, cos, sin, last);
    law_rope_head(before, last, half, cos, sin, half, b + d);
    if h < heads - 1 {
        lemma_within(h, heads - 1, head_dim, head_dim);
        law_rope(x, heads - 1, head_dim, half, cos, sin, h, d);
    } else {
        lemma_roped_beyond(x, heads - 1, head_dim, half, cos, sin, b + d);
        if d < half {
            lemma_roped_beyond(x, heads - 1, head_dim, half, cos, sin, b + d + half);
        } else if d < 2 * half {
            lemma_roped_beyond(x, heads - 1, head_dim, half, cos, sin, b + d - half);
        }
    }
}

/// Where the pairs are neighbours, each number of a turned head is a combination of the two
/// numbers of its pair, and the rest of the head stays.
pub proof fn law_twist_head<S: Scalar>(
    x: Seq<S>,
    base: int,
    cos: Seq<S>,
    sin: Seq<S>,
    n: int,
    i: int,
)
    requires
        0 <= base,
        0 <= n,
        base + 2 * n <= x.len(),
        0 <= i < x.len(),
    ensures
        ({
            let p = (i - base) / 2;
            let r = twisted_head(x, base, cos, sin, n);
            &&& r.len() == x.len()
            &&& r[i] == (if base <= i < base + 2 * n {
                if (i - base) % 2 == 0 {
                    x[i].s_times(cos[p]).s_minus(x[i + 1].s_times(sin[p]))
                } else {
                    x[i - 1].s_times(sin[p]).s_plus(x[i].s_times(cos[p]))
                }
            } else {
                x[i]
            })
        }),
    decreases n,
{
    if n > 0 {
        let a = base + 2 * (n - 1);
        law_twist_head(x, base, cos, sin, n - 1, i);
        law_twist_head(x, base, cos, sin, n - 1, a);
        law_twist_head(x, base, cos, sin, n - 1, a + 1);
    }
}

proof fn lemma_twisted_beyond<S: Scalar>(
    x: Seq<S>,
    heads: int,
    head_dim: int,
    pairs: int,
    cos: Seq<S>,
    sin: Seq<S>,
    i: int,
)
    requires
        0 <= heads,
        0 <= pairs,
        2 * pairs <= head_dim,
        heads * head_dim <= i < x.len(),
    ensures
        twisted(x, heads, head_dim, pairs, cos, sin).len() == x.len(),
        twisted(x, heads, head_dim, pairs, cos, sin)[i] == x[i],
    decreases heads,
{
    if heads > 0 {
        lemma_within(heads - 1, heads, head_dim, head_dim);
        lemma_twisted_beyond(x, heads - 1, head_dim, pairs, cos, sin, i);
        law_twist_head(
            twisted(x, heads - 1, head_dim, pairs, cos, sin),
            (heads - 1) * head_dim,
            cos,
            sin,
            pairs,
            i,
        );
    }
}

/// Rotation of all heads with neighbours as pairs, number by number: in every head, numbers
/// `2 * p` and `2 * p + 1` are turned by the angle of place `p`; the rest of the head stays.
pub proof fn law_twist<S: Scalar>(
    x: Seq<S>,
    heads: int,
    head_dim: int,
    pairs: int,
    cos: Seq<S>,
    sin: Seq<S>,
    h: int,
    d: int,
)
    requires
        0 <= h < heads,
        0 <= d < head_dim,
        0 <= pairs,
        2 * pairs <= head_dim,
        heads * head_dim <= x.len(),
    ensures
        ({
            let b = h * head_dim;
            let p = d / 2;
            let r = twisted(x, heads, head_dim, pairs, cos, sin);
            &&& r.len() == x.len()
            &&& r[b + d] == (if d >= 2 * pairs {
                x[b + d]
            } else if d % 2 == 0 {
                x[b + d].s_times(cos[p]).s_minus(x[b + d + 1].s_times(sin[p]))
            } else {
                x[b + d - 1].s_times(sin[p]).s_plus(x[b + d].s_times(cos[p]))
            })
        }),
    decreases heads,
{
    let b = h * head_dim;
    let last = (heads - 1) * head_dim;
    lemma_within(heads - 1, heads, head_dim, head_dim);
    lemma_within(h, heads, head_dim, head_dim);
    let before = twisted(x, heads - 1, head_dim, pairs, cos, sin);
    lemma_twisted_beyond(x, heads - 1, head_dim, pairs, cos, sin, last);
    law_twist_head(before, last, cos, sin, pairs, b + d);
    if h < heads - 1 {
        lemma_within(h, heads - 1, head_dim, head_dim);
        law_twist(x, heads - 1, head_dim, pairs, cos, sin, h, d);
    } else {
        lemma_twisted_beyond(x, heads - 1, head_dim, pairs, cos, sin, b + d);
        if d < 2 * pairs {
            if d % 2 == 0 {
                lemma_twisted_beyond(x, heads - 1, head_dim, pairs, cos, sin, b + d + 1);
            } else {
                lemma_twisted_beyond(x, heads - 1, head_dim, pairs, cos, sin, b + d - 1);
            }
        }
    }
}

/// A turn is a rotation: where arithmetic is exact, the square of a pair's length is multiplied
/// by the sum of the squares of cosine and sine, and all other numbers stay.
pub proof fn law_turn_is_a_rotation<S: Scalar>(
    x: Seq<S>,
    a: int,
    b: int,
    cos: S,
    sin: S,
    value: spec_fn(S) -> int,
)
    requires
        0 <= a < x.len(),
        0 <= b < x.len(),
        a != b,
        forall|y: S, z: S| value(#[trigger] y.s_plus(z)) == value(y) + value(z),
        forall|y: S, z: S| value(#[trigger] y.s_minus(z)) == value(y) - value(z),
        forall|y: S, z: S| value(#[trigger] y.s_times(z)) == value(y) * value(z),
    ensures
        ({
            let r = turned(x, a, b, cos, sin);
            let (p, q) = (value(x[a]), value(x[b]));
            let (u, v) = (value(r[a]), value(r[b]));
            let (c, s) = (value(cos), value(sin));
            &&& u * u + v * v == (p * p + q * q) * (c * c + s * s)
            &&& u == p * c - q * s
            &&& v == p * s + q * c
            &&& forall|i: int| 0 <= i < x.len() && i != a && i != b ==> #[trigger] r[i] == x[i]
        }),
{
    let r = turned(x, a, b, cos, sin);
    let (p, q) = (value(x[a]), value(x[b]));
    let (u, v) = (value(r[a]), value(r[b]));
    let (c, s) = (value(cos), value(sin));
    let (pc, qs, ps, qc) = (p * c, q * s, p * s, q * c);
    assert((pc - qs) * (pc - qs) == pc * pc - 2 * (pc * qs) + qs * qs) by (nonlinear_arith);
    assert((ps + qc) * (ps + qc) == ps * ps + 2 * (ps * qc) + qc * qc) by (nonlinear_arith);
    assert((p * c) * (q * s) == (p * s) * (q * c)) by (nonlinear_arith);
    assert((p * c) * (p * c) == (p * p) * (c * c)) by (nonlinear_arith);
    assert((q * s) * (q * s) == (q * q) * (s * s)) by (nonlinear_arith);
    assert((p * s) * (p * s) == (p * p) * (s * s)) by (nonlinear_arith);
    assert((q * c) * (q * c) == (q * q) * (c * c)) by (nonlinear_arith);
    let (pp, qq, cc, ss) = (p * p, q * q, c * c, s * s);
    assert((pp + qq) * (cc + ss) == pp * cc + pp * ss + qq * cc + qq * ss) by (nonlinear_arith);
    assert(u == pc - qs && v == ps + qc);
}

/// Norm and rotation of a head in one pass, number by number, with the scale of the head's own
/// numbers: what the norm of heads followed by the rotation of heads gives.
pub proof fn law_norm_and_rope<S: Scalar>(
    x: Seq<S>,
    base: int,
    w: Seq<u16>,
    head_dim: usize,
    rotary_dim: int,
    cos: Seq<S>,
    sin: Seq<S>,
    eps: S,
    d: int,
)
    requires
        0 <= base,
        0 <= d < head_dim,
        0 <= rotary_dim <= head_dim,
        rotary_dim % 2 == 0,
        base + head_dim <= x.len(),
        head_dim <= w.len(),
    ensures
        ({
            let head = x.subrange(base, base + head_dim);
            let normed = normed_heads(NormOrder::ScaleFirst, head, 1, head_dim, w, eps);
            head_normed_roped(x, base, w, head_dim, rotary_dim, cos, sin, eps, d) == roped(
                normed,
                1,
                head_dim as int,
                rotary_dim / 2,
                cos,
                sin,
            )[d]
        }),
{
    let n = head_dim as int;
    let half = rotary_dim / 2;
    let head = x.subrange(base, base + n);
    let normed = normed_heads(NormOrder::ScaleFirst, head, 1, head_dim, w, eps);
    assert(head.subrange(0 * n, 0 * n + n) =~= head);
    law_inv_rms(x, base, head_dim, eps);
    law_normed_heads(NormOrder::ScaleFirst, head, 1, head_dim, w, eps, 0, d);
    law_rope(normed, 1, n, half, cos, sin, 0, d);
    if d < half {
        law_normed_heads(NormOrder::ScaleFirst, head, 1, head_dim, w, eps, 0, d + half);
    } else if d < rotary_dim {
        law_normed_heads(NormOrder::ScaleFirst, head, 1, head_dim, w, eps, 0, d - half);
    }
}

/// Neighbours are turned in pairs until all rotary numbers are; of an odd number of them the last
/// one takes the number behind it along.
pub proof fn law_pair_count(rotary_dim: int)
    requires
        0 <= rotary_dim,
    ensures
        rotary_dim <= 2 * pair_count(rotary_dim) <= rotary_dim + 1,
{
}

} // verus!
