//! Full attention of one token on the CPU: heads, scores and values.

use vstd::arithmetic::mul::lemma_mul_inequality;
use vstd::prelude::*;

use crate::math_util::{
    copy_range, guarded_softmax_of, inv_rms, inverse_rms, law_inv_rms, law_softmax,
    softmax, softmax_of, softmax_range,
};
use crate::quant::{bf16_scalar, bf16_value, lemma_within, overwrite};
use crate::scalar::{one, one_of, zero, zero_of, zero_vec, Scalar};
use crate::stored::{lemma_plain_numbers, numbers, Stored};
use crate::sums::{inner, lemma_take_all, lemma_total_step, total};

verus! {

/// The dot product of `n` numbers of `a` and `b`.
pub open spec fn dot<S: Scalar>(a: Seq<S>, a_base: int, b: Seq<S>, b_base: int, n: int) -> S
    decreases n,
{
    if n <= 0 {
        zero()
    } else {
        dot(a, a_base, b, b_base, n - 1).s_plus(a[a_base + n - 1].s_times(b[b_base + n - 1]))
    }
}

/// The dot product of `n` numbers of `a` and `b`; those of `b` in the form of a cache.
pub fn dot_product<S: Scalar, T: Stored<S>>(
    a: &[S],
    a_base: usize,
    b: &[T],
    b_base: usize,
    n: usize,
) -> (r: S)
    requires
        a_base + n <= a@.len(),
        b_base + n <= b@.len(),
    ensures
        r == dot(a@, a_base as int, numbers(b@), b_base as int, n as int),
{
    let mut sum: S = zero_of();
    for i in 0..n
        invariant
            a_base + n <= a@.len(),
            b_base + n <= b@.len(),
            sum == dot(a@, a_base as int, numbers(b@), b_base as int, i as int),
    {
        assert(a@.len() == a.len() && b@.len() == b.len());
        sum = sum.plus(&a[a_base + i].times(&b[b_base + i].number()));
    }
    sum
}

/// The factor of attention scores: one over the root of the head dimension.
pub open spec fn score_scale<S: Scalar>(head_dim: usize) -> S {
    one::<S>().s_over(S::s_of_usize(head_dim).s_sqrt())
}

/// The factor of attention scores.
pub fn attention_scale<S: Scalar>(head_dim: usize) -> (r: S)
    ensures
        r == score_scale::<S>(head_dim),
{
    one_of::<S>().over(&S::of_usize(head_dim).root())
}

/// The scores of one query head against the first `seq_len` keys.
pub open spec fn head_scores<S: Scalar>(
    q: Seq<S>,
    q_base: int,
    k: Seq<S>,
    kv_dim: int,
    off: int,
    head_dim: usize,
    seq_len: int,
) -> Seq<S> {
    Seq::new(
        seq_len as nat,
        |t: int|
            dot(q, q_base, k, t * kv_dim + off, head_dim as int).s_times(
                score_scale::<S>(head_dim),
            ),
    )
}

/// The keys or values of the first `seq_len` positions, at `off`, lie in a cache.
pub open spec fn cache_covers(
    len: int,
    seq_len: int,
    kv_dim: int,
    off: int,
    head_dim: int,
) -> bool {
    seq_len > 0 ==> (seq_len - 1) * kv_dim + off + head_dim <= len
}

/// Write the scores of one query head into `scores` from `base` on.
fn score_head<S: Scalar, T: Stored<S>>(
    q: &[S],
    q_base: usize,
    k: &[T],
    kv_dim: usize,
    off: usize,
    head_dim: usize,
    scores: &mut [S],
    base: usize,
    seq_len: usize,
)
    requires
        q_base + head_dim <= q@.len(),
        cache_covers(k@.len() as int, seq_len as int, kv_dim as int, off as int, head_dim as int),
        base + seq_len <= old(scores)@.len(),
    ensures
        final(scores)@ == overwrite(
            old(scores)@,
            base as int,
            head_scores(
                q@,
                q_base as int,
                numbers(k@),
                kv_dim as int,
                off as int,
                head_dim,
                seq_len as int,
            ),
        ),
{
    let scale: S = attention_scale(head_dim);
    for t in 0..seq_len
        invariant
            q_base + head_dim <= q@.len(),
            cache_covers(
                k@.len() as int,
                seq_len as int,
                kv_dim as int,
                off as int,
                head_dim as int,
            ),
            base + seq_len <= scores@.len(),
            scores@.len() == old(scores)@.len(),
            scale == score_scale::<S>(head_dim),
            forall|j: int|
                0 <= j < scores@.len() ==> #[trigger] scores@[j] == (if base <= j < base + t {
                    dot(
                        q@,
                        q_base as int,
                        numbers(k@),
                        (j - base) * kv_dim + off,
                        head_dim as int,
                    ).s_times(scale)
                } else {
                    old(scores)@[j]
                }),
    {
        proof {
            assert(k@.len() == k.len() && scores@.len() == scores.len());
            lemma_mul_inequality(t as int, seq_len - 1, kv_dim as int);
            lemma_mul_inequality(0, t as int, kv_dim as int);
        }
        let d: S = dot_product(q, q_base, k, t * kv_dim + off, head_dim);
        scores[base + t] = d.times(&scale);
    }
    assert(scores@ =~= overwrite(
        old(scores)@,
        base as int,
        head_scores(
            q@,
            q_base as int,
            numbers(k@),
            kv_dim as int,
            off as int,
            head_dim,
            seq_len as int,
        ),
    ));
}

/// The weighted sum of one number of the values, the first `t` positions.
pub open spec fn value_sum<S: Scalar>(
    weights: Seq<S>,
    w_base: int,
    v: Seq<S>,
    kv_dim: int,
    at: int,
    t: int,
) -> S
    decreases t,
{
    if t <= 0 {
        zero()
    } else {
        value_sum(weights, w_base, v, kv_dim, at, t - 1).s_plus(
            weights[w_base + t - 1].s_times(v[(t - 1) * kv_dim + at]),
        )
    }
}

/// The weighted values of one head.
pub open spec fn head_values<S: Scalar>(
    weights: Seq<S>,
    w_base: int,
    v: Seq<S>,
    kv_dim: int,
    off: int,
    head_dim: int,
    seq_len: int,
) -> Seq<S> {
    Seq::new(
        head_dim as nat,
        |d: int| value_sum(weights, w_base, v, kv_dim, off + d, seq_len),
    )
}

/// Write the weighted values of one head into `out` from `base` on.
fn weigh_values<S: Scalar, T: Stored<S>>(
    weights: &[S],
    w_base: usize,
    v: &[T],
    kv_dim: usize,
    off: usize,
    head_dim: usize,
    out: &mut [S],
    base: usize,
    seq_len: usize,
)
    requires
        w_base + seq_len <= weights@.len(),
        cache_covers(v@.len() as int, seq_len as int, kv_dim as int, off as int, head_dim as int),
        base + head_dim <= old(out)@.len(),
    ensures
        final(out)@ == overwrite(
            old(out)@,
            base as int,
            head_values(
                weights@,
                w_base as int,
                numbers(v@),
                kv_dim as int,
                off as int,
                head_dim as int,
                seq_len as int,
            ),
        ),
{
    for d in 0..head_dim
        invariant
            base + head_dim <= out@.len(),
            out@.len() == old(out)@.len(),
            forall|j: int|
                0 <= j < out@.len() ==> #[trigger] out@[j] == (if base <= j < base + d {
                    zero()
                } else {
                    old(out)@[j]
                }),
    {
        assert(out@.len() == out.len());
        out[base + d] = zero_of();
    }
    for t in 0..seq_len
        invariant
            w_base + seq_len <= weights@.len(),
            cache_covers(
                v@.len() as int,
                seq_len as int,
                kv_dim as int,
                off as int,
                head_dim as int,
            ),
            base + head_dim <= out@.len(),
            out@.len() == old(out)@.len(),
            forall|j: int|
                0 <= j < out@.len() ==> #[trigger] out@[j] == (if base <= j < base + head_dim {
                    value_sum(
                        weights@,
                        w_base as int,
                        numbers(v@),
                        kv_dim as int,
                        off + (j - base),
                        t as int,
                    )
                } else {
                    old(out)@[j]
                }),
    {
        proof {
            assert(v@.len() == v.len() && out@.len() == out.len() && weights@.len()
                == weights.len());
            lemma_mul_inequality(t as int, seq_len - 1, kv_dim as int);
            lemma_mul_inequality(0, t as int, kv_dim as int);
        }
        let w: S = weights[w_base + t].dup();
        let row: usize = t * kv_dim + off;
        let ghost before = out@;
        for d in 0..head_dim
            invariant
                w_base + seq_len <= weights@.len(),
                t < seq_len,
                w == weights@[w_base + t],
                row == t * kv_dim + off,
                row + head_dim <= v@.len(),
                base + head_dim <= out@.len(),
                out@.len() == before.len(),
                forall|j: int|
                    0 <= j < out@.len() ==> #[trigger] out@[j] == (if base <= j < base + d {
                        before[j].s_plus(w.s_times(v@[row + (j - base)].s_number()))
                    } else {
                        before[j]
                    }),
        {
            assert(v@.len() == v.len() && out@.len() == out.len());
            out[base + d] = out[base + d].plus(&w.times(&v[row + d].number()));
        }
        assert forall|j: int| 0 <= j < out@.len() implies (#[trigger] out@[j]) == (if base <= j
            < base + head_dim {
            value_sum(weights@, w_base as int, numbers(v@), kv_dim as int, off + (j - base), t + 1)
        } else {
            old(out)@[j]
        }) by {
            if base <= j < base + head_dim {
                assert(before[j] == value_sum(
                    weights@,
                    w_base as int,
                    numbers(v@),
                    kv_dim as int,
                    off + (j - base),
                    t as int,
                ));
            }
        }
    }
    assert(out@ =~= overwrite(
        old(out)@,
        base as int,
        head_values(
            weights@,
            w_base as int,
            numbers(v@),
            kv_dim as int,
            off as int,
            head_dim as int,
            seq_len as int,
        ),
    ));
}

/// The scores of the first `heads` query heads, each in a row of its own.
pub open spec fn scored<S: Scalar>(
    scores: Seq<S>,
    q: Seq<S>,
    k: Seq<S>,
    heads: int,
    heads_per_kv: int,
    head_dim: usize,
    kv_dim: int,
    seq_len: int,
    stride: int,
) -> Seq<S>
    decreases heads,
{
    if heads <= 0 {
        scores
    } else {
        overwrite(
            scored(scores, q, k, heads - 1, heads_per_kv, head_dim, kv_dim, seq_len, stride),
            (heads - 1) * stride,
            head_scores(
                q,
                (heads - 1) * head_dim,
                k,
                kv_dim,
                ((heads - 1) / heads_per_kv) * head_dim,
                head_dim,
                seq_len,
            ),
        )
    }
}

/// A cache of `seq_len` positions covers the key heads of all query heads.
pub open spec fn covers_heads(
    len: int,
    heads: int,
    heads_per_kv: int,
    head_dim: int,
    kv_dim: int,
    seq_len: int,
) -> bool {
    heads > 0 ==> cache_covers(
        len,
        seq_len,
        kv_dim,
        ((heads - 1) / heads_per_kv) * head_dim,
        head_dim,
    )
}

/// Rows of `width` numbers, `stride` apart, lie in a sequence.
pub open spec fn rows_fit(len: int, rows: int, stride: int, width: int) -> bool {
    rows > 0 ==> (rows - 1) * stride + width <= len
}

/// The key head of a query head lies in a cache that covers all heads.
pub proof fn lemma_head_covered(
    len: int,
    heads: int,
    heads_per_kv: int,
    head_dim: int,
    kv_dim: int,
    seq_len: int,
    h: int,
)
    requires
        0 <= h < heads,
        0 < heads_per_kv,
        0 <= head_dim,
        covers_heads(len, heads, heads_per_kv, head_dim, kv_dim, seq_len),
    ensures
        cache_covers(len, seq_len, kv_dim, (h / heads_per_kv) * head_dim, head_dim),
        0 <= (h / heads_per_kv) * head_dim <= h * head_dim,
{
    vstd::arithmetic::div_mod::lemma_div_is_ordered(h, heads - 1, heads_per_kv);
    vstd::arithmetic::div_mod::lemma_div_pos_is_pos(h, heads_per_kv);
    lemma_mul_inequality(h / heads_per_kv, (heads - 1) / heads_per_kv, head_dim);
    lemma_mul_inequality(0, h / heads_per_kv, head_dim);
    vstd::arithmetic::div_mod::lemma_div_is_ordered_by_denominator(h, 1, heads_per_kv);
    vstd::arithmetic::div_mod::lemma_div_basics(h);
    lemma_mul_inequality(h / heads_per_kv, h, head_dim);
}

/// A row lies in a sequence that holds all rows.
pub proof fn lemma_row_fits(len: int, rows: int, stride: int, width: int, r: int)
    requires
        0 <= r < rows,
        0 <= stride,
        rows_fit(len, rows, stride, width),
    ensures
        0 <= r * stride,
        r * stride + width <= len,
{
    lemma_mul_inequality(r, rows - 1, stride);
    lemma_mul_inequality(0, r, stride);
}

/// Scores of all query heads against the cached keys; head `h` writes from `h * max_seq` on.
pub fn attention_scores_batched<S: Scalar>(
    q: &[S],
    k_cache: &[S],
    scores: &mut [S],
    num_q_heads: usize,
    num_kv_heads: usize,
    head_dim: usize,
    kv_dim: usize,
    seq_len: usize,
    max_seq: usize,
)
    requires
        0 < num_kv_heads,
        num_q_heads > 0 ==> num_kv_heads <= num_q_heads,
        num_q_heads * head_dim <= q@.len(),
        covers_heads(
            k_cache@.len() as int,
            num_q_heads as int,
            num_q_heads as int / num_kv_heads as int,
            head_dim as int,
            kv_dim as int,
            seq_len as int,
        ),
        rows_fit(
            old(scores)@.len() as int,
            num_q_heads as int,
            max_seq as int,
            seq_len as int,
        ),
    ensures
        final(scores)@.len() == old(scores)@.len(),
        final(scores)@ == scored(
            old(scores)@,
            q@,
            k_cache@,
            num_q_heads as int,
            num_q_heads as int / num_kv_heads as int,
            head_dim,
            kv_dim as int,
            seq_len as int,
            max_seq as int,
        ),
{
    if num_q_heads == 0 {
        return;
    }
    let n_rep: usize = num_q_heads / num_kv_heads;
    proof {
        vstd::arithmetic::div_mod::lemma_div_is_ordered(
            num_kv_heads as int,
            num_q_heads as int,
            num_kv_heads as int,
        );
        vstd::arithmetic::div_mod::lemma_div_by_self(num_kv_heads as int);
    }
    for qh in 0..num_q_heads
        invariant
            0 < n_rep,
            num_q_heads * head_dim <= q@.len(),
            covers_heads(
                k_cache@.len() as int,
                num_q_heads as int,
                n_rep as int,
                head_dim as int,
                kv_dim as int,
                seq_len as int,
            ),
            rows_fit(scores@.len() as int, num_q_heads as int, max_seq as int, seq_len as int),
            scores@.len() == old(scores)@.len(),
            scores@ == scored(
                old(scores)@,
                q@,
                k_cache@,
                qh as int,
                n_rep as int,
                head_dim,
                kv_dim as int,
                seq_len as int,
                max_seq as int,
            ),
    {
        proof {
            lemma_plain_numbers(k_cache@);
            assert(k_cache@.len() == k_cache.len() && q@.len() == q.len() && scores@.len()
                == scores.len());
            lemma_head_covered(
                k_cache@.len() as int,
                num_q_heads as int,
                n_rep as int,
                head_dim as int,
                kv_dim as int,
                seq_len as int,
                qh as int,
            );
            lemma_within(qh as int, num_q_heads as int, head_dim as int, head_dim as int);
            lemma_row_fits(
                scores@.len() as int,
                num_q_heads as int,
                max_seq as int,
                seq_len as int,
                qh as int,
            );
        }
        let off: usize = (qh / n_rep) * head_dim;
        score_head(
            q,
            qh * head_dim,
            k_cache,
            kv_dim,
            off,
            head_dim,
            scores,
            qh * max_seq,
            seq_len,
        );
    }
}

/// The first `heads` rows of scores after softmax.
pub open spec fn softmaxed<S: Scalar>(
    scores: Seq<S>,
    heads: int,
    seq_len: int,
    stride: int,
) -> Seq<S>
    decreases heads,
{
    if heads <= 0 {
        scores
    } else {
        let before = softmaxed(scores, heads - 1, seq_len, stride);
        overwrite(
            before,
            (heads - 1) * stride,
            guarded_softmax_of(before, (heads - 1) * stride, seq_len),
        )
    }
}

/// Softmax over the first `seq_len` scores of each head.
pub fn attention_softmax_batched<S: Scalar>(
    scores: &mut [S],
    num_q_heads: usize,
    seq_len: usize,
    max_seq: usize,
)
    requires
        rows_fit(
            old(scores)@.len() as int,
            num_q_heads as int,
            max_seq as int,
            seq_len as int,
        ),
    ensures
        final(scores)@.len() == old(scores)@.len(),
        final(scores)@ == softmaxed(
            old(scores)@,
            num_q_heads as int,
            seq_len as int,
            max_seq as int,
        ),
{
    for h in 0..num_q_heads
        invariant
            rows_fit(scores@.len() as int, num_q_heads as int, max_seq as int, seq_len as int),
            scores@.len() == old(scores)@.len(),
            scores@ == softmaxed(old(scores)@, h as int, seq_len as int, max_seq as int),
    {
        proof {
            assert(scores@.len() == scores.len());
            lemma_row_fits(
                scores@.len() as int,
                num_q_heads as int,
                max_seq as int,
                seq_len as int,
                h as int,
            );
        }
        softmax_range(scores, h * max_seq, seq_len);
    }
}

/// The weighted values of the first `heads` query heads.
pub open spec fn valued<S: Scalar>(
    out: Seq<S>,
    scores: Seq<S>,
    v: Seq<S>,
    heads: int,
    heads_per_kv: int,
    head_dim: int,
    kv_dim: int,
    seq_len: int,
    stride: int,
) -> Seq<S>
    decreases heads,
{
    if heads <= 0 {
        out
    } else {
        overwrite(
            valued(out, scores, v, heads - 1, heads_per_kv, head_dim, kv_dim, seq_len, stride),
            (heads - 1) * head_dim,
            head_values(
                scores,
                (heads - 1) * stride,
                v,
                kv_dim,
                ((heads - 1) / heads_per_kv) * head_dim,
                head_dim,
                seq_len,
            ),
        )
    }
}

/// Values of all query heads, weighted by their scores.
pub fn attention_values_batched<S: Scalar>(
    scores: &[S],
    v_cache: &[S],
    out: &mut [S],
    num_q_heads: usize,
    num_kv_heads: usize,
    head_dim: usize,
    kv_dim: usize,
    seq_len: usize,
    max_seq: usize,
)
    requires
        0 < num_kv_heads,
        num_q_heads > 0 ==> num_kv_heads <= num_q_heads,
        num_q_heads * head_dim <= old(out)@.len(),
        covers_heads(
            v_cache@.len() as int,
            num_q_heads as int,
            num_q_heads as int / num_kv_heads as int,
            head_dim as int,
            kv_dim as int,
            seq_len as int,
        ),
        rows_fit(scores@.len() as int, num_q_heads as int, max_seq as int, seq_len as int),
    ensures
        final(out)@.len() == old(out)@.len(),
        final(out)@ == valued(
            old(out)@,
            scores@,
            v_cache@,
            num_q_heads as int,
            num_q_heads as int / num_kv_heads as int,
            head_dim as int,
            kv_dim as int,
            seq_len as int,
            max_seq as int,
        ),
{
    if num_q_heads == 0 {
        return;
    }
    let n_rep: usize = num_q_heads / num_kv_heads;
    proof {
        vstd::arithmetic::div_mod::lemma_div_is_ordered(
            num_kv_heads as int,
            num_q_heads as int,
            num_kv_heads as int,
        );
        vstd::arithmetic::div_mod::lemma_div_by_self(num_kv_heads as int);
    }
    for qh in 0..num_q_heads
        invariant
            0 < n_rep,
            num_q_heads * head_dim <= out@.len(),
            out@.len() == old(out)@.len(),
            covers_heads(
                v_cache@.len() as int,
                num_q_heads as int,
                n_rep as int,
                head_dim as int,
                kv_dim as int,
                seq_len as int,
            ),
            rows_fit(scores@.len() as int, num_q_heads as int, max_seq as int, seq_len as int),
            out@ == valued(
                old(out)@,
                scores@,
                v_cache@,
                qh as int,
                n_rep as int,
                head_dim as int,
                kv_dim as int,
                seq_len as int,
                max_seq as int,
            ),
    {
        proof {
            lemma_plain_numbers(v_cache@);
            assert(v_cache@.len() == v_cache.len() && out@.len() == out.len() && scores@.len()
                == scores.len());
            lemma_head_covered(
                v_cache@.len() as int,
                num_q_heads as int,
                n_rep as int,
                head_dim as int,
                kv_dim as int,
                seq_len as int,
                qh as int,
            );
            lemma_within(qh as int, num_q_heads as int, head_dim as int, head_dim as int);
            lemma_row_fits(
                scores@.len() as int,
                num_q_heads as int,
                max_seq as int,
                seq_len as int,
                qh as int,
            );
        }
        let off: usize = (qh / n_rep) * head_dim;
        weigh_values(
            scores,
            qh * max_seq,
            v_cache,
            kv_dim,
            off,
            head_dim,
            out,
            qh * head_dim,
            seq_len,
        );
    }
}

/// The attention of one head: its values weighted by the softmax of its scores.
pub open spec fn attended_head<S: Scalar>(
    q: Seq<S>,
    k: Seq<S>,
    v: Seq<S>,
    h: int,
    heads_per_kv: int,
    head_dim: usize,
    kv_dim: int,
    seq_len: int,
) -> Seq<S> {
    let off = (h / heads_per_kv) * head_dim;
    let scores = head_scores(q, h * head_dim, k, kv_dim, off, head_dim, seq_len);
    head_values(softmax_of(scores, 0, seq_len), 0, v, kv_dim, off, head_dim as int, seq_len)
}

/// The attention of the first `heads` heads.
pub open spec fn attended<S: Scalar>(
    out: Seq<S>,
    q: Seq<S>,
    k: Seq<S>,
    v: Seq<S>,
    heads: int,
    heads_per_kv: int,
    head_dim: usize,
    kv_dim: int,
    seq_len: int,
) -> Seq<S>
    decreases heads,
{
    if heads <= 0 {
        out
    } else {
        overwrite(
            attended(out, q, k, v, heads - 1, heads_per_kv, head_dim, kv_dim, seq_len),
            (heads - 1) * head_dim,
            attended_head(q, k, v, heads - 1, heads_per_kv, head_dim, kv_dim, seq_len),
        )
    }
}

/// Attention of all query heads over the first `seq_len` positions of the caches.
pub fn attend<S: Scalar, T: Stored<S>>(
    q: &[S],
    k_cache: &[T],
    v_cache: &[T],
    out: &mut [S],
    num_q_heads: usize,
    heads_per_kv: usize,
    head_dim: usize,
    kv_dim: usize,
    seq_len: usize,
)
    requires
        0 < heads_per_kv,
        num_q_heads * head_dim <= q@.len(),
        num_q_heads * head_dim <= old(out)@.len(),
        covers_heads(
            k_cache@.len() as int,
            num_q_heads as int,
            heads_per_kv as int,
            head_dim as int,
            kv_dim as int,
            seq_len as int,
        ),
        covers_heads(
            v_cache@.len() as int,
            num_q_heads as int,
            heads_per_kv as int,
            head_dim as int,
            kv_dim as int,
            seq_len as int,
        ),
    ensures
        final(out)@.len() == old(out)@.len(),
        final(out)@ == attended(
            old(out)@,
            q@,
            numbers(k_cache@),
            numbers(v_cache@),
            num_q_heads as int,
            heads_per_kv as int,
            head_dim,
            kv_dim as int,
            seq_len as int,
        ),
{
    for h in 0..num_q_heads
        invariant
            0 < heads_per_kv,
            num_q_heads * head_dim <= q@.len(),
            num_q_heads * head_dim <= out@.len(),
            out@.len() == old(out)@.len(),
            covers_heads(
                k_cache@.len() as int,
                num_q_heads as int,
                heads_per_kv as int,
                head_dim as int,
                kv_dim as int,
                seq_len as int,
            ),
            covers_heads(
                v_cache@.len() as int,
                num_q_heads as int,
                heads_per_kv as int,
                head_dim as int,
                kv_dim as int,
                seq_len as int,
            ),
            out@ == attended(
                old(out)@,
                q@,
                numbers(k_cache@),
                numbers(v_cache@),
                h as int,
                heads_per_kv as int,
                head_dim,
                kv_dim as int,
                seq_len as int,
            ),
    {
        proof {
            assert(k_cache@.len() == k_cache.len() && v_cache@.len() == v_cache.len() && q@.len()
                == q.len() && out@.len() == out.len());
            lemma_head_covered(
                k_cache@.len() as int,
                num_q_heads as int,
                heads_per_kv as int,
                head_dim as int,
                kv_dim as int,
                seq_len as int,
                h as int,
            );
            lemma_head_covered(
                v_cache@.len() as int,
                num_q_heads as int,
                heads_per_kv as int,
                head_dim as int,
                kv_dim as int,
                seq_len as int,
                h as int,
            );
            lemma_within(h as int, num_q_heads as int, head_dim as int, head_dim as int);
        }
        let off: usize = (h / heads_per_kv) * head_dim;
        let mut scores: Vec<S> = zero_vec(seq_len);
        score_head(
            q,
            h * head_dim,
            k_cache,
            kv_dim,
            off,
            head_dim,
            scores.as_mut_slice(),
            0,
            seq_len,
        );
        let ghost raw = head_scores(
            q@,
            h * head_dim,
            numbers(k_cache@),
            kv_dim as int,
            off as int,
            head_dim,
            seq_len as int,
        );
        assert(scores@ =~= raw);
        softmax(scores.as_mut_slice());
        weigh_values(
            scores.as_slice(),
            0,
            v_cache,
            kv_dim,
            off,
            head_dim,
            out,
            h * head_dim,
            seq_len,
        );
    }
}

/// A head of the query projection split off into `out`; queries have `shift` 0, gates
/// `head_dim`.
pub open spec fn split_heads<S: Scalar>(
    out: Seq<S>,
    proj: Seq<S>,
    heads: int,
    head_dim: int,
    shift: int,
) -> Seq<S>
    decreases heads,
{
    if heads <= 0 {
        out
    } else {
        overwrite(
            split_heads(out, proj, heads - 1, head_dim, shift),
            (heads - 1) * head_dim,
            proj.subrange(
                (heads - 1) * (2 * head_dim) + shift,
                (heads - 1) * (2 * head_dim) + shift + head_dim,
            ),
        )
    }
}

/// Split the query projection: each head holds its queries and then its gates.
pub fn split_q_gate<S: Scalar>(
    q_proj: &[S],
    q: &mut [S],
    q_gate: &mut [S],
    heads: usize,
    head_dim: usize,
)
    requires
        heads * (2 * head_dim) <= q_proj@.len(),
        heads * head_dim <= old(q)@.len(),
        heads * head_dim <= old(q_gate)@.len(),
        2 * head_dim <= usize::MAX,
    ensures
        final(q)@.len() == old(q)@.len(),
        final(q_gate)@.len() == old(q_gate)@.len(),
        final(q)@ == split_heads(old(q)@, q_proj@, heads as int, head_dim as int, 0),
        final(q_gate)@ == split_heads(
            old(q_gate)@,
            q_proj@,
            heads as int,
            head_dim as int,
            head_dim as int,
        ),
{
    for h in 0..heads
        invariant
            heads * (2 * head_dim) <= q_proj@.len(),
            heads * head_dim <= q@.len(),
            heads * head_dim <= q_gate@.len(),
            2 * head_dim <= usize::MAX,
            q@.len() == old(q)@.len(),
            q_gate@.len() == old(q_gate)@.len(),
            q@ == split_heads(old(q)@, q_proj@, h as int, head_dim as int, 0),
            q_gate@ == split_heads(
                old(q_gate)@,
                q_proj@,
                h as int,
                head_dim as int,
                head_dim as int,
            ),
    {
        proof {
            assert(q@.len() == q.len() && q_proj@.len() == q_proj.len());
            lemma_within(h as int, heads as int, 2 * head_dim, 2 * head_dim);
            lemma_within(h as int, heads as int, head_dim as int, head_dim as int);
        }
        let src: usize = h * (2 * head_dim);
        copy_range(q, h * head_dim, q_proj, src, head_dim);
        copy_range(q_gate, h * head_dim, q_proj, src + head_dim, head_dim);
    }
}

/// Each number of a split is the number of its head in the projection.
pub proof fn law_split_heads<S: Scalar>(
    out: Seq<S>,
    proj: Seq<S>,
    heads: int,
    head_dim: int,
    shift: int,
    h: int,
    d: int,
)
    requires
        0 <= h < heads,
        0 <= d < head_dim,
        0 <= shift,
        shift + head_dim <= 2 * head_dim,
        heads * head_dim <= out.len(),
        heads * (2 * head_dim) <= proj.len(),
    ensures
        split_heads(out, proj, heads, head_dim, shift)[h * head_dim + d] == proj[h * (2 * head_dim)
            + shift + d],
    decreases heads,
{
    lemma_split_len(out, proj, heads - 1, head_dim, shift);
    lemma_within(heads - 1, heads, head_dim, head_dim);
    lemma_within(heads - 1, heads, 2 * head_dim, 2 * head_dim);
    lemma_within(h, heads, head_dim, head_dim);
    if h < heads - 1 {
        lemma_within(h, heads - 1, head_dim, head_dim);
        law_split_heads(out, proj, heads - 1, head_dim, shift, h, d);
    }
}

/// Splitting keeps the length.
proof fn lemma_split_len<S: Scalar>(
    out: Seq<S>,
    proj: Seq<S>,
    heads: int,
    head_dim: int,
    shift: int,
)
    ensures
        split_heads(out, proj, heads, head_dim, shift).len() == out.len(),
    decreases heads,
{
    if heads > 0 {
        lemma_split_len(out, proj, heads - 1, head_dim, shift);
    }
}

/// How a head's numbers are scaled: `x * r * w`, or `x * (r * w)`.
#[derive(Clone, Copy, Debug, PartialEq, Eq, Structural)]
pub enum NormOrder {
    /// The number times the scale, and then times the weight.
    ScaleFirst,
    /// The scale times the weight first.
    WeightFirst,
}

/// A number of a head, scaled and weighted.
pub open spec fn scaled_weighted<S: Scalar>(order: NormOrder, x: S, inv: S, w: S) -> S {
    match order {
        NormOrder::ScaleFirst => x.s_times(inv).s_times(w),
        NormOrder::WeightFirst => x.s_times(inv.s_times(w)),
    }
}

/// A head after its norm, as far as there are weights.
pub open spec fn head_norm<S: Scalar>(
    order: NormOrder,
    x: Seq<S>,
    base: int,
    head_dim: usize,
    w: Seq<u16>,
    eps: S,
) -> Seq<S> {
    let n = if head_dim <= w.len() {
        head_dim as int
    } else {
        w.len() as int
    };
    let inv = inv_rms(x, base, head_dim, eps);
    Seq::new(n as nat, |i: int| scaled_weighted(order, x[base + i], inv, bf16_value(w[i])))
}

/// The first `heads` heads after their norms.
pub open spec fn normed_heads<S: Scalar>(
    order: NormOrder,
    x: Seq<S>,
    heads: int,
    head_dim: usize,
    w: Seq<u16>,
    eps: S,
) -> Seq<S>
    decreases heads,
{
    if heads <= 0 {
        x
    } else {
        let before = normed_heads(order, x, heads - 1, head_dim, w, eps);
        overwrite(
            before,
            (heads - 1) * head_dim,
            head_norm(order, before, (heads - 1) * head_dim, head_dim, w, eps),
        )
    }
}

/// Heads after an optional norm.
pub open spec fn maybe_normed_heads<S: Scalar>(
    order: NormOrder,
    x: Seq<S>,
    heads: int,
    head_dim: usize,
    w: Option<&[u16]>,
    eps: S,
) -> Seq<S> {
    match w {
        Some(w) => normed_heads(order, x, heads, head_dim, w@, eps),
        None => x,
    }
}

/// Norm each head in place, if there are weights.
pub fn rms_norm_heads<S: Scalar>(
    order: NormOrder,
    data: &mut [S],
    num_heads: usize,
    head_dim: usize,
    weight: Option<&[u16]>,
    eps: &S,
)
    requires
        num_heads * head_dim <= old(data)@.len(),
    ensures
        final(data)@.len() == old(data)@.len(),
        final(data)@ == maybe_normed_heads(
            order,
            old(data)@,
            num_heads as int,
            head_dim,
            weight,
            *eps,
        ),
{
    if let Some(w) = weight {
        let n: usize = if head_dim <= w.len() {
            head_dim
        } else {
            w.len()
        };
        for h in 0..num_heads
            invariant
                n <= head_dim,
                n <= w@.len(),
                n == (if head_dim <= w@.len() {
                    head_dim as int
                } else {
                    w@.len() as int
                }),
                num_heads * head_dim <= data@.len(),
                data@.len() == old(data)@.len(),
                data@ == normed_heads(order, old(data)@, h as int, head_dim, w@, *eps),
        {
            proof {
                assert(data@.len() == data.len());
                lemma_within(h as int, num_heads as int, head_dim as int, head_dim as int);
            }
            let base: usize = h * head_dim;
            let ghost before = data@;
            let inv: S = inverse_rms(data, base, head_dim, eps);
            for i in 0..n
                invariant
                    n <= head_dim,
                    n <= w@.len(),
                    base + head_dim <= data@.len(),
                    data@.len() == before.len(),
                    inv == inv_rms(before, base as int, head_dim, *eps),
                    forall|j: int|
                        0 <= j < data@.len() ==> #[trigger] data@[j] == (if base <= j < base + i {
                            scaled_weighted(order, before[j], inv, bf16_value(w@[j - base]))
                        } else {
                            before[j]
                        }),
            {
                assert(data@.len() == data.len());
                let wi: S = bf16_scalar(w[i]);
                data[base + i] = match order {
                    NormOrder::ScaleFirst => data[base + i].times(&inv).times(&wi),
                    NormOrder::WeightFirst => data[base + i].times(&inv.times(&wi)),
                };
            }
            assert(data@ =~= overwrite(
                before,
                base as int,
                head_norm(order, before, base as int, head_dim, w@, *eps),
            ));
        }
    }
}

/// Append a token's keys and values to the caches.
pub fn kv_cache_append<S: Scalar>(
    k: &[S],
    v: &[S],
    k_cache: &mut [S],
    v_cache: &mut [S],
    pos: usize,
    kv_dim: usize,
)
    requires
        kv_dim <= k@.len(),
        kv_dim <= v@.len(),
        pos * kv_dim + kv_dim <= old(k_cache)@.len(),
        pos * kv_dim + kv_dim <= old(v_cache)@.len(),
    ensures
        final(k_cache)@ == overwrite(old(k_cache)@, pos * kv_dim, k@.take(kv_dim as int)),
        final(v_cache)@ == overwrite(old(v_cache)@, pos * kv_dim, v@.take(kv_dim as int)),
{
    proof {
        assert(k_cache@.len() == k_cache.len());
        lemma_mul_inequality(0, pos as int, kv_dim as int);
    }
    let dst: usize = pos * kv_dim;
    copy_range(k_cache, dst, k, 0, kv_dim);
    copy_range(v_cache, dst, v, 0, kv_dim);
    assert(k@.subrange(0, kv_dim as int) =~= k@.take(kv_dim as int));
    assert(v@.subrange(0, kv_dim as int) =~= v@.take(kv_dim as int));
}

proof fn lemma_dot_upto<S: Scalar>(
    a: Seq<S>,
    a_base: int,
    b: Seq<S>,
    b_base: int,
    n: int,
    k: int,
)
    requires
        0 <= a_base,
        0 <= b_base,
        0 <= k <= n,
        a_base + n <= a.len(),
        b_base + n <= b.len(),
    ensures
        ({
            let x = a.subrange(a_base, a_base + n);
            let y = b.subrange(b_base, b_base + n);
            dot(a, a_base, b, b_base, k) == total(
                Seq::new(x.len(), |i: int| x[i].s_times(y[i])).take(k),
            )
        }),
    decreases k,
{
    if k > 0 {
        let x = a.subrange(a_base, a_base + n);
        let y = b.subrange(b_base, b_base + n);
        lemma_dot_upto(a, a_base, b, b_base, n, k - 1);
        lemma_total_step(Seq::new(x.len(), |i: int| x[i].s_times(y[i])), k - 1);
    }
}

/// A dot product is the sum of the products of all numbers of two ranges.
pub proof fn law_dot<S: Scalar>(a: Seq<S>, a_base: int, b: Seq<S>, b_base: int, n: int)
    requires
        0 <= a_base,
        0 <= b_base,
        0 <= n,
        a_base + n <= a.len(),
        b_base + n <= b.len(),
    ensures
        dot(a, a_base, b, b_base, n) == inner(
            a.subrange(a_base, a_base + n),
            b.subrange(b_base, b_base + n),
        ),
{
    let x = a.subrange(a_base, a_base + n);
    let y = b.subrange(b_base, b_base + n);
    lemma_dot_upto(a, a_base, b, b_base, n, n);
    lemma_take_all(Seq::new(x.len(), |i: int| x[i].s_times(y[i])));
}

proof fn lemma_value_sum<S: Scalar>(
    weights: Seq<S>,
    w_base: int,
    v: Seq<S>,
    kv_dim: int,
    at: int,
    n: int,
    t: int,
)
    requires
        0 <= w_base,
        0 <= t <= n,
        w_base + n <= weights.len(),
    ensures
        ({
            let p = weights.subrange(w_base, w_base + n);
            let column = Seq::new(n as nat, |t: int| v[t * kv_dim + at]);
            value_sum(weights, w_base, v, kv_dim, at, t) == total(
                Seq::new(p.len(), |i: int| p[i].s_times(column[i])).take(t),
            )
        }),
    decreases t,
{
    if t > 0 {
        let p = weights.subrange(w_base, w_base + n);
        let column = Seq::new(n as nat, |t: int| v[t * kv_dim + at]);
        lemma_value_sum(weights, w_base, v, kv_dim, at, n, t - 1);
        lemma_total_step(Seq::new(p.len(), |i: int| p[i].s_times(column[i])), t - 1);
    }
}

/// A weighted value is the sum, over all positions, of the position's weight times the number
/// that the values hold for it.
pub proof fn law_value_sum<S: Scalar>(
    weights: Seq<S>,
    w_base: int,
    v: Seq<S>,
    kv_dim: int,
    at: int,
    n: int,
)
    requires
        0 <= w_base,
        0 <= n,
        w_base + n <= weights.len(),
    ensures
        value_sum(weights, w_base, v, kv_dim, at, n) == inner(
            weights.subrange(w_base, w_base + n),
            Seq::new(n as nat, |t: int| v[t * kv_dim + at]),
        ),
{
    let p = weights.subrange(w_base, w_base + n);
    let column = Seq::new(n as nat, |t: int| v[t * kv_dim + at]);
    lemma_value_sum(weights, w_base, v, kv_dim, at, n, n);
    lemma_take_all(Seq::new(p.len(), |i: int| p[i].s_times(column[i])));
}

/// The keys or values of a position lie in a cache that covers all positions.
proof fn lemma_position_covered(
    len: int,
    seq_len: int,
    kv_dim: int,
    off: int,
    head_dim: int,
    t: int,
)
    requires
        0 <= t < seq_len,
        0 <= kv_dim,
        0 <= off,
        cache_covers(len, seq_len, kv_dim, off, head_dim),
    ensures
        0 <= t * kv_dim + off,
        t * kv_dim + off + head_dim <= len,
{
    lemma_mul_inequality(t, seq_len - 1, kv_dim);
    lemma_mul_inequality(0, t, kv_dim);
}

/// The score of a position is the product of the whole query head with the position's key, over
/// the root of the head dimension.
pub proof fn law_head_scores<S: Scalar>(
    q: Seq<S>,
    q_base: int,
    k: Seq<S>,
    kv_dim: int,
    off: int,
    head_dim: usize,
    seq_len: int,
    t: int,
)
    requires
        0 <= q_base,
        q_base + head_dim <= q.len(),
        0 <= kv_dim,
        0 <= off,
        0 <= t < seq_len,
        cache_covers(k.len() as int, seq_len, kv_dim, off, head_dim as int),
    ensures
        ({
            let key = t * kv_dim + off;
            head_scores(q, q_base, k, kv_dim, off, head_dim, seq_len)[t] == inner(
                q.subrange(q_base, q_base + head_dim),
                k.subrange(key, key + head_dim),
            ).s_times(one::<S>().s_over(S::s_of_usize(head_dim).s_sqrt()))
        }),
{
    lemma_position_covered(k.len() as int, seq_len, kv_dim, off, head_dim as int, t);
    law_dot(q, q_base, k, t * kv_dim + off, head_dim as int);
}

proof fn lemma_attended_row<S: Scalar>(
    out: Seq<S>,
    q: Seq<S>,
    k: Seq<S>,
    v: Seq<S>,
    heads: int,
    heads_per_kv: int,
    head_dim: usize,
    kv_dim: int,
    seq_len: int,
    i: int,
)
    requires
        0 <= heads,
        heads * head_dim <= out.len(),
        0 <= i < out.len(),
    ensures
        ({
            let r = attended(out, q, k, v, heads, heads_per_kv, head_dim, kv_dim, seq_len);
            &&& r.len() == out.len()
            &&& heads * head_dim <= i ==> r[i] == out[i]
            &&& forall|h: int|
                0 <= h < heads && h * head_dim <= i < h * head_dim + head_dim ==> r[i]
                    == (#[trigger] attended_head(
                    q,
                    k,
                    v,
                    h,
                    heads_per_kv,
                    head_dim,
                    kv_dim,
                    seq_len,
                ))[i - h * head_dim]
        }),
    decreases heads,
{
    if heads > 0 {
        lemma_within(heads - 1, heads, head_dim as int, head_dim as int);
        lemma_attended_row(
            out,
            q,
            k,
            v,
            heads - 1,
            heads_per_kv,
            head_dim,
            kv_dim,
            seq_len,
            i,
        );
        assert forall|h: int|
            0 <= h < heads && h * head_dim <= i < h * head_dim + head_dim implies attended(
            out,
            q,
            k,
            v,
            heads,
            heads_per_kv,
            head_dim,
            kv_dim,
            seq_len,
        )[i] == (#[trigger] attended_head(
            q,
            k,
            v,
            h,
            heads_per_kv,
            head_dim,
            kv_dim,
            seq_len,
        ))[i - h * head_dim] by {
            if h < heads - 1 {
                lemma_within(h, heads - 1, head_dim as int, head_dim as int);
            }
        }
    }
}

/// Attention, number by number. Query head `h` reads key/value head `h / heads_per_kv` and no
/// other. Its scores are the products of the whole query head with that head's key of each
/// position, over the root of the head dimension; number `d` of its output is the sum over all
/// positions of the softmax of the scores times number `d` of that head's value. What lies
/// behind the last head stays.
pub proof fn law_attention<S: Scalar>(
    out: Seq<S>,
    q: Seq<S>,
    k: Seq<S>,
    v: Seq<S>,
    heads: int,
    heads_per_kv: int,
    head_dim: usize,
    kv_dim: int,
    seq_len: int,
    h: int,
    d: int,
)
    requires
        0 <= h < heads,
        0 <= d < head_dim,
        0 < heads_per_kv,
        0 <= kv_dim,
        0 <= seq_len,
        heads * head_dim <= q.len(),
        heads * head_dim <= out.len(),
        covers_heads(k.len() as int, heads, heads_per_kv, head_dim as int, kv_dim, seq_len),
    ensures
        ({
            let n = head_dim as int;
            let r = attended(out, q, k, v, heads, heads_per_kv, head_dim, kv_dim, seq_len);
            let query = q.subrange(h * n, h * n + n);
            let head = (h / heads_per_kv) * n;
            let scores = Seq::new(
                seq_len as nat,
                |t: int|
                    inner(
                        query,
                        k.subrange(t * kv_dim + head, t * kv_dim + head + n),
                    ).s_times(one::<S>().s_over(S::s_of_usize(head_dim).s_sqrt())),
            );
            &&& r.len() == out.len()
            &&& r[h * n + d] == inner(
                softmax_of(scores, 0, seq_len),
                Seq::new(seq_len as nat, |t: int| v[t * kv_dim + head + d]),
            )
            &&& forall|i: int| heads * n <= i < out.len() ==> #[trigger] r[i] == out[i]
        }),
{
    let n = head_dim as int;
    let r = attended(out, q, k, v, heads, heads_per_kv, head_dim, kv_dim, seq_len);
    let head = (h / heads_per_kv) * n;
    lemma_within(h, heads, n, n);
    lemma_head_covered(k.len() as int, heads, heads_per_kv, n, kv_dim, seq_len, h);
    lemma_attended_row(
        out,
        q,
        k,
        v,
        heads,
        heads_per_kv,
        head_dim,
        kv_dim,
        seq_len,
        h * n + d,
    );
    let raw = head_scores(q, h * n, k, kv_dim, head, head_dim, seq_len);
    let scores = Seq::new(
        seq_len as nat,
        |t: int|
            inner(
                q.subrange(h * n, h * n + n),
                k.subrange(t * kv_dim + head, t * kv_dim + head + n),
            ).s_times(one::<S>().s_over(S::s_of_usize(head_dim).s_sqrt())),
    );
    assert forall|t: int| 0 <= t < seq_len implies raw[t] == scores[t] by {
        law_head_scores(q, h * n, k, kv_dim, head, head_dim, seq_len, t);
    }
    assert(raw =~= scores);
    let p = softmax_of(scores, 0, seq_len);
    law_value_sum(p, 0, v, kv_dim, head + d, seq_len);
    assert(p.subrange(0, seq_len) =~= p);
    assert(Seq::new(seq_len as nat, |t: int| v[t * kv_dim + (head + d)]) =~= Seq::new(
        seq_len as nat,
        |t: int| v[t * kv_dim + head + d],
    ));
    let found = attended_head(q, k, v, h, heads_per_kv, head_dim, kv_dim, seq_len);
    assert(r[h * n + d] == found[h * n + d - h * n]);
    assert forall|i: int| heads * n <= i < out.len() implies #[trigger] r[i] == out[i] by {
        lemma_within(0, heads, n, 0);
        lemma_attended_row(out, q, k, v, heads, heads_per_kv, head_dim, kv_dim, seq_len, i);
    }
}

/// A head of a cache by itself: the numbers from `off` on of each position.
pub open spec fn head_of<S>(cache: Seq<S>, kv_dim: int, off: int, head_dim: int, n: int) -> Seq<S> {
    Seq::new((n * head_dim) as nat, |i: int| cache[(i / head_dim) * kv_dim + off + i % head_dim])
}

/// A query head attends as it would alone: with nothing but its own queries and the keys and
/// values of its own key/value head, attention of one head gives the same numbers.
pub proof fn law_attention_of_a_head_alone<S: Scalar>(
    out: Seq<S>,
    q: Seq<S>,
    k: Seq<S>,
    v: Seq<S>,
    heads: int,
    heads_per_kv: int,
    head_dim: usize,
    kv_dim: int,
    seq_len: int,
    h: int,
    d: int,
    alone: Seq<S>,
)
    requires
        0 <= h < heads,
        0 <= d < head_dim,
        0 < heads_per_kv,
        0 <= kv_dim,
        0 <= seq_len,
        heads * head_dim <= q.len(),
        heads * head_dim <= out.len(),
        covers_heads(k.len() as int, heads, heads_per_kv, head_dim as int, kv_dim, seq_len),
        alone.len() == head_dim,
    ensures
        ({
            let n = head_dim as int;
            let off = (h / heads_per_kv) * n;
            attended(out, q, k, v, heads, heads_per_kv, head_dim, kv_dim, seq_len)[h * n + d]
                == attended(
                alone,
                q.subrange(h * n, h * n + n),
                head_of(k, kv_dim, off, n, seq_len),
                head_of(v, kv_dim, off, n, seq_len),
                1,
                1,
                head_dim,
                n,
                seq_len,
            )[d]
        }),
{
    let n = head_dim as int;
    let off = (h / heads_per_kv) * n;
    let query = q.subrange(h * n, h * n + n);
    let k1 = head_of(k, kv_dim, off, n, seq_len);
    let v1 = head_of(v, kv_dim, off, n, seq_len);
    lemma_within(h, heads, n, n);
    lemma_head_covered(k.len() as int, heads, heads_per_kv, n, kv_dim, seq_len, h);
    lemma_mul_inequality(0, seq_len, n);
    law_attention(out, q, k, v, heads, heads_per_kv, head_dim, kv_dim, seq_len, h, d);
    assert((0int / 1) * n == 0) by (nonlinear_arith);
    assert((seq_len - 1) * n + n == seq_len * n) by (nonlinear_arith);
    law_attention(alone, query, k1, v1, 1, 1, head_dim, n, seq_len, 0, d);
    assert(query.subrange(0 * n, 0 * n + n) =~= query);
    let factor = one::<S>().s_over(S::s_of_usize(head_dim).s_sqrt());
    let s0 = Seq::new(
        seq_len as nat,
        |t: int|
            inner(query, k.subrange(t * kv_dim + off, t * kv_dim + off + n)).s_times(factor),
    );
    let s1 = Seq::new(
        seq_len as nat,
        |t: int|
            inner(
                query.subrange(0 * n, 0 * n + n),
                k1.subrange(t * n + (0int / 1) * n, t * n + (0int / 1) * n + n),
            ).s_times(factor),
    );
    assert forall|t: int| 0 <= t < seq_len implies s0[t] == s1[t] by {
        lemma_position_covered(k.len() as int, seq_len, kv_dim, off, n, t);
        lemma_within(t, seq_len, n, n);
        let a = k.subrange(t * kv_dim + off, t * kv_dim + off + n);
        let b = k1.subrange(t * n, t * n + n);
        assert forall|i: int| 0 <= i < n implies a[i] == b[i] by {
            vstd::arithmetic::div_mod::lemma_fundamental_div_mod_converse(t * n + i, n, t, i);
        }
        assert(a =~= b);
    }
    assert(s0 =~= s1);
    let c0 = Seq::new(seq_len as nat, |t: int| v[t * kv_dim + off + d]);
    let c1 = Seq::new(seq_len as nat, |t: int| v1[t * n + (0int / 1) * n + d]);
    assert forall|t: int| 0 <= t < seq_len implies c0[t] == c1[t] by {
        lemma_within(t, seq_len, n, n);
        vstd::arithmetic::div_mod::lemma_fundamental_div_mod_converse(t * n + d, n, t, d);
    }
    assert(c0 =~= c1);
}

/// Query head `h` depends on no key and no value outside of key/value head `h / heads_per_kv`.
pub proof fn law_attention_reads_own_head<S: Scalar>(
    out: Seq<S>,
    q: Seq<S>,
    k1: Seq<S>,
    v1: Seq<S>,
    k2: Seq<S>,
    v2: Seq<S>,
    heads: int,
    heads_per_kv: int,
    head_dim: usize,
    kv_dim: int,
    seq_len: int,
    h: int,
    d: int,
)
    requires
        0 <= h < heads,
        0 <= d < head_dim,
        0 < heads_per_kv,
        0 <= kv_dim,
        0 <= seq_len,
        heads * head_dim <= q.len(),
        heads * head_dim <= out.len(),
        covers_heads(k1.len() as int, heads, heads_per_kv, head_dim as int, kv_dim, seq_len),
        covers_heads(k2.len() as int, heads, heads_per_kv, head_dim as int, kv_dim, seq_len),
        ({
            let off = (h / heads_per_kv) * (head_dim as int);
            &&& head_of(k1, kv_dim, off, head_dim as int, seq_len) == head_of(
                k2,
                kv_dim,
                off,
                head_dim as int,
                seq_len,
            )
            &&& head_of(v1, kv_dim, off, head_dim as int, seq_len) == head_of(
                v2,
                kv_dim,
                off,
                head_dim as int,
                seq_len,
            )
        }),
    ensures
        attended(out, q, k1, v1, heads, heads_per_kv, head_dim, kv_dim, seq_len)[h * head_dim + d]
            == attended(out, q, k2, v2, heads, heads_per_kv, head_dim, kv_dim, seq_len)[h * head_dim
            + d],
{
    lemma_within(h, heads, head_dim as int, head_dim as int);
    let alone = q.subrange(h * head_dim, h * head_dim + head_dim);
    law_attention_of_a_head_alone(
        out,
        q,
        k1,
        v1,
        heads,
        heads_per_kv,
        head_dim,
        kv_dim,
        seq_len,
        h,
        d,
        alone,
    );
    law_attention_of_a_head_alone(
        out,
        q,
        k2,
        v2,
        heads,
        heads_per_kv,
        head_dim,
        kv_dim,
        seq_len,
        h,
        d,
        alone,
    );
}

/// Batched scores: the score of head `h` and position `t` stands at `h * stride + t`, and what
/// lies behind a head's positions stays.
pub proof fn law_batched_scores<S: Scalar>(
    scores: Seq<S>,
    q: Seq<S>,
    k: Seq<S>,
    heads: int,
    heads_per_kv: int,
    head_dim: usize,
    kv_dim: int,
    seq_len: int,
    stride: int,
    h: int,
    t: int,
)
    requires
        0 <= h < heads,
        0 <= t < stride,
        0 <= seq_len <= stride,
        0 < heads_per_kv,
        0 <= kv_dim,
        heads * head_dim <= q.len(),
        h * stride + t < scores.len(),
        covers_heads(k.len() as int, heads, heads_per_kv, head_dim as int, kv_dim, seq_len),
    ensures
        ({
            let n = head_dim as int;
            let r = scored(scores, q, k, heads, heads_per_kv, head_dim, kv_dim, seq_len, stride);
            let key = t * kv_dim + (h / heads_per_kv) * n;
            &&& r.len() == scores.len()
            &&& r[h * stride + t] == (if t < seq_len {
                inner(q.subrange(h * n, h * n + n), k.subrange(key, key + n)).s_times(
                    one::<S>().s_over(S::s_of_usize(head_dim).s_sqrt()),
                )
            } else {
                scores[h * stride + t]
            })
        }),
    decreases heads,
{
    let n = head_dim as int;
    lemma_within(h, heads, n, n);
    lemma_within(h, heads, stride, t + 1);
    lemma_within(heads - 1, heads, n, n);
    lemma_head_covered(k.len() as int, heads, heads_per_kv, n, kv_dim, seq_len, h);
    if t < seq_len {
        law_head_scores(
            q,
            h * n,
            k,
            kv_dim,
            (h / heads_per_kv) * n,
            head_dim,
            seq_len,
            t,
        );
    }
    if h < heads - 1 {
        lemma_within(h, heads - 1, stride, t + 1);
        lemma_head_covered(k.len() as int, heads, heads_per_kv, n, kv_dim, seq_len, heads - 2);
        law_batched_scores(
            scores,
            q,
            k,
            heads - 1,
            heads_per_kv,
            head_dim,
            kv_dim,
            seq_len,
            stride,
            h,
            t,
        );
    } else {
        lemma_scored_untouched(
            scores,
            q,
            k,
            heads - 1,
            heads_per_kv,
            head_dim,
            kv_dim,
            seq_len,
            stride,
            h * stride + t,
        );
    }
}

proof fn lemma_scored_untouched<S: Scalar>(
    scores: Seq<S>,
    q: Seq<S>,
    k: Seq<S>,
    heads: int,
    heads_per_kv: int,
    head_dim: usize,
    kv_dim: int,
    seq_len: int,
    stride: int,
    i: int,
)
    requires
        0 <= heads,
        0 <= seq_len <= stride,
        heads * stride <= i < scores.len(),
    ensures
        ({
            let r = scored(scores, q, k, heads, heads_per_kv, head_dim, kv_dim, seq_len, stride);
            r.len() == scores.len() && r[i] == scores[i]
        }),
    decreases heads,
{
    if heads > 0 {
        lemma_within(heads - 1, heads, stride, seq_len);
        lemma_scored_untouched(
            scores,
            q,
            k,
            heads - 1,
            heads_per_kv,
            head_dim,
            kv_dim,
            seq_len,
            stride,
            i,
        );
    }
}

proof fn lemma_softmaxed_untouched<S: Scalar>(
    scores: Seq<S>,
    heads: int,
    seq_len: int,
    stride: int,
    i: int,
)
    requires
        0 <= heads,
        0 <= seq_len <= stride,
        heads * stride <= i < scores.len(),
    ensures
        softmaxed(scores, heads, seq_len, stride).len() == scores.len(),
        softmaxed(scores, heads, seq_len, stride)[i] == scores[i],
    decreases heads,
{
    if heads > 0 {
        lemma_within(heads - 1, heads, stride, seq_len);
        lemma_softmaxed_untouched(scores, heads - 1, seq_len, stride, i);
    }
}

proof fn lemma_softmaxed_len<S: Scalar>(scores: Seq<S>, heads: int, seq_len: int, stride: int)
    ensures
        softmaxed(scores, heads, seq_len, stride).len() == scores.len(),
    decreases heads,
{
    if heads > 0 {
        lemma_softmaxed_len(scores, heads - 1, seq_len, stride);
    }
}

/// Batched softmax: each head's scores become the guarded softmax of that head's scores alone.
pub proof fn law_batched_softmax<S: Scalar>(
    scores: Seq<S>,
    heads: int,
    seq_len: int,
    stride: int,
    h: int,
    t: int,
)
    requires
        0 <= h < heads,
        0 <= t < seq_len <= stride,
        rows_fit(scores.len() as int, heads, stride, seq_len),
    ensures
        softmaxed(scores, heads, seq_len, stride).len() == scores.len(),
        softmaxed(scores, heads, seq_len, stride)[h * stride + t] == guarded_softmax_of(
            scores.subrange(h * stride, h * stride + seq_len),
            0,
            seq_len,
        )[t],
    decreases heads,
{
    lemma_row_fits(scores.len() as int, heads, stride, seq_len, h);
    lemma_softmaxed_len(scores, heads - 1, seq_len, stride);
    if h < heads - 1 {
        lemma_within(h, heads - 1, stride, t + 1);
        lemma_row_fits(scores.len() as int, heads, stride, seq_len, heads - 2);
        law_batched_softmax(scores, heads - 1, seq_len, stride, h, t);
    } else {
        let before = softmaxed(scores, heads - 1, seq_len, stride);
        let base = h * stride;
        let row = scores.subrange(base, base + seq_len);
        let same = before.subrange(base, base + seq_len);
        assert forall|j: int| 0 <= j < seq_len implies same[j] == row[j] by {
            lemma_softmaxed_untouched(scores, heads - 1, seq_len, stride, base + j);
        }
        assert(same =~= row);
        assert(row.subrange(0, seq_len) =~= row);
        law_softmax(before, base, seq_len, t);
        law_softmax(row, 0, seq_len, t);
        let top = crate::sums::largest(row);
        let e1 = Seq::new(seq_len as nat, |j: int| before[base + j].s_minus(top).s_exp());
        let e2 = Seq::new(seq_len as nat, |j: int| row[0 + j].s_minus(top).s_exp());
        assert forall|j: int| 0 <= j < seq_len implies e1[j] == e2[j] by {
            assert(same[j] == row[j]);
        }
        assert(e1 =~= e2);
    }
}

/// Batched values: number `d` of head `h` is the sum over all positions of the head's weight of
/// the position times number `d` of the value of key/value head `h / heads_per_kv`.
pub proof fn law_batched_values<S: Scalar>(
    out: Seq<S>,
    scores: Seq<S>,
    v: Seq<S>,
    heads: int,
    heads_per_kv: int,
    head_dim: int,
    kv_dim: int,
    seq_len: int,
    stride: int,
    h: int,
    d: int,
)
    requires
        0 <= h < heads,
        0 <= d < head_dim,
        0 <= seq_len,
        0 <= stride,
        heads * head_dim <= out.len(),
        rows_fit(scores.len() as int, heads, stride, seq_len),
    ensures
        ({
            let head = (h / heads_per_kv) * head_dim;
            let r = valued(
                out,
                scores,
                v,
                heads,
                heads_per_kv,
                head_dim,
                kv_dim,
                seq_len,
                stride,
            );
            &&& r.len() == out.len()
            &&& r[h * head_dim + d] == inner(
                scores.subrange(h * stride, h * stride + seq_len),
                Seq::new(seq_len as nat, |t: int| v[t * kv_dim + head + d]),
            )
        }),
    decreases heads,
{
    let head = (h / heads_per_kv) * head_dim;
    lemma_row_fits(scores.len() as int, heads, stride, seq_len, h);
    lemma_within(h, heads, head_dim, head_dim);
    lemma_within(heads - 1, heads, head_dim, head_dim);
    law_value_sum(scores, h * stride, v, kv_dim, head + d, seq_len);
    assert(Seq::new(seq_len as nat, |t: int| v[t * kv_dim + (head + d)]) =~= Seq::new(
        seq_len as nat,
        |t: int| v[t * kv_dim + head + d],
    ));
    lemma_valued_len(
        out,
        scores,
        v,
        heads - 1,
        heads_per_kv,
        head_dim,
        kv_dim,
        seq_len,
        stride,
    );
    if h < heads - 1 {
        lemma_within(h, heads - 1, head_dim, head_dim);
        lemma_row_fits(scores.len() as int, heads, stride, seq_len, heads - 2);
        law_batched_values(
            out,
            scores,
            v,
            heads - 1,
            heads_per_kv,
            head_dim,
            kv_dim,
            seq_len,
            stride,
            h,
            d,
        );
    }
}

proof fn lemma_valued_len<S: Scalar>(
    out: Seq<S>,
    scores: Seq<S>,
    v: Seq<S>,
    heads: int,
    heads_per_kv: int,
    head_dim: int,
    kv_dim: int,
    seq_len: int,
    stride: int,
)
    ensures
        valued(out, scores, v, heads, heads_per_kv, head_dim, kv_dim, seq_len, stride).len()
            == out.len(),
    decreases heads,
{
    if heads > 0 {
        lemma_valued_len(
            out,
            scores,
            v,
            heads - 1,
            heads_per_kv,
            head_dim,
            kv_dim,
            seq_len,
            stride,
        );
    }
}

/// Each head is normed by itself: its numbers are scaled by the inverse root of the mean square
/// of that head's own numbers, and each by its weight, as far as there are weights. What lies
/// behind the last head stays.
pub proof fn law_normed_heads<S: Scalar>(
    order: NormOrder,
    x: Seq<S>,
    heads: int,
    head_dim: usize,
    w: Seq<u16>,
    eps: S,
    h: int,
    d: int,
)
    requires
        0 <= h,
        0 <= d < head_dim,
        0 <= heads,
        heads * head_dim <= x.len(),
        h * head_dim + d < x.len(),
        h < heads ==> h * head_dim + head_dim <= x.len(),
    ensures
        ({
            let n = head_dim as int;
            let r = x.subrange(h * n, h * n + n);
            let scale = one::<S>().s_over(
                inner(r, r).s_over(S::s_of_usize(head_dim)).s_plus(eps).s_sqrt(),
            );
            let wd = S::s_of_bits((w[d] * 0x1_0000) as u32);
            let y = normed_heads(order, x, heads, head_dim, w, eps);
            &&& y.len() == x.len()
            &&& y[h * n + d] == (if h < heads && d < w.len() {
                match order {
                    NormOrder::ScaleFirst => r[d].s_times(scale).s_times(wd),
                    NormOrder::WeightFirst => r[d].s_times(scale.s_times(wd)),
                }
            } else {
                x[h * n + d]
            })
        }),
    decreases heads,
{
    let n = head_dim as int;
    lemma_mul_inequality(0, h, n);
    if heads > 0 {
        lemma_within(heads - 1, heads, n, n);
        if h < heads - 1 {
            lemma_within(h, heads - 1, n, n);
        } else if h >= heads {
            lemma_mul_inequality(heads, h, n);
        }
        law_normed_heads(order, x, heads - 1, head_dim, w, eps, h, d);
        if h == heads - 1 {
            let before = normed_heads(order, x, heads - 1, head_dim, w, eps);
            let r = x.subrange(h * n, h * n + n);
            let same = before.subrange(h * n, h * n + n);
            assert forall|j: int| 0 <= j < n implies same[j] == r[j] by {
                law_normed_heads(order, x, heads - 1, head_dim, w, eps, h, j);
            }
            assert(same =~= r);
            law_inv_rms(before, h * n, head_dim, eps);
        }
    }
}

/// The batched form of attention, scores, then softmax, then values, gives what attention gives
/// head by head, as long as the exponentials of the head's scores have a positive sum.
pub proof fn law_batched_attention_agrees<S: Scalar>(
    out: Seq<S>,
    scores: Seq<S>,
    q: Seq<S>,
    k: Seq<S>,
    v: Seq<S>,
    heads: int,
    heads_per_kv: int,
    head_dim: usize,
    kv_dim: int,
    seq_len: int,
    stride: int,
    h: int,
    d: int,
)
    requires
        0 <= h < heads,
        0 <= d < head_dim,
        0 < seq_len <= stride,
        0 < heads_per_kv,
        0 <= kv_dim,
        heads * head_dim <= q.len(),
        heads * head_dim <= out.len(),
        rows_fit(scores.len() as int, heads, stride, seq_len),
        covers_heads(k.len() as int, heads, heads_per_kv, head_dim as int, kv_dim, seq_len),
        ({
            let s1 = scored(scores, q, k, heads, heads_per_kv, head_dim, kv_dim, seq_len, stride);
            let row = s1.subrange(h * stride, h * stride + seq_len);
            guarded_softmax_of(row, 0, seq_len) == softmax_of(row, 0, seq_len)
        }),
    ensures
        ({
            let n = head_dim as int;
            let s1 = scored(scores, q, k, heads, heads_per_kv, head_dim, kv_dim, seq_len, stride);
            let s2 = softmaxed(s1, heads, seq_len, stride);
            valued(out, s2, v, heads, heads_per_kv, n, kv_dim, seq_len, stride)[h * n + d]
                == attended(out, q, k, v, heads, heads_per_kv, head_dim, kv_dim, seq_len)[h * n
                + d]
        }),
{
    let n = head_dim as int;
    let s1 = scored(scores, q, k, heads, heads_per_kv, head_dim, kv_dim, seq_len, stride);
    let s2 = softmaxed(s1, heads, seq_len, stride);
    lemma_row_fits(scores.len() as int, heads, stride, seq_len, h);
    law_batched_scores(scores, q, k, heads, heads_per_kv, head_dim, kv_dim, seq_len, stride, h, 0);
    lemma_softmaxed_len(s1, heads, seq_len, stride);
    law_attention(out, q, k, v, heads, heads_per_kv, head_dim, kv_dim, seq_len, h, d);
    law_batched_values(out, s2, v, heads, heads_per_kv, n, kv_dim, seq_len, stride, h, d);
    let base = h * stride;
    let row = s1.subrange(base, base + seq_len);
    let head = (h / heads_per_kv) * n;
    let wanted = Seq::new(
        seq_len as nat,
        |t: int|
            inner(
                q.subrange(h * n, h * n + n),
                k.subrange(t * kv_dim + head, t * kv_dim + head + n),
            ).s_times(one::<S>().s_over(S::s_of_usize(head_dim).s_sqrt())),
    );
    assert forall|t: int| 0 <= t < seq_len implies row[t] == wanted[t] by {
        law_batched_scores(
            scores,
            q,
            k,
            heads,
            heads_per_kv,
            head_dim,
            kv_dim,
            seq_len,
            stride,
            h,
            t,
        );
    }
    assert(row =~= wanted);
    let p = s2.subrange(base, base + seq_len);
    let soft = softmax_of(wanted, 0, seq_len);
    assert forall|t: int| 0 <= t < seq_len implies p[t] == soft[t] by {
        law_batched_softmax(s1, heads, seq_len, stride, h, t);
    }
    assert(p =~= soft);
}

} // verus!
