//! What the parts of a layer compute, number by number, and how the two forms of a layer on the
//! CPU agree.

use vstd::prelude::*;

use crate::attention_math::{
    attended, law_split_heads, maybe_normed_heads, score_scale, split_heads, NormOrder,
};
use crate::cpu_forward::{
    final_sum, input_normed, router_scores, shared_activation, shared_output, shared_score,
    FullStep, LinearStep,
};
use crate::cpu_layer::experts_summed;
use crate::delta_net::{
    conv_step, decays, delta_output, gates, key_normed, law_key_norm, maybe_gated, stepped,
    DeltaView,
};
use crate::engine::cpu::{moe_combined, moe_output, moe_scores};
use crate::expert_math::{expert_output, law_madd, ExpertParts};
use crate::full_attention::{attention_output, full_attended, prepared, GateForm, RopePairs};
use crate::linear_attention::{
    delta_operands, gated_output, linear_attended, linear_inputs, LinearInputsView,
};
use crate::math_util::{
    bf16_values, law_gating, law_norms, norm_eps, softmax_of, zero_seq,
};
use crate::quant::{lemma_within, overwrite};
use crate::scalar::{one, zero, Scalar};
use crate::sums::inner;
use crate::weights::{
    law_fresh_projection, law_projected, projected, row_of, AttnWeights, LayerDims, LinearWeights,
    MoeWeights, QuantMat,
};

verus! {

/// The numbers `row_of` gives for the rows of a matrix.
pub open spec fn rows_of<S: Scalar>(
    m: Option<QuantMat>,
    x: Seq<S>,
    out_dim: int,
    in_dim: int,
    group_size: int,
) -> Seq<S> {
    Seq::new(out_dim as nat, |r: int| row_of(m, x, in_dim, group_size, r))
}

proof fn lemma_rows<S: Scalar>(
    m: Option<QuantMat>,
    x: Seq<S>,
    out_dim: int,
    in_dim: int,
    group_size: int,
)
    requires
        0 < group_size,
        group_size % 8 == 0,
        0 <= in_dim,
        0 <= out_dim,
    ensures
        projected(m, x, zero_seq(out_dim), out_dim, in_dim, group_size) == rows_of(
            m,
            x,
            out_dim,
            in_dim,
            group_size,
        ),
{
    law_fresh_projection(m, x, zero_seq(out_dim), out_dim, in_dim, group_size);
}

/// A norm in front of a part of a layer, number by number: each number times the inverse root of
/// the mean square of all of them, times its weight. Without weights the numbers are taken over.
/// What lies behind them stays.
pub proof fn law_input_norm<S: Scalar>(
    hidden: Seq<S>,
    w: &[u16],
    out: Seq<S>,
    dim: usize,
    eps: S,
    i: int,
)
    requires
        dim <= hidden.len(),
        dim <= out.len(),
        0 <= i < out.len(),
    ensures
        ({
            let r = hidden.take(dim as int);
            let scale = one::<S>().s_over(
                inner(r, r).s_over(S::s_of_usize(dim)).s_plus(eps).s_sqrt(),
            );
            let y = input_normed(hidden, Some(w), out, dim, eps);
            let z = input_normed(hidden, None, out, dim, eps);
            &&& y.len() == out.len() && z.len() == out.len()
            &&& i < dim ==> {
                &&& y[i] == hidden[i].s_times(scale).s_times(
                    S::s_of_bits((w@[i] * 0x1_0000) as u32),
                )
                &&& z[i] == hidden[i]
            }
            &&& dim <= i ==> y[i] == out[i] && z[i] == out[i]
        }),
{
    if i < dim {
        law_norms(hidden, 0, hidden, w@, hidden, dim, eps, i);
        assert(hidden.subrange(0, 0 + dim as int) =~= hidden.take(dim as int));
    }
}

/// What attention works with. The query projection holds, head by head, a head's queries and
/// then its gates. Queries are normed with the query weights and keys with the key weights, head
/// by head, and both are turned; gates and values are left as they are. The keys that were turned
/// and the values become position `len` of the caches, and no other position changes.
pub proof fn law_prepared<S: Scalar>(
    d: LayerDims,
    w: AttnWeights,
    order: NormOrder,
    pairs: RopePairs,
    q_proj: Seq<S>,
    k: Seq<S>,
    v: Seq<S>,
    k_cache: Seq<S>,
    v_cache: Seq<S>,
    len: int,
    cos: Seq<S>,
    sin: Seq<S>,
    h: int,
    e: int,
    i: int,
)
    requires
        0 <= len,
        0 <= h < d.num_heads,
        0 <= e < d.head_dim,
        0 <= i < k_cache.len(),
        k_cache.len() == v_cache.len(),
        q_proj.len() == d.num_heads * (2 * d.head_dim),
        k.len() == d.num_kv_heads * d.head_dim,
        v.len() == d.num_kv_heads * d.head_dim,
    ensures
        ({
            let n = d.head_dim as int;
            let heads = d.num_heads as int;
            let kv_heads = d.num_kv_heads as int;
            let kv = kv_heads * n;
            let p = prepared(d, w, order, pairs, q_proj, k, v, k_cache, v_cache, len, cos, sin);
            let queries = Seq::new(
                (heads * n) as nat,
                |j: int| q_proj[(j / n) * (2 * n) + j % n],
            );
            let q1 = maybe_normed_heads(order, queries, heads, d.head_dim, w.q_norm, norm_eps());
            let k1 = maybe_normed_heads(order, k, kv_heads, d.head_dim, w.k_norm, norm_eps());
            &&& p.q == pairs.turned(q1, heads, n, d.rotary_dim as int, cos, sin)
            &&& p.k == pairs.turned(k1, kv_heads, n, d.rotary_dim as int, cos, sin)
            &&& p.q_gate.len() == heads * n
            &&& p.q_gate[h * n + e] == q_proj[h * (2 * n) + n + e]
            &&& p.len == len + 1
            &&& p.k_cache.len() == k_cache.len() && p.v_cache.len() == v_cache.len()
            &&& p.k.len() == kv ==> p.k_cache[i] == (if len * kv <= i < len * kv + kv {
                p.k[i - len * kv]
            } else {
                k_cache[i]
            })
            &&& p.v_cache[i] == (if len * kv <= i < len * kv + kv {
                v[i - len * kv]
            } else {
                v_cache[i]
            })
        }),
{
    let n = d.head_dim as int;
    let heads = d.num_heads as int;
    let zeros = zero_seq::<S>(heads * n);
    let queries = Seq::new((heads * n) as nat, |j: int| q_proj[(j / n) * (2 * n) + j % n]);
    vstd::arithmetic::mul::lemma_mul_inequality(0, heads, n);
    vstd::arithmetic::mul::lemma_mul_inequality(0, d.num_kv_heads as int, n);
    let q0 = split_heads(zeros, q_proj, heads, n, 0);
    lemma_within(h, heads, n, n);
    law_split_heads(zeros, q_proj, heads, n, n, h, e);
    lemma_split_len_of(zeros, q_proj, heads, n, 0);
    lemma_split_len_of(zeros, q_proj, heads, n, n);
    assert forall|j: int| 0 <= j < heads * n implies q0[j] == queries[j] by {
        let (g, r) = (j / n, j % n);
        vstd::arithmetic::div_mod::lemma_fundamental_div_mod(j, n);
        vstd::arithmetic::div_mod::lemma_mod_bound(j, n);
        vstd::arithmetic::div_mod::lemma_div_pos_is_pos(j, n);
        assert(n * g == g * n) by (nonlinear_arith);
        assert(g < heads) by (nonlinear_arith)
            requires
                j < heads * n,
                j == g * n + r,
                0 <= r,
                0 < n,
        ;
        law_split_heads(zeros, q_proj, heads, n, 0, g, r);
    }
    assert(q0 =~= queries);
}

proof fn lemma_split_len_of<S: Scalar>(
    out: Seq<S>,
    proj: Seq<S>,
    heads: int,
    head_dim: int,
    shift: int,
)
    ensures
        split_heads(out, proj, heads, head_dim, shift).len() == out.len(),
    decreases heads,
{
    if heads > 0 {
        lemma_split_len_of(out, proj, heads - 1, head_dim, shift);
    }
}

/// Full attention of a layer, number by number. Queries with gates, keys and values are the rows
/// of their own matrices times the normed input. What attention gives is gated by the queries'
/// gates, and row `r` of the output matrix times that is added to number `r` of the residual.
/// The caches become those that attention reads.
pub proof fn law_full_attention<S: Scalar>(
    d: LayerDims,
    w: AttnWeights,
    order: NormOrder,
    pairs: RopePairs,
    form: GateForm,
    normed: Seq<S>,
    residual: Seq<S>,
    hidden: Seq<S>,
    k_cache: Seq<S>,
    v_cache: Seq<S>,
    len: int,
    cos: Seq<S>,
    sin: Seq<S>,
    r: int,
)
    requires
        0 < d.group_size,
        d.group_size % 8 == 0,
        0 <= r < d.hidden_dim,
        hidden.len() == d.hidden_dim,
    ensures
        ({
            let hd = d.hidden_dim as int;
            let gs = d.group_size as int;
            let q_dim = d.num_heads * d.head_dim;
            let kv_dim = d.num_kv_heads * d.head_dim;
            let p = prepared(
                d,
                w,
                order,
                pairs,
                rows_of(w.q, normed, 2 * q_dim, hd, gs),
                rows_of(w.k, normed, kv_dim, hd, gs),
                rows_of(w.v, normed, kv_dim, hd, gs),
                k_cache,
                v_cache,
                len,
                cos,
                sin,
            );
            let out = attention_output(d, form, p.q, p.q_gate, p.k_cache, p.v_cache, len + 1);
            let done = full_attended(
                d,
                w,
                order,
                pairs,
                form,
                normed,
                residual,
                hidden,
                k_cache,
                v_cache,
                len,
                cos,
                sin,
            );
            &&& done.hidden.len() == hd
            &&& done.hidden[r] == residual[r].s_plus(row_of(w.o, out, q_dim, gs, r))
            &&& done.k_cache == p.k_cache
            &&& done.v_cache == p.v_cache
            &&& done.len == len + 1
        }),
{
    let hd = d.hidden_dim as int;
    let gs = d.group_size as int;
    let q_dim = d.q_dim();
    let kv_dim = d.kv_dim();
    vstd::arithmetic::mul::lemma_mul_inequality(0, d.num_heads as int, d.head_dim as int);
    vstd::arithmetic::mul::lemma_mul_inequality(0, d.num_kv_heads as int, d.head_dim as int);
    lemma_rows(w.q, normed, 2 * q_dim, hd, gs);
    lemma_rows(w.k, normed, kv_dim, hd, gs);
    lemma_rows(w.v, normed, kv_dim, hd, gs);
    let p = prepared(
        d,
        w,
        order,
        pairs,
        rows_of(w.q, normed, 2 * q_dim, hd, gs),
        rows_of(w.k, normed, kv_dim, hd, gs),
        rows_of(w.v, normed, kv_dim, hd, gs),
        k_cache,
        v_cache,
        len,
        cos,
        sin,
    );
    let out = attention_output(d, form, p.q, p.q_gate, p.k_cache, p.v_cache, len + 1);
    lemma_rows(w.o, out, hd, q_dim, gs);
}

/// What attention puts out: that of all heads over all positions, query heads in groups that
/// share a key/value head, each number times the logistic function of its own gate, or over one
/// plus the exponential of the negated gate.
pub proof fn law_attention_output<S: Scalar>(
    d: LayerDims,
    q: Seq<S>,
    q_gate: Seq<S>,
    k_cache: Seq<S>,
    v_cache: Seq<S>,
    len: int,
    i: int,
)
    requires
        0 <= i < d.num_heads * d.head_dim,
    ensures
        ({
            let n = d.num_heads * d.head_dim;
            let a = attended(
                Seq::new(n as nat, |j: int| zero::<S>()),
                q,
                k_cache,
                v_cache,
                d.num_heads as int,
                d.num_heads as int / d.num_kv_heads as int,
                d.head_dim,
                d.num_kv_heads * d.head_dim,
                len,
            );
            let below = one::<S>().s_plus(q_gate[i].s_neg().s_exp());
            let times = attention_output(d, GateForm::Times, q, q_gate, k_cache, v_cache, len);
            let over = attention_output(d, GateForm::Over, q, q_gate, k_cache, v_cache, len);
            &&& times.len() == a.len() && over.len() == a.len()
            &&& i < a.len() ==> times[i] == a[i].s_times(one::<S>().s_over(below))
            &&& i < a.len() ==> over[i] == a[i].s_over(below)
        }),
{
    let n = d.num_heads * d.head_dim;
    assert(Seq::new(n as nat, |j: int| zero::<S>()) =~= zero_seq::<S>(n));
}

/// The inputs of linear attention are the rows of their own matrices times the normed input; the
/// mixed queries, keys and values are convolved with the past.
pub proof fn law_linear_inputs<S: Scalar>(
    d: LayerDims,
    w: LinearWeights,
    normed: Seq<S>,
    conv: Seq<S>,
)
    requires
        0 < d.group_size,
        d.group_size % 8 == 0,
    ensures
        ({
            let hd = d.hidden_dim as int;
            let gs = d.group_size as int;
            let i = linear_inputs(d, w, normed, conv);
            &&& i.qkv == rows_of(w.qkv, normed, d.conv_dim as int, hd, gs)
            &&& i.z == rows_of(w.z, normed, d.total_value as int, hd, gs)
            &&& i.beta == rows_of(w.b, normed, d.num_v_heads as int, hd, gs)
            &&& i.alpha == rows_of(w.a, normed, d.num_v_heads as int, hd, gs)
            &&& w.conv1d matches Some(cw) ==> i.conv_out == conv_step(
                conv,
                i.qkv,
                cw@,
                d.conv_dim as int,
                d.conv_kernel as int,
            )
            &&& w.conv1d is None ==> i.conv_out == i.qkv
        }),
{
    let hd = d.hidden_dim as int;
    let gs = d.group_size as int;
    lemma_rows(w.qkv, normed, d.conv_dim as int, hd, gs);
    lemma_rows(w.z, normed, d.total_value as int, hd, gs);
    lemma_rows(w.b, normed, d.num_v_heads as int, hd, gs);
    lemma_rows(w.a, normed, d.num_v_heads as int, hd, gs);
}

/// The operands of the recurrence, number by number. The convolved vector holds the queries of
/// all key heads, then their keys, and then the values. Each query and key head is normed by
/// itself; queries are scaled by one over the key dimension's root twice, keys once. Decay and
/// gate of a value head come from its own numbers, and `num_v_heads / num_k_heads` value heads
/// share a key head.
pub proof fn law_delta_operands<S: Scalar>(
    d: LayerDims,
    w: LinearWeights,
    i: LinearInputsView<S>,
    h: int,
    j: int,
)
    requires
        d.linear_valid(),
        i.conv_out.len() == d.conv_dim,
        0 <= h < d.num_k_heads,
        0 <= j < d.key_dim,
    ensures
        ({
            let n = d.key_dim as int;
            let a = delta_operands(d, w, i);
            let root = one::<S>().s_over(S::s_of_usize(d.key_dim).s_sqrt());
            let normed = |from: int, factor: S|
                {
                    let r = i.conv_out.subrange(from + h * n, from + h * n + n);
                    let scale = one::<S>().s_over(
                        inner(r, r).s_over(S::s_of_usize(d.key_dim)).s_plus(norm_eps()).s_sqrt(),
                    );
                    r[j].s_times(scale).s_times(factor)
                };
            &&& a.q[a.q_base + h * n + j] == normed(0, root.s_times(root))
            &&& a.k[a.k_base + h * n + j] == normed(d.total_key as int, root)
            &&& a.v == i.conv_out && a.v_base == 2 * d.total_key
            &&& a.g_decay == decays(i.alpha, w.a_log, w.dt_bias, d.num_v_heads as int)
            &&& a.beta_gate == gates(i.beta, d.num_v_heads as int)
            &&& a.k_heads_per_v == d.num_v_heads as int / d.num_k_heads as int
            &&& a.key_dim == d.key_dim && a.value_dim == d.value_dim
        }),
{
    let n = d.key_dim as int;
    let tk = d.total_key as int;
    let heads = d.num_k_heads as int;
    let scale = score_scale::<S>(d.key_dim);
    let order = NormOrder::ScaleFirst;
    lemma_within(h, heads, n, n);
    law_key_norm(
        order,
        zero_seq::<S>(tk),
        i.conv_out,
        0,
        heads,
        d.key_dim,
        norm_eps(),
        scale.s_times(scale),
        h,
        j,
    );
    law_key_norm(
        order,
        zero_seq::<S>(tk),
        i.conv_out,
        tk,
        heads,
        d.key_dim,
        norm_eps(),
        scale,
        h,
        j,
    );
}

/// Linear attention of a layer, number by number: the recurrence steps with the operands of this
/// token, its output is normed and gated, and row `r` of the output matrix times that is added to
/// number `r` of the residual. The convolution's state takes in the newest input, and the
/// recurrent state becomes the one behind the step.
pub proof fn law_linear_attention<S: Scalar>(
    d: LayerDims,
    w: LinearWeights,
    normed: Seq<S>,
    residual: Seq<S>,
    hidden: Seq<S>,
    conv: Seq<S>,
    ssm: Seq<S>,
    r: int,
)
    requires
        0 < d.group_size,
        d.group_size % 8 == 0,
        0 <= r < d.hidden_dim,
        hidden.len() == d.hidden_dim,
    ensures
        ({
            let tv = d.total_value as int;
            let heads = d.num_v_heads as int;
            let i = linear_inputs(d, w, normed, conv);
            let a = delta_operands(d, w, i);
            let zeros = Seq::new(tv as nat, |j: int| zero::<S>());
            let values = delta_output(zeros, ssm, a, heads);
            let gated = maybe_gated(zeros, values, i.z, w.norm, heads, d.value_dim, norm_eps());
            let done = linear_attended(d, w, normed, residual, hidden, conv, ssm);
            &&& done.hidden.len() == d.hidden_dim
            &&& done.hidden[r] == residual[r].s_plus(
                row_of(w.out_proj, gated, tv, d.group_size as int, r),
            )
            &&& done.ssm == stepped(ssm, a, heads)
            &&& done.conv == conv.skip(i.qkv.len() as int) + i.qkv
        }),
{
    let tv = d.total_value as int;
    let i = linear_inputs(d, w, normed, conv);
    assert(Seq::new(tv as nat, |j: int| zero::<S>()) =~= zero_seq::<S>(tv));
    lemma_rows(
        w.out_proj,
        gated_output(d, w, i, ssm),
        d.hidden_dim as int,
        tv,
        d.group_size as int,
    );
}

/// What the experts of a token add up to, number by number: starting with what is there, each
/// expert whose bytes could be read adds its output times its weight, in the order of the slots.
pub open spec fn expert_sum<S: Scalar>(
    d: LayerDims,
    parts: ExpertParts,
    blobs: Seq<Option<Seq<u8>>>,
    weights: Seq<S>,
    x: Seq<S>,
    start: S,
    k: int,
    i: int,
) -> S {
    Seq::new(k as nat, |j: int| j).filter(|j: int| blobs[j] is Some).fold_left(
        start,
        |sum: S, j: int|
            sum.s_plus(
                expert_output(
                    blobs[j]->0,
                    parts,
                    x,
                    d.hidden_dim as int,
                    d.moe_inter as int,
                    d.group_size as int,
                )[i].s_times(weights[j]),
            ),
    )
}

/// The routed experts of a layer: every slot whose bytes are there counts once, with its own
/// weight, and the others do not count at all.
pub proof fn law_experts_summed<S: Scalar>(
    d: LayerDims,
    parts: ExpertParts,
    blobs: Seq<Option<Seq<u8>>>,
    weights: Seq<S>,
    x: Seq<S>,
    moe_out: Seq<S>,
    tmp: Seq<S>,
    k: int,
    i: int,
)
    requires
        0 <= k,
        0 <= i < d.hidden_dim,
        d.hidden_dim <= moe_out.len(),
        d.hidden_dim <= tmp.len(),
    ensures
        ({
            let r = experts_summed(d, parts, blobs, weights, x, moe_out, tmp, k);
            &&& r.0.len() == moe_out.len()
            &&& r.1.len() == tmp.len()
            &&& r.0[i] == expert_sum(d, parts, blobs, weights, x, moe_out[i], k, i)
        }),
    decreases k,
{
    reveal(Seq::filter);
    let there = |j: int| blobs[j] is Some;
    let slots = Seq::new(k as nat, |j: int| j);
    if k > 0 {
        law_experts_summed(d, parts, blobs, weights, x, moe_out, tmp, k - 1, i);
        let before = Seq::new((k - 1) as nat, |j: int| j);
        assert(slots.drop_last() =~= before);
        assert(slots.last() == k - 1);
        if there(k - 1) {
            let kept = before.filter(there).push(k - 1);
            assert(slots.filter(there) == kept);
            assert(kept.drop_last() =~= before.filter(there));
            let sums = experts_summed(d, parts, blobs, weights, x, moe_out, tmp, k - 1);
            let out = overwrite(
                sums.1,
                0,
                expert_output(
                    blobs[k - 1]->0,
                    parts,
                    x,
                    d.hidden_dim as int,
                    d.moe_inter as int,
                    d.group_size as int,
                ),
            );
            law_madd(sums.0, out, weights[k - 1], d.hidden_dim as int, i);
        } else {
            assert(slots.filter(there) == before.filter(there));
        }
    }
}

/// The shared expert: its activation is the SiLU of its gate rows times its up rows; the rows of
/// its down matrix times that are scaled by the given score.
pub proof fn law_shared_expert<S: Scalar>(
    d: LayerDims,
    w: MoeWeights,
    h_post: Seq<S>,
    score: S,
    out: Seq<S>,
    j: int,
    r: int,
)
    requires
        0 < d.group_size,
        d.group_size % 8 == 0,
        0 <= j < d.shared_inter,
        0 <= r < d.hidden_dim,
        d.hidden_dim <= out.len(),
    ensures
        ({
            let hd = d.hidden_dim as int;
            let gs = d.group_size as int;
            let g = row_of(w.shared_gate, h_post, hd, gs, j);
            let u = row_of(w.shared_up, h_post, hd, gs, j);
            let act = shared_activation(d, w, h_post);
            &&& act.len() == d.shared_inter
            &&& act[j] == g.s_over(one::<S>().s_plus(g.s_neg().s_exp())).s_times(u)
            &&& shared_output(d, w, h_post, score, out)[r] == row_of(
                w.shared_down,
                act,
                d.shared_inter as int,
                gs,
                r,
            ).s_times(score)
            &&& shared_score(d, w.shared_expert_gate, h_post) == row_of(
                w.shared_expert_gate,
                h_post,
                hd,
                gs,
                0,
            )
        }),
{
    let hd = d.hidden_dim as int;
    let gs = d.group_size as int;
    let si = d.shared_inter as int;
    lemma_rows(w.shared_gate, h_post, si, hd, gs);
    lemma_rows(w.shared_up, h_post, si, hd, gs);
    law_gating(
        rows_of(w.shared_gate, h_post, si, hd, gs),
        rows_of(w.shared_up, h_post, si, hd, gs),
        si,
        j,
    );
    let act = shared_activation(d, w, h_post);
    let cleared = overwrite(out, 0, zero_seq::<S>(hd));
    if let Some(m) = w.shared_down {
        law_projected(m, act, cleared, hd, si, gs, r);
    }
    if let Some(m) = w.shared_expert_gate {
        crate::quant::law_matvec(m.quant(), h_post, 1, hd, gs, 0);
    }
}

/// The router: the scores of the experts are the softmax of the rows of the router's matrix times
/// the state behind attention.
pub proof fn law_router_scores<S: Scalar>(
    d: LayerDims,
    w: MoeWeights,
    h_post: Seq<S>,
    scores: Seq<S>,
)
    requires
        0 < d.group_size,
        d.group_size % 8 == 0,
        scores.len() == d.num_experts,
    ensures
        ({
            let ne = d.num_experts as int;
            let logits = rows_of(w.gate, h_post, ne, d.hidden_dim as int, d.group_size as int);
            &&& moe_scores(d, w, h_post) == softmax_of(logits, 0, ne)
            &&& router_scores(d, w.gate, h_post, scores) == softmax_of(logits, 0, ne)
        }),
{
    let ne = d.num_experts as int;
    let hd = d.hidden_dim as int;
    let gs = d.group_size as int;
    lemma_rows(w.gate, h_post, ne, hd, gs);
    let logits = rows_of(w.gate, h_post, ne, hd, gs);
    assert(overwrite(scores, 0, zero_seq::<S>(ne)) =~= zero_seq::<S>(ne));
    assert(overwrite(logits, 0, softmax_of(logits, 0, ne)) =~= softmax_of(logits, 0, ne));
}

/// The second half of a layer, number by number: the state in front of it, plus what the routed
/// experts add up to, plus the shared expert's output times the logistic function of its score.
pub proof fn law_moe_output<S: Scalar>(
    d: LayerDims,
    w: MoeWeights,
    parts: ExpertParts,
    blobs: Seq<Option<Seq<u8>>>,
    weights: Seq<S>,
    shared_act: Seq<S>,
    score: S,
    h_post: Seq<S>,
    hidden: Seq<S>,
    i: int,
)
    requires
        0 < d.group_size,
        d.group_size % 8 == 0,
        0 <= i < d.hidden_dim,
        hidden.len() == d.hidden_dim,
    ensures
        ({
            let si = d.shared_inter as int;
            let r = moe_output(
                d,
                w,
                parts,
                blobs,
                weights,
                shared_act,
                score,
                h_post,
                hidden,
            );
            let experts = expert_sum(
                d,
                parts,
                blobs,
                weights,
                h_post,
                zero(),
                blobs.len() as int,
                i,
            );
            let shared = row_of(w.shared_down, shared_act, si, d.group_size as int, i);
            &&& r.len() == hidden.len()
            &&& r[i] == hidden[i].s_plus(experts).s_plus(
                one::<S>().s_over(one::<S>().s_plus(score.s_neg().s_exp())).s_times(shared),
            )
        }),
{
    let hd = d.hidden_dim as int;
    law_experts_summed(
        d,
        parts,
        blobs,
        weights,
        h_post,
        zero_seq(hd),
        zero_seq(hd),
        blobs.len() as int,
        i,
    );
    lemma_rows(w.shared_down, shared_act, hd, d.shared_inter as int, d.group_size as int);
}

/// The last sum of a layer, number by number.
pub proof fn law_final_sum<S: Scalar>(
    h_mid: Seq<S>,
    moe_out: Seq<S>,
    shared_out: Seq<S>,
    score: S,
    dim: int,
    i: int,
)
    requires
        0 <= i < dim,
    ensures
        final_sum(h_mid, moe_out, shared_out, dim)[i] == h_mid[i].s_plus(moe_out[i]).s_plus(
            shared_out[i],
        ),
        moe_combined(h_mid, moe_out, shared_out, score, dim)[i] == h_mid[i].s_plus(
            moe_out[i],
        ).s_plus(
            one::<S>().s_over(one::<S>().s_plus(score.s_neg().s_exp())).s_times(shared_out[i]),
        ),
{
}

/// The step form of full attention prepares the same queries, gates, keys and values as the whole
/// form with neighbours as pairs. Its caches hold the upper halves of the patterns of keys and
/// values at position `len`; attention reads all positions of these caches as bf16 numbers.
pub proof fn law_full_step_agrees<S: Scalar>(
    s: FullStep<S>,
    d: LayerDims,
    w: AttnWeights,
    normed: Seq<S>,
    cos: Seq<S>,
    sin: Seq<S>,
    k_any: Seq<S>,
    v_any: Seq<S>,
    i: int,
)
    requires
        0 < d.group_size,
        d.group_size % 8 == 0,
        0 <= s.len,
        s.q_proj_out == zero_seq::<S>(2 * d.q_dim()),
        s.q_buf == zero_seq::<S>(d.q_dim()),
        s.q_gate == zero_seq::<S>(d.q_dim()),
        s.k_buf == zero_seq::<S>(d.kv_dim()),
        s.v_buf == zero_seq::<S>(d.kv_dim()),
        s.attn_out == zero_seq::<S>(d.q_dim()),
        s.attn_proj.len() == d.hidden_dim,
        s.k_cache.len() == s.v_cache.len(),
        0 <= i < s.k_cache.len(),
    ensures
        ({
            let hd = d.hidden_dim as int;
            let gs = d.group_size as int;
            let kv = d.num_kv_heads * d.head_dim;
            let q_dim = d.num_heads * d.head_dim;
            let r = s.step(d, w, normed, cos, sin, norm_eps());
            let p = prepared(
                d,
                w,
                NormOrder::ScaleFirst,
                RopePairs::Neighbours,
                rows_of(w.q, normed, 2 * q_dim, hd, gs),
                rows_of(w.k, normed, kv, hd, gs),
                rows_of(w.v, normed, kv, hd, gs),
                k_any,
                v_any,
                s.len,
                cos,
                sin,
            );
            let here = s.len * kv <= i < s.len * kv + kv;
            &&& r.q_buf == p.q
            &&& r.q_gate == p.q_gate
            &&& r.k_buf == p.k
            &&& r.v_buf == rows_of(w.v, normed, kv, hd, gs)
            &&& r.len == s.len + 1
            &&& r.k_cache[i] == (if here {
                (p.k[i - s.len * kv].s_bits() / 0x1_0000) as u16
            } else {
                s.k_cache[i]
            })
            &&& r.v_cache[i] == (if here {
                (row_of(w.v, normed, hd, gs, i - s.len * kv).s_bits() / 0x1_0000) as u16
            } else {
                s.v_cache[i]
            })
            &&& r.attn_out == attention_output(
                d,
                GateForm::Times,
                r.q_buf,
                r.q_gate,
                bf16_values(r.k_cache),
                bf16_values(r.v_cache),
                s.len + 1,
            )
            &&& r.attn_proj == rows_of(w.o, r.attn_out, hd, q_dim, gs)
        }),
{
    let hd = d.hidden_dim as int;
    let gs = d.group_size as int;
    let (q_dim, kv) = (d.q_dim(), d.kv_dim());
    vstd::arithmetic::mul::lemma_mul_inequality(0, d.num_heads as int, d.head_dim as int);
    vstd::arithmetic::mul::lemma_mul_inequality(0, d.num_kv_heads as int, d.head_dim as int);
    lemma_rows(w.q, normed, 2 * q_dim, hd, gs);
    lemma_rows(w.k, normed, kv, hd, gs);
    lemma_rows(w.v, normed, kv, hd, gs);
    assert(overwrite(s.attn_out, 0, zero_seq::<S>(q_dim)) =~= zero_seq::<S>(q_dim));
    assert(overwrite(s.attn_proj, 0, zero_seq::<S>(hd)) =~= zero_seq::<S>(hd));
    let r = s.step(d, w, normed, cos, sin, norm_eps());
    lemma_rows(w.o, r.attn_out, hd, q_dim, gs);
}

/// The step form of linear attention works with the same projections and the same convolution as
/// the whole form, keeps the same states, and norms, gates and projects what the recurrence puts
/// out; its keys are scaled with the factor first.
pub proof fn law_linear_step_agrees<S: Scalar>(
    s: LinearStep<S>,
    d: LayerDims,
    w: LinearWeights,
    normed: Seq<S>,
    h: int,
    j: int,
)
    requires
        d.linear_valid(),
        d.group_size % 8 == 0,
        w.conv1d is Some,
        s.qkv_out == zero_seq::<S>(d.conv_dim as int),
        s.z_out == zero_seq::<S>(d.total_value as int),
        s.beta_out == zero_seq::<S>(d.num_v_heads as int),
        s.alpha_out == zero_seq::<S>(d.num_v_heads as int),
        s.conv_out.len() == d.conv_dim,
        s.out_values.len() == d.total_value,
        s.gated_out.len() == d.total_value,
        s.attn_proj.len() == d.hidden_dim,
        s.conv_state.len() >= d.conv_dim,
        0 <= h < d.num_k_heads,
        0 <= j < d.key_dim,
    ensures
        ({
            let tv = d.total_value as int;
            let n = d.key_dim as int;
            let heads = d.num_v_heads as int;
            let i = linear_inputs(d, w, normed, s.conv_state);
            let whole = delta_operands(d, w, i);
            let r = s.step(d, w, normed, norm_eps());
            let root = one::<S>().s_over(S::s_of_usize(d.key_dim).s_sqrt());
            let tk = d.total_key as int;
            let from = i.conv_out.subrange(tk + h * n, tk + h * n + n);
            let scale = one::<S>().s_over(
                inner(from, from).s_over(S::s_of_usize(d.key_dim)).s_plus(norm_eps()).s_sqrt(),
            );
            &&& r.qkv_out == i.qkv
            &&& r.z_out == i.z
            &&& r.beta_out == i.beta
            &&& r.alpha_out == i.alpha
            &&& r.conv_out == i.conv_out
            &&& r.conv_state == s.conv_state.skip(i.qkv.len() as int) + i.qkv
            &&& exists|a: DeltaView<S>|
                {
                    &&& a.q.len() == tk && a.k.len() == tk
                    &&& a.q[h * n + j] == whole.q[h * n + j]
                    &&& a.k[h * n + j] == from[j].s_times(scale.s_times(root))
                    &&& (DeltaView { q: whole.q, k: whole.k, ..a }) == whole
                    &&& r.ssm_state == #[trigger] stepped(s.ssm_state, a, heads)
                    &&& r.out_values == delta_output(zero_seq(tv), s.ssm_state, a, heads)
                }
            &&& r.gated_out == maybe_gated(
                zero_seq(tv),
                r.out_values,
                r.z_out,
                w.norm,
                heads,
                d.value_dim,
                norm_eps(),
            )
            &&& r.attn_proj == rows_of(
                w.out_proj,
                r.gated_out,
                d.hidden_dim as int,
                tv,
                d.group_size as int,
            )
        }),
{
    let hd = d.hidden_dim as int;
    let tv = d.total_value as int;
    let tk = d.total_key as int;
    let dim = d.conv_dim as int;
    let n = d.key_dim as int;
    let n_k = d.num_k_heads as int;
    let heads = d.num_v_heads as int;
    let i = linear_inputs(d, w, normed, s.conv_state);
    let r = s.step(d, w, normed, norm_eps());
    let scale = score_scale::<S>(d.key_dim);
    law_linear_inputs(d, w, normed, s.conv_state);
    assert(r.conv_out =~= i.conv_out);
    assert(overwrite(s.out_values, 0, zero_seq::<S>(tv)) =~= zero_seq::<S>(tv));
    assert(overwrite(s.gated_out, 0, zero_seq::<S>(tv)) =~= zero_seq::<S>(tv));
    assert(overwrite(s.attn_proj, 0, zero_seq::<S>(hd)) =~= zero_seq::<S>(hd));
    lemma_rows(w.out_proj, r.gated_out, hd, tv, d.group_size as int);
    lemma_within(h, n_k, n, n);
    let a = DeltaView {
        q: key_normed(
            NormOrder::ScaleFirst,
            i.conv_out.subrange(0, tk),
            i.conv_out,
            0,
            n_k,
            d.key_dim,
            norm_eps(),
            scale.s_times(scale),
        ),
        k: key_normed(
            NormOrder::WeightFirst,
            i.conv_out.subrange(tk, 2 * tk),
            i.conv_out,
            tk,
            n_k,
            d.key_dim,
            norm_eps(),
            scale,
        ),
        ..delta_operands(d, w, i)
    };
    law_delta_operands(d, w, i, h, j);
    law_key_norm(
        NormOrder::ScaleFirst,
        i.conv_out.subrange(0, tk),
        i.conv_out,
        0,
        n_k,
        d.key_dim,
        norm_eps(),
        scale.s_times(scale),
        h,
        j,
    );
    law_key_norm(
        NormOrder::WeightFirst,
        i.conv_out.subrange(tk, 2 * tk),
        i.conv_out,
        tk,
        n_k,
        d.key_dim,
        norm_eps(),
        scale,
        h,
        j,
    );
    assert(r.ssm_state == stepped(s.ssm_state, a, heads));
}

} // verus!
