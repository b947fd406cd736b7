//! A layer on the CPU, step by step.
//!
//! Each step has explicit inputs and outputs, so that steps can be inspected or replaced. The
//! scratch vectors are the caller's; a product whose matrix is missing leaves its target as it
//! was.

use vstd::prelude::*;

use crate::attention::{KVCache, LinearAttnState};
use crate::attention_math::{
    attend, attended, attention_scale, covers_heads, maybe_normed_heads, rms_norm_heads,
    score_scale, split_heads, split_q_gate, NormOrder,
};
use crate::delta_net::{
    conv1d_step, conv_step, decay_heads, decays, delta_output, gate_heads, gate_value_heads,
    gated_delta_net_step, gates, key_normed, maybe_gated, norm_key_heads, shift_conv_state,
    shifted_state, stepped, DeltaView,
};
use crate::expert_math::{expert_output, run_expert, ExpertParts};
use crate::math_util::{
    activate_expert, bf16_normed, bf16_values, copy_of, copy_range, expert_activation, fill_zero,
    norm_eps, norm_epsilon, normalized, rms_norm_bf16, scale_range, sigmoid_gate_inplace,
    sigmoid_gated, softmax_of, softmax_prefix, zero_seq,
};
use crate::quant::{matvec, overwrite};
use crate::rope::{apply_rotary_emb, pair_count, twisted};
use crate::routing::{best, choose_experts, of_bits, Routing};
use crate::scalar::{zero, zero_vec, Scalar};
use crate::stored::{append_bf16, lemma_bf16_numbers, truncated};
use crate::weights::{
    dequant_proj, mat_fits, projected, AttnWeights, LayerDims, LinearWeights, MoeWeights, QuantMat,
};

verus! {

/// A vector after a norm was written to the front of `out`; without weights it is copied.
pub open spec fn input_normed<S: Scalar>(
    hidden: Seq<S>,
    norm_w: Option<&[u16]>,
    out: Seq<S>,
    dim: usize,
    eps: S,
) -> Seq<S> {
    match norm_w {
        Some(w) => overwrite(out, 0, bf16_normed(hidden, 0, w@, dim, eps)),
        None => overwrite(out, 0, hidden.take(dim as int)),
    }
}

/// Normalise the hidden state; without weights copy it.
pub fn step_input_norm<S: Scalar>(
    hidden: &[S],
    norm_w: Option<&[u16]>,
    out: &mut [S],
    dim: usize,
    eps: &S,
)
    requires
        dim <= hidden@.len(),
        dim <= old(out)@.len(),
        norm_w matches Some(w) ==> dim <= w@.len(),
    ensures
        final(out)@ == input_normed(hidden@, norm_w, old(out)@, dim, *eps),
{
    match norm_w {
        Some(w) => rms_norm_bf16(hidden, w, out, dim, eps),
        None => {
            copy_range(out, 0, hidden, 0, dim);
            assert(hidden@.subrange(0, dim as int) =~= hidden@.take(dim as int));
        },
    }
}

/// What full attention reads and writes.
pub struct FullStep<S> {
    pub attn_proj: Seq<S>,
    pub q_proj_out: Seq<S>,
    pub q_buf: Seq<S>,
    pub q_gate: Seq<S>,
    pub k_buf: Seq<S>,
    pub v_buf: Seq<S>,
    pub attn_out: Seq<S>,
    pub k_cache: Seq<u16>,
    pub v_cache: Seq<u16>,
    pub len: int,
}

impl<S: Scalar> FullStep<S> {
    /// The vectors are long enough.
    pub open spec fn fits(self, d: LayerDims) -> bool {
        &&& d.hidden_dim <= self.attn_proj.len()
        &&& 2 * d.q_dim() <= self.q_proj_out.len()
        &&& d.q_dim() <= self.q_buf.len()
        &&& d.q_dim() <= self.q_gate.len()
        &&& d.kv_dim() <= self.k_buf.len()
        &&& d.kv_dim() <= self.v_buf.len()
        &&& d.q_dim() <= self.attn_out.len()
        &&& self.len < usize::MAX
        &&& self.len * d.kv_dim() + d.kv_dim() <= self.k_cache.len()
        &&& self.len * d.kv_dim() + d.kv_dim() <= self.v_cache.len()
        &&& covers_heads(
            self.k_cache.len() as int,
            d.num_heads as int,
            d.heads_per_kv(),
            d.head_dim as int,
            d.kv_dim(),
            self.len + 1,
        )
        &&& covers_heads(
            self.v_cache.len() as int,
            d.num_heads as int,
            d.heads_per_kv(),
            d.head_dim as int,
            d.kv_dim(),
            self.len + 1,
        )
        &&& (d.num_heads - 1) * d.head_dim + 2 * pair_count(d.rotary_dim as int)
            <= self.q_buf.len()
        &&& (d.num_kv_heads - 1) * d.head_dim + 2 * pair_count(d.rotary_dim as int)
            <= self.k_buf.len()
    }

    /// The state after full attention of one token: project, split, norm and turn the heads,
    /// append keys and values, attend, gate, and project back.
    pub open spec fn step(
        self,
        d: LayerDims,
        w: AttnWeights,
        normed: Seq<S>,
        cos: Seq<S>,
        sin: Seq<S>,
        eps: S,
    ) -> FullStep<S> {
        let hd = d.hidden_dim as int;
        let gs = d.group_size as int;
        let heads = d.num_heads as int;
        let kv_heads = d.num_kv_heads as int;
        let head_dim = d.head_dim as int;
        let pairs = pair_count(d.rotary_dim as int);
        let q_proj_out = projected(w.q, normed, self.q_proj_out, 2 * d.q_dim(), hd, gs);
        let k0 = projected(w.k, normed, self.k_buf, d.kv_dim(), hd, gs);
        let v_buf = projected(w.v, normed, self.v_buf, d.kv_dim(), hd, gs);
        let q0 = split_heads(self.q_buf, q_proj_out, heads, head_dim, 0);
        let q_gate = split_heads(self.q_gate, q_proj_out, heads, head_dim, head_dim);
        let order = NormOrder::ScaleFirst;
        let q1 = maybe_normed_heads(order, q0, heads, d.head_dim, w.q_norm, eps);
        let k1 = maybe_normed_heads(order, k0, kv_heads, d.head_dim, w.k_norm, eps);
        let q_buf = twisted(q1, heads, head_dim, pairs, cos, sin);
        let k_buf = twisted(k1, kv_heads, head_dim, pairs, cos, sin);
        let at = self.len * d.kv_dim();
        let k_cache = overwrite(self.k_cache, at, truncated(k_buf, d.kv_dim()));
        let v_cache = overwrite(self.v_cache, at, truncated(v_buf, d.kv_dim()));
        let attn = attended(
            overwrite(self.attn_out, 0, zero_seq(d.q_dim())),
            q_buf,
            bf16_values(k_cache),
            bf16_values(v_cache),
            heads,
            d.heads_per_kv(),
            d.head_dim,
            d.kv_dim(),
            self.len + 1,
        );
        let attn_out = overwrite(attn, 0, sigmoid_gated(attn, q_gate, d.q_dim()));
        let attn_proj = projected(
            w.o,
            attn_out,
            overwrite(self.attn_proj, 0, zero_seq(hd)),
            hd,
            d.q_dim(),
            gs,
        );
        FullStep {
            attn_proj,
            q_proj_out,
            q_buf,
            q_gate,
            k_buf,
            v_buf,
            attn_out,
            k_cache,
            v_cache,
            len: self.len + 1,
        }
    }
}

/// The bounds that the sizes of full attention have in machine integers.
pub proof fn lemma_attention_sizes(d: LayerDims)
    requires
        d.attention_valid(),
    ensures
        d.num_heads * (2 * d.head_dim) == 2 * d.q_dim(),
        d.q_dim() <= usize::MAX,
        0 < d.heads_per_kv(),
        0 <= d.q_dim(),
        0 <= d.kv_dim(),
        2 * d.head_dim <= usize::MAX,
{
    let h = d.num_heads as int;
    let n = d.head_dim as int;
    assert(h * (2 * n) == 2 * (h * n)) by (nonlinear_arith);
    assert(0 <= h * n) by (nonlinear_arith)
        requires
            0 <= h,
            0 <= n,
    ;
    assert(2 * n <= h * (2 * n)) by (nonlinear_arith)
        requires
            1 <= h,
            0 <= n,
    ;
    assert(0 <= d.num_kv_heads * d.head_dim) by (nonlinear_arith);
    vstd::arithmetic::div_mod::lemma_div_is_ordered(
        d.num_kv_heads as int,
        d.num_heads as int,
        d.num_kv_heads as int,
    );
    vstd::arithmetic::div_mod::lemma_div_by_self(d.num_kv_heads as int);
}

/// Full attention of one token, over a cache of bf16 numbers.
pub fn step_full_attention<S: Scalar>(
    d: &LayerDims,
    w: &AttnWeights,
    normed: &[S],
    kv: &mut KVCache,
    cos: &[S],
    sin: &[S],
    eps: &S,
    attn_proj: &mut [S],
    q_proj_out: &mut [S],
    q_buf: &mut [S],
    q_gate: &mut [S],
    k_buf: &mut [S],
    v_buf: &mut [S],
    attn_out: &mut [S],
)
    requires
        d.attention_valid(),
        w.fits(*d, normed@.len() as int, old(attn_out)@.len() as int),
        pair_count(d.rotary_dim as int) <= cos@.len(),
        pair_count(d.rotary_dim as int) <= sin@.len(),
        (FullStep {
            attn_proj: old(attn_proj)@,
            q_proj_out: old(q_proj_out)@,
            q_buf: old(q_buf)@,
            q_gate: old(q_gate)@,
            k_buf: old(k_buf)@,
            v_buf: old(v_buf)@,
            attn_out: old(attn_out)@,
            k_cache: old(kv).k_cache@,
            v_cache: old(kv).v_cache@,
            len: old(kv).len as int,
        }).fits(*d),
    ensures
        final(attn_proj)@.len() == old(attn_proj)@.len(),
        final(q_proj_out)@.len() == old(q_proj_out)@.len(),
        final(q_buf)@.len() == old(q_buf)@.len(),
        final(q_gate)@.len() == old(q_gate)@.len(),
        final(k_buf)@.len() == old(k_buf)@.len(),
        final(v_buf)@.len() == old(v_buf)@.len(),
        final(attn_out)@.len() == old(attn_out)@.len(),
        (FullStep {
            attn_proj: final(attn_proj)@,
            q_proj_out: final(q_proj_out)@,
            q_buf: final(q_buf)@,
            q_gate: final(q_gate)@,
            k_buf: final(k_buf)@,
            v_buf: final(v_buf)@,
            attn_out: final(attn_out)@,
            k_cache: final(kv).k_cache@,
            v_cache: final(kv).v_cache@,
            len: final(kv).len as int,
        }) == (FullStep {
            attn_proj: old(attn_proj)@,
            q_proj_out: old(q_proj_out)@,
            q_buf: old(q_buf)@,
            q_gate: old(q_gate)@,
            k_buf: old(k_buf)@,
            v_buf: old(v_buf)@,
            attn_out: old(attn_out)@,
            k_cache: old(kv).k_cache@,
            v_cache: old(kv).v_cache@,
            len: old(kv).len as int,
        }).step(*d, *w, normed@, cos@, sin@, *eps),
{
    proof {
        lemma_attention_sizes(*d);
    }
    let hd: usize = d.hidden_dim;
    let gs: usize = d.group_size;
    let q_dim: usize = d.num_heads * d.head_dim;
    let kv_dim: usize = d.num_kv_heads * d.head_dim;
    let q_proj_dim: usize = d.num_heads * (2 * d.head_dim);
    dequant_proj(w.q, normed, q_proj_out, q_proj_dim, hd, gs);
    dequant_proj(w.k, normed, k_buf, kv_dim, hd, gs);
    dequant_proj(w.v, normed, v_buf, kv_dim, hd, gs);
    split_q_gate(q_proj_out, q_buf, q_gate, d.num_heads, d.head_dim);
    rms_norm_heads(NormOrder::ScaleFirst, q_buf, d.num_heads, d.head_dim, w.q_norm, eps);
    rms_norm_heads(NormOrder::ScaleFirst, k_buf, d.num_kv_heads, d.head_dim, w.k_norm, eps);
    apply_rotary_emb(
        q_buf,
        k_buf,
        cos,
        sin,
        d.num_heads,
        d.num_kv_heads,
        d.head_dim,
        d.rotary_dim,
    );
    let at: usize = kv.len;
    append_bf16(k_buf, &mut kv.k_cache, at, kv_dim);
    append_bf16(v_buf, &mut kv.v_cache, at, kv_dim);
    kv.len = at + 1;
    fill_zero(attn_out, q_dim);
    proof {
        lemma_bf16_numbers::<S>(kv.k_cache@);
        lemma_bf16_numbers::<S>(kv.v_cache@);
    }
    attend(
        q_buf,
        kv.k_cache.as_slice(),
        kv.v_cache.as_slice(),
        attn_out,
        d.num_heads,
        d.num_heads / d.num_kv_heads,
        d.head_dim,
        kv_dim,
        at + 1,
    );
    sigmoid_gate_inplace(attn_out, q_gate, q_dim);
    fill_zero(attn_proj, hd);
    dequant_proj(w.o, attn_out, attn_proj, hd, q_dim, gs);
}

/// What linear attention reads and writes.
pub struct LinearStep<S> {
    pub attn_proj: Seq<S>,
    pub qkv_out: Seq<S>,
    pub z_out: Seq<S>,
    pub beta_out: Seq<S>,
    pub alpha_out: Seq<S>,
    pub conv_out: Seq<S>,
    pub out_values: Seq<S>,
    pub gated_out: Seq<S>,
    pub conv_state: Seq<S>,
    pub ssm_state: Seq<S>,
}

impl<S: Scalar> LinearStep<S> {
    /// The vectors are long enough.
    pub open spec fn fits(self, d: LayerDims) -> bool {
        &&& d.hidden_dim <= self.attn_proj.len()
        &&& d.conv_dim == self.qkv_out.len()
        &&& d.total_value <= self.z_out.len()
        &&& d.num_v_heads <= self.beta_out.len()
        &&& d.num_v_heads <= self.alpha_out.len()
        &&& d.conv_dim <= self.conv_out.len()
        &&& d.total_value <= self.out_values.len()
        &&& d.total_value <= self.gated_out.len()
        &&& (d.conv_kernel - 1) * d.conv_dim <= self.conv_state.len()
        &&& d.num_v_heads * (d.value_dim * d.key_dim) <= self.ssm_state.len()
    }

    /// The state after linear attention of one token: project, convolve, norm queries and
    /// keys, make a step of the recurrence, norm and gate its output, and project back.
    pub open spec fn step(
        self,
        d: LayerDims,
        w: LinearWeights,
        normed: Seq<S>,
        eps: S,
    ) -> LinearStep<S> {
        let hd = d.hidden_dim as int;
        let gs = d.group_size as int;
        let dim = d.conv_dim as int;
        let tk = d.total_key as int;
        let tv = d.total_value as int;
        let n_v = d.num_v_heads as int;
        let n_k = d.num_k_heads as int;
        let qkv_out = projected(w.qkv, normed, self.qkv_out, dim, hd, gs);
        let z_out = projected(w.z, normed, self.z_out, tv, hd, gs);
        let beta_out = projected(w.b, normed, self.beta_out, n_v, hd, gs);
        let alpha_out = projected(w.a, normed, self.alpha_out, n_v, hd, gs);
        let cleared = overwrite(self.conv_out, 0, zero_seq(dim));
        let conv_out = match w.conv1d {
            Some(cw) => overwrite(
                cleared,
                0,
                conv_step(self.conv_state, qkv_out, cw@, dim, d.conv_kernel as int),
            ),
            None => cleared,
        };
        let conv_state = if self.conv_state.len() >= dim {
            shifted_state(self.conv_state, qkv_out)
        } else {
            self.conv_state
        };
        let scale = score_scale::<S>(d.key_dim);
        let q = key_normed(
            NormOrder::ScaleFirst,
            conv_out.subrange(0, tk),
            conv_out,
            0,
            n_k,
            d.key_dim,
            norm_eps(),
            scale.s_times(scale),
        );
        let k = key_normed(
            NormOrder::WeightFirst,
            conv_out.subrange(tk, 2 * tk),
            conv_out,
            tk,
            n_k,
            d.key_dim,
            norm_eps(),
            scale,
        );
        let a = DeltaView {
            q,
            k,
            v: conv_out,
            q_base: 0,
            k_base: 0,
            v_base: 2 * tk,
            g_decay: decays(alpha_out, w.a_log, w.dt_bias, n_v),
            beta_gate: gates(beta_out, n_v),
            k_heads_per_v: d.k_heads_per_v(),
            key_dim: d.key_dim as int,
            value_dim: d.value_dim as int,
        };
        let out_values = delta_output(
            overwrite(self.out_values, 0, zero_seq(tv)),
            self.ssm_state,
            a,
            n_v,
        );
        let gated_out = maybe_gated(
            overwrite(self.gated_out, 0, zero_seq(tv)),
            out_values,
            z_out,
            w.norm,
            n_v,
            d.value_dim,
            eps,
        );
        let attn_proj = projected(
            w.out_proj,
            gated_out,
            overwrite(self.attn_proj, 0, zero_seq(hd)),
            hd,
            tv,
            gs,
        );
        LinearStep {
            attn_proj,
            qkv_out,
            z_out,
            beta_out,
            alpha_out,
            conv_out,
            out_values,
            gated_out,
            conv_state,
            ssm_state: stepped(self.ssm_state, a, n_v),
        }
    }
}

/// The bounds that the sizes of linear attention have.
pub proof fn lemma_linear_sizes(d: LayerDims)
    requires
        d.linear_valid(),
    ensures
        0 < d.k_heads_per_v(),
        0 <= d.num_v_heads * d.value_dim,
{
    vstd::arithmetic::div_mod::lemma_div_is_ordered(
        d.num_k_heads as int,
        d.num_v_heads as int,
        d.num_k_heads as int,
    );
    vstd::arithmetic::div_mod::lemma_div_by_self(d.num_k_heads as int);
    assert(0 <= d.num_v_heads * d.value_dim) by (nonlinear_arith);
}

/// Linear attention of one token.
pub fn step_linear_attention<S: Scalar>(
    d: &LayerDims,
    w: &LinearWeights,
    normed: &[S],
    state: &mut LinearAttnState<S>,
    eps: &S,
    attn_proj: &mut [S],
    qkv_out: &mut [S],
    z_out: &mut [S],
    beta_out: &mut [S],
    alpha_out: &mut [S],
    conv_out: &mut [S],
    out_values: &mut [S],
    gated_out: &mut [S],
)
    requires
        d.linear_valid(),
        w.fits(*d, normed@.len() as int, old(gated_out)@.len() as int),
        (LinearStep {
            attn_proj: old(attn_proj)@,
            qkv_out: old(qkv_out)@,
            z_out: old(z_out)@,
            beta_out: old(beta_out)@,
            alpha_out: old(alpha_out)@,
            conv_out: old(conv_out)@,
            out_values: old(out_values)@,
            gated_out: old(gated_out)@,
            conv_state: old(state).conv_state@,
            ssm_state: old(state).ssm_state@,
        }).fits(*d),
    ensures
        final(attn_proj)@.len() == old(attn_proj)@.len(),
        final(qkv_out)@.len() == old(qkv_out)@.len(),
        final(z_out)@.len() == old(z_out)@.len(),
        final(beta_out)@.len() == old(beta_out)@.len(),
        final(alpha_out)@.len() == old(alpha_out)@.len(),
        final(conv_out)@.len() == old(conv_out)@.len(),
        final(out_values)@.len() == old(out_values)@.len(),
        final(gated_out)@.len() == old(gated_out)@.len(),
        (LinearStep {
            attn_proj: final(attn_proj)@,
            qkv_out: final(qkv_out)@,
            z_out: final(z_out)@,
            beta_out: final(beta_out)@,
            alpha_out: final(alpha_out)@,
            conv_out: final(conv_out)@,
            out_values: final(out_values)@,
            gated_out: final(gated_out)@,
            conv_state: final(state).conv_state@,
            ssm_state: final(state).ssm_state@,
        }) == (LinearStep {
            attn_proj: old(attn_proj)@,
            qkv_out: old(qkv_out)@,
            z_out: old(z_out)@,
            beta_out: old(beta_out)@,
            alpha_out: old(alpha_out)@,
            conv_out: old(conv_out)@,
            out_values: old(out_values)@,
            gated_out: old(gated_out)@,
            conv_state: old(state).conv_state@,
            ssm_state: old(state).ssm_state@,
        }).step(*d, *w, normed@, *eps),
{
    proof {
        lemma_linear_sizes(*d);
    }
    let hd: usize = d.hidden_dim;
    let gs: usize = d.group_size;
    let tk: usize = d.total_key;
    dequant_proj(w.qkv, normed, qkv_out, d.conv_dim, hd, gs);
    dequant_proj(w.z, normed, z_out, d.total_value, hd, gs);
    dequant_proj(w.b, normed, beta_out, d.num_v_heads, hd, gs);
    dequant_proj(w.a, normed, alpha_out, d.num_v_heads, hd, gs);
    fill_zero(conv_out, d.conv_dim);
    if let Some(cw) = w.conv1d {
        conv1d_step(state.conv_state.as_slice(), qkv_out, cw, conv_out, d.conv_dim, d.conv_kernel);
    }
    if state.conv_state.len() >= d.conv_dim {
        shift_conv_state(&mut state.conv_state, qkv_out, d.conv_dim);
    }
    let mut lin_q: Vec<S> = copy_of(vstd::slice::slice_subrange(conv_out, 0, tk));
    let mut lin_k: Vec<S> = copy_of(vstd::slice::slice_subrange(conv_out, tk, 2 * tk));
    let scale: S = attention_scale(d.key_dim);
    let q_scale: S = scale.times(&scale);
    let small: S = norm_epsilon();
    norm_key_heads(
        NormOrder::ScaleFirst,
        conv_out,
        0,
        lin_q.as_mut_slice(),
        d.num_k_heads,
        d.key_dim,
        &small,
        &q_scale,
    );
    norm_key_heads(
        NormOrder::WeightFirst,
        conv_out,
        tk,
        lin_k.as_mut_slice(),
        d.num_k_heads,
        d.key_dim,
        &small,
        &scale,
    );
    let g_decay: Vec<S> = decay_heads(alpha_out, w.a_log, w.dt_bias, d.num_v_heads);
    let beta_gate: Vec<S> = gate_heads(beta_out, d.num_v_heads);
    fill_zero(out_values, d.total_value);
    gated_delta_net_step(
        state.ssm_state.as_mut_slice(),
        lin_q.as_slice(),
        0,
        lin_k.as_slice(),
        0,
        conv_out,
        2 * tk,
        g_decay.as_slice(),
        beta_gate.as_slice(),
        out_values,
        d.num_v_heads,
        d.num_v_heads / d.num_k_heads,
        d.key_dim,
        d.value_dim,
    );
    fill_zero(gated_out, d.total_value);
    gate_value_heads(out_values, z_out, w.norm, gated_out, d.num_v_heads, d.value_dim, eps);
    fill_zero(attn_proj, hd);
    dequant_proj(w.out_proj, gated_out, attn_proj, hd, d.total_value, gs);
}

/// The experts of a token, their weights, and the score of the shared expert.
pub struct RoutingResult<S> {
    pub expert_indices: Vec<usize>,
    /// Scaled to sum to one.
    pub expert_weights: Vec<S>,
    pub shared_gate_score: S,
}

/// Router probabilities: the softmax of the projection of the hidden state.
pub open spec fn router_scores<S: Scalar>(
    d: LayerDims,
    gate: Option<QuantMat>,
    h_post: Seq<S>,
    scores: Seq<S>,
) -> Seq<S> {
    let ne = d.num_experts as int;
    let logits = projected(
        gate,
        h_post,
        overwrite(scores, 0, zero_seq(ne)),
        ne,
        d.hidden_dim as int,
        d.group_size as int,
    );
    overwrite(logits, 0, softmax_of(logits, 0, ne))
}

/// The score of the shared expert, zero if its matrix is missing.
pub open spec fn shared_score<S: Scalar>(
    d: LayerDims,
    seg: Option<QuantMat>,
    h_post: Seq<S>,
) -> S {
    match seg {
        Some(q) => matvec(q.quant(), h_post, 1, d.hidden_dim as int, d.group_size as int)[0],
        None => zero(),
    }
}

/// The score of the shared expert.
pub fn shared_gate<S: Scalar>(d: &LayerDims, seg: Option<QuantMat>, h_post: &[S]) -> (r: S)
    requires
        mat_fits(seg, h_post@.len() as int, 1, d.hidden_dim as int, d.group_size as int),
    ensures
        r == shared_score(*d, seg, h_post@),
{
    let mut tmp: Vec<S> = zero_vec(1);
    dequant_proj(seg, h_post, tmp.as_mut_slice(), 1, d.hidden_dim, d.group_size);
    tmp[0].dup()
}

/// Score the experts and choose the best.
pub fn step_moe_routing<S: Scalar>(
    d: &LayerDims,
    gate: Option<QuantMat>,
    seg: Option<QuantMat>,
    h_post: &[S],
    gate_scores: &mut [S],
) -> (r: RoutingResult<S>)
    requires
        0 < d.experts_per_tok,
        d.num_experts <= old(gate_scores)@.len(),
        mat_fits(
            gate,
            h_post@.len() as int,
            d.num_experts as int,
            d.hidden_dim as int,
            d.group_size as int,
        ),
        mat_fits(seg, h_post@.len() as int, 1, d.hidden_dim as int, d.group_size as int),
    ensures
        final(gate_scores)@ == router_scores(*d, gate, h_post@, old(gate_scores)@),
        ({
            let chosen = best(
                final(gate_scores)@.take(d.num_experts as int),
                d.experts_per_tok,
            );
            &&& r.expert_indices@ == chosen.indices
            &&& r.expert_weights@ == normalized(of_bits::<S>(chosen.values))
        }),
        r.expert_indices@.len() == d.experts_per_tok,
        r.expert_weights@.len() == d.experts_per_tok,
        r.shared_gate_score == shared_score(*d, seg, h_post@),
{
    let ne: usize = d.num_experts;
    fill_zero(gate_scores, ne);
    dequant_proj(gate, h_post, gate_scores, ne, d.hidden_dim, d.group_size);
    let shared_gate_score: S = shared_gate(d, seg, h_post);
    softmax_prefix(gate_scores, ne);
    let chosen: Routing<S> = choose_experts(
        vstd::slice::slice_subrange(gate_scores, 0, ne),
        d.experts_per_tok,
    );
    assert(gate_scores@.subrange(0, ne as int) =~= gate_scores@.take(ne as int));
    RoutingResult {
        expert_indices: chosen.indices,
        expert_weights: chosen.weights,
        shared_gate_score,
    }
}

/// Run one expert from its packed bytes.
pub fn step_cpu_expert<S: Scalar>(
    d: &LayerDims,
    parts: &ExpertParts,
    expert_data: &[u8],
    h_post: &[S],
    expert_out: &mut [S],
)
    requires
        parts.fits(
            expert_data@.len() as int,
            h_post@.len() as int,
            d.hidden_dim as int,
            d.moe_inter as int,
            d.group_size as int,
        ),
        d.hidden_dim <= old(expert_out)@.len(),
    ensures
        final(expert_out)@ == overwrite(
            old(expert_out)@,
            0,
            expert_output(
                expert_data@,
                *parts,
                h_post@,
                d.hidden_dim as int,
                d.moe_inter as int,
                d.group_size as int,
            ),
        ),
{
    run_expert(
        expert_data,
        parts,
        h_post,
        expert_out,
        d.hidden_dim,
        d.moe_inter,
        d.group_size,
    );
}

/// The activation of the shared expert.
pub open spec fn shared_activation<S: Scalar>(
    d: LayerDims,
    w: MoeWeights,
    h_post: Seq<S>,
) -> Seq<S> {
    let si = d.shared_inter as int;
    let hd = d.hidden_dim as int;
    let gs = d.group_size as int;
    let gate = projected(w.shared_gate, h_post, zero_seq(si), si, hd, gs);
    let up = projected(w.shared_up, h_post, zero_seq(si), si, hd, gs);
    expert_activation(gate, up, si)
}

/// The shared expert's output, times a score.
pub open spec fn shared_output<S: Scalar>(
    d: LayerDims,
    w: MoeWeights,
    h_post: Seq<S>,
    score: S,
    out: Seq<S>,
) -> Seq<S> {
    let hd = d.hidden_dim as int;
    let raw = projected(
        w.shared_down,
        shared_activation(d, w, h_post),
        overwrite(out, 0, zero_seq(hd)),
        hd,
        d.shared_inter as int,
        d.group_size as int,
    );
    overwrite(raw, 0, Seq::new(hd as nat, |i: int| raw[i].s_times(score)))
}

/// Run the shared expert, and scale its output by a score.
pub fn step_shared_expert<S: Scalar>(
    d: &LayerDims,
    w: &MoeWeights,
    h_post: &[S],
    shared_gate_score: &S,
    shared_out: &mut [S],
)
    requires
        w.fits(*d, h_post@.len() as int, d.shared_inter as int),
        d.hidden_dim <= old(shared_out)@.len(),
    ensures
        final(shared_out)@ == shared_output(
            *d,
            *w,
            h_post@,
            *shared_gate_score,
            old(shared_out)@,
        ),
{
    let si: usize = d.shared_inter;
    let hd: usize = d.hidden_dim;
    let gs: usize = d.group_size;
    let mut gate: Vec<S> = zero_vec(si);
    let mut up: Vec<S> = zero_vec(si);
    let mut act: Vec<S> = zero_vec(si);
    dequant_proj(w.shared_gate, h_post, gate.as_mut_slice(), si, hd, gs);
    dequant_proj(w.shared_up, h_post, up.as_mut_slice(), si, hd, gs);
    activate_expert(gate.as_slice(), up.as_slice(), act.as_mut_slice(), si);
    assert(act@ =~= shared_activation(*d, *w, h_post@));
    fill_zero(shared_out, hd);
    dequant_proj(w.shared_down, act.as_slice(), shared_out, hd, si, gs);
    let ghost raw = shared_out@;
    scale_range(shared_out, 0, hd, shared_gate_score);
    assert(shared_out@ =~= overwrite(
        raw,
        0,
        Seq::new(hd as nat, |i: int| raw[i].s_times(*shared_gate_score)),
    ));
}

/// Residual, routed experts and shared expert added up.
pub open spec fn final_sum<S: Scalar>(
    h_mid: Seq<S>,
    moe_out: Seq<S>,
    shared_out: Seq<S>,
    dim: int,
) -> Seq<S> {
    Seq::new(dim as nat, |i: int| h_mid[i].s_plus(moe_out[i]).s_plus(shared_out[i]))
}

/// Add up residual, routed experts and shared expert.
pub fn step_final_combine<S: Scalar>(
    h_mid: &[S],
    moe_out: &[S],
    shared_out: &[S],
    hidden: &mut [S],
    dim: usize,
)
    requires
        dim <= h_mid@.len(),
        dim <= moe_out@.len(),
        dim <= shared_out@.len(),
        dim <= old(hidden)@.len(),
    ensures
        final(hidden)@ == overwrite(
            old(hidden)@,
            0,
            final_sum(h_mid@, moe_out@, shared_out@, dim as int),
        ),
{
    for i in 0..dim
        invariant
            dim <= h_mid@.len(),
            dim <= moe_out@.len(),
            dim <= shared_out@.len(),
            dim <= hidden@.len(),
            hidden@.len() == old(hidden)@.len(),
            forall|j: int|
                0 <= j < i ==> hidden@[j] == h_mid@[j].s_plus(moe_out@[j]).s_plus(shared_out@[j]),
            forall|j: int| i <= j < hidden@.len() ==> hidden@[j] == old(hidden)@[j],
    {
        hidden[i] = h_mid[i].plus(&moe_out[i]).plus(&shared_out[i]);
    }
    assert(hidden@ =~= overwrite(
        old(hidden)@,
        0,
        final_sum(h_mid@, moe_out@, shared_out@, dim as int),
    ));
}

} // verus!
