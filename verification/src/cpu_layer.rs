//! A whole layer on the CPU: attention, routing, experts.

use vstd::prelude::*;

use crate::attention::{KVCache, LinearAttnState};
use crate::cpu_forward::{
    final_sum, input_normed, router_scores, shared_activation, shared_output, shared_score,
    step_cpu_expert,
    step_final_combine, step_full_attention, step_input_norm, step_linear_attention,
    step_moe_routing, step_shared_expert, FullStep, LinearStep, RoutingResult,
};
use crate::constants::MAX_K;
use crate::expert_math::{
    chosen_bytes, expert_blob, expert_bytes_in, expert_output, law_expert_bytes, madded, vec_madd,
    ExpertParts,
};
use crate::layer_laws::{expert_sum, law_experts_summed, law_shared_expert};
use crate::math_util::{
    added, copy_range, fill_zero, normalized, residual_add, sigmoid, sigmoid_value, zero_seq,
};
use crate::quant::overwrite;
use crate::rope::pair_count;
use crate::routing::{best, of_bits};
use crate::scalar::{one, zero, zero_vec, Scalar};
use crate::weights::{row_of, AttnWeights, LayerDims, LinearWeights, MoeWeights};

verus! {

/// Scratch vectors of a layer, reused across layers and tokens.
pub struct CpuForwardScratch<S> {
    pub normed: Vec<S>,
    pub residual: Vec<S>,
    pub attn_proj: Vec<S>,
    pub h_post: Vec<S>,
    pub h_mid: Vec<S>,
    pub gate_scores: Vec<S>,
    pub moe_out: Vec<S>,
    pub shared_out: Vec<S>,
    pub expert_tmp: Vec<S>,
    pub q_proj_out: Vec<S>,
    pub k_buf: Vec<S>,
    pub v_buf: Vec<S>,
    pub q_buf: Vec<S>,
    pub q_gate: Vec<S>,
    pub attn_out: Vec<S>,
    pub qkv_out: Vec<S>,
    pub z_out: Vec<S>,
    pub beta_out: Vec<S>,
    pub alpha_out: Vec<S>,
    pub conv_out: Vec<S>,
    pub out_values: Vec<S>,
    pub gated_out: Vec<S>,
}

/// What the scratch vectors hold.
pub struct ScratchView<S> {
    pub normed: Seq<S>,
    pub residual: Seq<S>,
    pub attn_proj: Seq<S>,
    pub h_post: Seq<S>,
    pub h_mid: Seq<S>,
    pub gate_scores: Seq<S>,
    pub moe_out: Seq<S>,
    pub shared_out: Seq<S>,
    pub expert_tmp: Seq<S>,
    pub q_proj_out: Seq<S>,
    pub k_buf: Seq<S>,
    pub v_buf: Seq<S>,
    pub q_buf: Seq<S>,
    pub q_gate: Seq<S>,
    pub attn_out: Seq<S>,
    pub qkv_out: Seq<S>,
    pub z_out: Seq<S>,
    pub beta_out: Seq<S>,
    pub alpha_out: Seq<S>,
    pub conv_out: Seq<S>,
    pub out_values: Seq<S>,
    pub gated_out: Seq<S>,
}

impl<S> View for CpuForwardScratch<S> {
    type V = ScratchView<S>;

    open spec fn view(&self) -> ScratchView<S> {
        ScratchView {
            normed: self.normed@,
            residual: self.residual@,
            attn_proj: self.attn_proj@,
            h_post: self.h_post@,
            h_mid: self.h_mid@,
            gate_scores: self.gate_scores@,
            moe_out: self.moe_out@,
            shared_out: self.shared_out@,
            expert_tmp: self.expert_tmp@,
            q_proj_out: self.q_proj_out@,
            k_buf: self.k_buf@,
            v_buf: self.v_buf@,
            q_buf: self.q_buf@,
            q_gate: self.q_gate@,
            attn_out: self.attn_out@,
            qkv_out: self.qkv_out@,
            z_out: self.z_out@,
            beta_out: self.beta_out@,
            alpha_out: self.alpha_out@,
            conv_out: self.conv_out@,
            out_values: self.out_values@,
            gated_out: self.gated_out@,
        }
    }
}

/// Scratch vectors of zeros.
pub open spec fn fresh_scratch<S: Scalar>(d: LayerDims) -> ScratchView<S> {
    ScratchView {
        normed: zero_seq(d.hidden_dim as int),
        residual: zero_seq(d.hidden_dim as int),
        attn_proj: zero_seq(d.hidden_dim as int),
        h_post: zero_seq(d.hidden_dim as int),
        h_mid: zero_seq(d.hidden_dim as int),
        gate_scores: zero_seq(d.num_experts as int),
        moe_out: zero_seq(d.hidden_dim as int),
        shared_out: zero_seq(d.hidden_dim as int),
        expert_tmp: zero_seq(d.hidden_dim as int),
        q_proj_out: zero_seq(2 * d.q_dim()),
        k_buf: zero_seq(d.kv_dim()),
        v_buf: zero_seq(d.kv_dim()),
        q_buf: zero_seq(d.q_dim()),
        q_gate: zero_seq(d.q_dim()),
        attn_out: zero_seq(d.q_dim()),
        qkv_out: zero_seq(d.conv_dim as int),
        z_out: zero_seq(d.total_value as int),
        beta_out: zero_seq(d.num_v_heads as int),
        alpha_out: zero_seq(d.num_v_heads as int),
        conv_out: zero_seq(d.conv_dim as int),
        out_values: zero_seq(d.total_value as int),
        gated_out: zero_seq(d.total_value as int),
    }
}

impl<S: Scalar> CpuForwardScratch<S> {
    /// Zeroed scratch vectors for a model.
    pub fn new(d: &LayerDims) -> (r: Self)
        requires
            d.num_heads * d.head_dim <= usize::MAX,
            2 * (d.num_heads * d.head_dim) <= usize::MAX,
            d.num_kv_heads * d.head_dim <= usize::MAX,
        ensures
            r@ == fresh_scratch::<S>(*d),
    {
        let q_dim: usize = d.num_heads * d.head_dim;
        let q_proj_dim: usize = 2 * q_dim;
        let kv_dim: usize = d.num_kv_heads * d.head_dim;
        CpuForwardScratch {
            normed: zero_vec(d.hidden_dim),
            residual: zero_vec(d.hidden_dim),
            attn_proj: zero_vec(d.hidden_dim),
            h_post: zero_vec(d.hidden_dim),
            h_mid: zero_vec(d.hidden_dim),
            gate_scores: zero_vec(d.num_experts),
            moe_out: zero_vec(d.hidden_dim),
            shared_out: zero_vec(d.hidden_dim),
            expert_tmp: zero_vec(d.hidden_dim),
            q_proj_out: zero_vec(q_proj_dim),
            k_buf: zero_vec(kv_dim),
            v_buf: zero_vec(kv_dim),
            q_buf: zero_vec(q_dim),
            q_gate: zero_vec(q_dim),
            attn_out: zero_vec(q_dim),
            qkv_out: zero_vec(d.conv_dim),
            z_out: zero_vec(d.total_value),
            beta_out: zero_vec(d.num_v_heads),
            alpha_out: zero_vec(d.num_v_heads),
            conv_out: zero_vec(d.conv_dim),
            out_values: zero_vec(d.total_value),
            gated_out: zero_vec(d.total_value),
        }
    }
}

impl<S: Scalar> ScratchView<S> {
    /// The vectors have the sizes of a model.
    pub open spec fn sized(self, d: LayerDims) -> bool {
        &&& self.normed.len() == d.hidden_dim as int
        &&& self.residual.len() == d.hidden_dim as int
        &&& self.attn_proj.len() == d.hidden_dim as int
        &&& self.h_post.len() == d.hidden_dim as int
        &&& self.h_mid.len() == d.hidden_dim as int
        &&& self.gate_scores.len() == d.num_experts as int
        &&& self.moe_out.len() == d.hidden_dim as int
        &&& self.shared_out.len() == d.hidden_dim as int
        &&& self.expert_tmp.len() == d.hidden_dim as int
        &&& self.q_proj_out.len() == 2 * d.q_dim()
        &&& self.k_buf.len() == d.kv_dim()
        &&& self.v_buf.len() == d.kv_dim()
        &&& self.q_buf.len() == d.q_dim()
        &&& self.q_gate.len() == d.q_dim()
        &&& self.attn_out.len() == d.q_dim()
        &&& self.qkv_out.len() == d.conv_dim as int
        &&& self.z_out.len() == d.total_value as int
        &&& self.beta_out.len() == d.num_v_heads as int
        &&& self.alpha_out.len() == d.num_v_heads as int
        &&& self.conv_out.len() == d.conv_dim as int
        &&& self.out_values.len() == d.total_value as int
        &&& self.gated_out.len() == d.total_value as int
    }
}

/// Weights of a layer.
#[derive(Clone, Copy)]
pub struct LayerWeights<'a> {
    pub input_norm: Option<&'a [u16]>,
    pub post_attn_norm: Option<&'a [u16]>,
    pub attn: AttnWeights<'a>,
    pub linear: LinearWeights<'a>,
    pub moe: MoeWeights<'a>,
}

/// State that a layer keeps between tokens.
pub enum LayerState<S> {
    Full(KVCache),
    Linear(LinearAttnState<S>),
}

/// What a layer keeps between tokens.
pub enum LayerStateView<S> {
    Full { k: Seq<u16>, v: Seq<u16>, len: int },
    Linear { conv: Seq<S>, ssm: Seq<S> },
}

impl<S> View for LayerState<S> {
    type V = LayerStateView<S>;

    open spec fn view(&self) -> LayerStateView<S> {
        match self {
            LayerState::Full(kv) => LayerStateView::Full {
                k: kv.k_cache@,
                v: kv.v_cache@,
                len: kv.len as int,
            },
            LayerState::Linear(s) => LayerStateView::Linear {
                conv: s.conv_state@,
                ssm: s.ssm_state@,
            },
        }
    }
}

/// The operands of full attention among scratch vectors and state.
pub open spec fn full_operands<S: Scalar>(
    s: ScratchView<S>,
    k: Seq<u16>,
    v: Seq<u16>,
    len: int,
) -> FullStep<S> {
    FullStep {
        attn_proj: s.attn_proj,
        q_proj_out: s.q_proj_out,
        q_buf: s.q_buf,
        q_gate: s.q_gate,
        k_buf: s.k_buf,
        v_buf: s.v_buf,
        attn_out: s.attn_out,
        k_cache: k,
        v_cache: v,
        len,
    }
}

/// The operands of linear attention among scratch vectors and state.
pub open spec fn linear_operands<S: Scalar>(
    s: ScratchView<S>,
    conv: Seq<S>,
    ssm: Seq<S>,
) -> LinearStep<S> {
    LinearStep {
        attn_proj: s.attn_proj,
        qkv_out: s.qkv_out,
        z_out: s.z_out,
        beta_out: s.beta_out,
        alpha_out: s.alpha_out,
        conv_out: s.conv_out,
        out_values: s.out_values,
        gated_out: s.gated_out,
        conv_state: conv,
        ssm_state: ssm,
    }
}

/// Scratch vectors and layer state after attention.
pub open spec fn attention_done<S: Scalar>(
    d: LayerDims,
    w: LayerWeights,
    s: ScratchView<S>,
    state: LayerStateView<S>,
    cos: Seq<S>,
    sin: Seq<S>,
    eps: S,
) -> (ScratchView<S>, LayerStateView<S>) {
    match state {
        LayerStateView::Full { k, v, len } => {
            let r = full_operands(s, k, v, len).step(d, w.attn, s.normed, cos, sin, eps);
            (
                ScratchView {
                    attn_proj: r.attn_proj,
                    q_proj_out: r.q_proj_out,
                    q_buf: r.q_buf,
                    q_gate: r.q_gate,
                    k_buf: r.k_buf,
                    v_buf: r.v_buf,
                    attn_out: r.attn_out,
                    ..s
                },
                LayerStateView::Full { k: r.k_cache, v: r.v_cache, len: r.len },
            )
        },
        LayerStateView::Linear { conv, ssm } => {
            let r = linear_operands(s, conv, ssm).step(d, w.linear, s.normed, eps);
            (
                ScratchView {
                    attn_proj: r.attn_proj,
                    qkv_out: r.qkv_out,
                    z_out: r.z_out,
                    beta_out: r.beta_out,
                    alpha_out: r.alpha_out,
                    conv_out: r.conv_out,
                    out_values: r.out_values,
                    gated_out: r.gated_out,
                    ..s
                },
                LayerStateView::Linear { conv: r.conv_state, ssm: r.ssm_state },
            )
        },
    }
}

/// The first half of a layer: everything up to the routing.
pub struct Half<S> {
    pub hidden: Seq<S>,
    pub scratch: ScratchView<S>,
    pub state: LayerStateView<S>,
}

/// The first half of a layer: residual, norm, attention, residual sum, norm, router scores.
pub open spec fn first_half<S: Scalar>(
    d: LayerDims,
    w: LayerWeights,
    hidden: Seq<S>,
    s: ScratchView<S>,
    state: LayerStateView<S>,
    cos: Seq<S>,
    sin: Seq<S>,
    eps: S,
) -> Half<S> {
    let hd = d.hidden_dim as int;
    let s0 = ScratchView {
        residual: overwrite(s.residual, 0, hidden),
        normed: input_normed(hidden, w.input_norm, s.normed, d.hidden_dim, eps),
        ..s
    };
    let (s1, state1) = attention_done(d, w, s0, state, cos, sin, eps);
    let mid = overwrite(hidden, 0, added(s1.residual, s1.attn_proj, hd));
    let h_post = input_normed(mid, w.post_attn_norm, s1.h_post, d.hidden_dim, eps);
    let s2 = ScratchView {
        h_mid: overwrite(s1.h_mid, 0, mid),
        h_post,
        gate_scores: router_scores(d, w.moe.gate, h_post, s1.gate_scores),
        ..s1
    };
    Half { hidden: mid, scratch: s2, state: state1 }
}

/// The layer's weights, scratch and state hold all that the layer reads.
pub open spec fn layer_fits<S: Scalar>(
    d: LayerDims,
    w: LayerWeights,
    s: ScratchView<S>,
    state: LayerStateView<S>,
) -> bool {
    &&& s.sized(d)
    &&& w.input_norm matches Some(n) ==> d.hidden_dim <= n@.len()
    &&& w.post_attn_norm matches Some(n) ==> d.hidden_dim <= n@.len()
    &&& w.moe.fits(d, d.hidden_dim as int, d.shared_inter as int)
    &&& match state {
        LayerStateView::Full { k, v, len } => {
            &&& d.attention_valid()
            &&& w.attn.fits(d, d.hidden_dim as int, d.q_dim())
            &&& full_operands(s, k, v, len).fits(d)
        },
        LayerStateView::Linear { conv, ssm } => {
            &&& d.linear_valid()
            &&& w.linear.fits(d, d.hidden_dim as int, d.total_value as int)
            &&& linear_operands(s, conv, ssm).fits(d)
        },
    }
}

/// The first half of a layer: attention, and the choice of the experts.
pub fn cpu_layer_route<S: Scalar>(
    d: &LayerDims,
    w: &LayerWeights,
    hidden: &mut [S],
    state: &mut LayerState<S>,
    cos: &[S],
    sin: &[S],
    eps: &S,
    scratch: &mut CpuForwardScratch<S>,
) -> (r: RoutingResult<S>)
    requires
        0 < d.experts_per_tok,
        old(hidden)@.len() == d.hidden_dim,
        layer_fits(*d, *w, old(scratch)@, old(state)@),
        old(state)@ is Full ==> pair_count(d.rotary_dim as int) <= cos@.len(),
        old(state)@ is Full ==> pair_count(d.rotary_dim as int) <= sin@.len(),
    ensures
        final(hidden)@.len() == old(hidden)@.len(),
        final(scratch)@.sized(*d),
        ({
            let half = first_half(
                *d,
                *w,
                old(hidden)@,
                old(scratch)@,
                old(state)@,
                cos@,
                sin@,
                *eps,
            );
            let chosen = best(
                half.scratch.gate_scores.take(d.num_experts as int),
                d.experts_per_tok,
            );
            &&& final(hidden)@ == half.hidden
            &&& final(scratch)@ == half.scratch
            &&& final(state)@ == half.state
            &&& r.expert_indices@ == chosen.indices
            &&& r.expert_weights@ == normalized(of_bits::<S>(chosen.values))
            &&& r.shared_gate_score == shared_score(
                *d,
                w.moe.shared_expert_gate,
                half.scratch.h_post,
            )
        }),
        r.expert_indices@.len() == d.experts_per_tok,
        r.expert_weights@.len() == d.experts_per_tok,
{
    let hd: usize = d.hidden_dim;
    let ghost h0 = hidden@;
    copy_range(scratch.residual.as_mut_slice(), 0, hidden, 0, hd);
    assert(h0.subrange(0, hd as int) =~= h0);
    step_input_norm(hidden, w.input_norm, scratch.normed.as_mut_slice(), hd, eps);
    match state {
        LayerState::Full(kv) => {
            step_full_attention(
                d,
                &w.attn,
                scratch.normed.as_slice(),
                kv,
                cos,
                sin,
                eps,
                scratch.attn_proj.as_mut_slice(),
                scratch.q_proj_out.as_mut_slice(),
                scratch.q_buf.as_mut_slice(),
                scratch.q_gate.as_mut_slice(),
                scratch.k_buf.as_mut_slice(),
                scratch.v_buf.as_mut_slice(),
                scratch.attn_out.as_mut_slice(),
            );
        },
        LayerState::Linear(la) => {
            step_linear_attention(
                d,
                &w.linear,
                scratch.normed.as_slice(),
                la,
                eps,
                scratch.attn_proj.as_mut_slice(),
                scratch.qkv_out.as_mut_slice(),
                scratch.z_out.as_mut_slice(),
                scratch.beta_out.as_mut_slice(),
                scratch.alpha_out.as_mut_slice(),
                scratch.conv_out.as_mut_slice(),
                scratch.out_values.as_mut_slice(),
                scratch.gated_out.as_mut_slice(),
            );
        },
    }
    residual_add(scratch.residual.as_slice(), scratch.attn_proj.as_slice(), hidden, hd);
    let ghost mid = hidden@;
    copy_range(scratch.h_mid.as_mut_slice(), 0, hidden, 0, hd);
    assert(mid.subrange(0, hd as int) =~= mid);
    step_input_norm(hidden, w.post_attn_norm, scratch.h_post.as_mut_slice(), hd, eps);
    step_moe_routing(
        d,
        w.moe.gate,
        w.moe.shared_expert_gate,
        scratch.h_post.as_slice(),
        scratch.gate_scores.as_mut_slice(),
    )
}

/// The bytes of the experts that are there.
pub open spec fn blob_views(blobs: Seq<Option<Vec<u8>>>) -> Seq<Option<Seq<u8>>> {
    Seq::new(
        blobs.len(),
        |i: int|
            match blobs[i] {
                Some(data) => Some(data@),
                None => None,
            },
    )
}

/// The sum of the first `k` experts whose bytes are there, and the output of the last of
/// them.
pub open spec fn experts_summed<S: Scalar>(
    d: LayerDims,
    parts: ExpertParts,
    blobs: Seq<Option<Seq<u8>>>,
    weights: Seq<S>,
    h_post: Seq<S>,
    moe_out: Seq<S>,
    tmp: Seq<S>,
    k: int,
) -> (Seq<S>, Seq<S>)
    decreases k,
{
    if k <= 0 {
        (moe_out, tmp)
    } else {
        let before = experts_summed(d, parts, blobs, weights, h_post, moe_out, tmp, k - 1);
        match blobs[k - 1] {
            Some(data) => {
                let out = overwrite(
                    before.1,
                    0,
                    expert_output(
                        data,
                        parts,
                        h_post,
                        d.hidden_dim as int,
                        d.moe_inter as int,
                        d.group_size as int,
                    ),
                );
                (madded(before.0, out, weights[k - 1], d.hidden_dim as int), out)
            },
            None => before,
        }
    }
}

/// The second half of a layer: routed experts, shared expert, and their sum with the
/// residual.
pub open spec fn second_half<S: Scalar>(
    d: LayerDims,
    w: LayerWeights,
    parts: ExpertParts,
    blobs: Seq<Option<Seq<u8>>>,
    weights: Seq<S>,
    k: int,
    score: S,
    hidden: Seq<S>,
    s: ScratchView<S>,
) -> (Seq<S>, ScratchView<S>) {
    let hd = d.hidden_dim as int;
    let (moe_out, expert_tmp) = experts_summed(
        d,
        parts,
        blobs,
        weights,
        s.h_post,
        overwrite(s.moe_out, 0, zero_seq(hd)),
        s.expert_tmp,
        k,
    );
    let shared_out = shared_output(
        d,
        w.moe,
        s.h_post,
        sigmoid_value(score),
        overwrite(s.shared_out, 0, zero_seq(hd)),
    );
    (
        overwrite(hidden, 0, final_sum(s.h_mid, moe_out, shared_out, hd)),
        ScratchView { moe_out, expert_tmp, shared_out, ..s },
    )
}

/// The second half of a layer, with the bytes of the experts that could be read.
pub fn cpu_layer_finish<S: Scalar>(
    d: &LayerDims,
    w: &LayerWeights,
    parts: &ExpertParts,
    expert_data_for_slot: &Vec<Option<Vec<u8>>>,
    expert_weights: &[S],
    actual_k: usize,
    shared_gate_score: &S,
    hidden: &mut [S],
    scratch: &mut CpuForwardScratch<S>,
)
    requires
        old(hidden)@.len() == d.hidden_dim,
        old(scratch)@.sized(*d),
        w.moe.fits(*d, d.hidden_dim as int, d.shared_inter as int),
        actual_k <= expert_data_for_slot@.len(),
        actual_k <= expert_weights@.len(),
        forall|i: int|
            0 <= i < actual_k ==> (#[trigger] expert_data_for_slot@[i] matches Some(data)
                ==> parts.fits(
                data@.len() as int,
                d.hidden_dim as int,
                d.hidden_dim as int,
                d.moe_inter as int,
                d.group_size as int,
            )),
    ensures
        (final(hidden)@, final(scratch)@) == second_half(
            *d,
            *w,
            *parts,
            blob_views(expert_data_for_slot@),
            expert_weights@,
            actual_k as int,
            *shared_gate_score,
            old(hidden)@,
            old(scratch)@,
        ),
{
    let hd: usize = d.hidden_dim;
    let ghost s0 = scratch@;
    fill_zero(scratch.moe_out.as_mut_slice(), hd);
    let ghost cleared = scratch.moe_out@;
    for k in 0..actual_k
        invariant
            hd == d.hidden_dim,
            actual_k <= expert_data_for_slot@.len(),
            actual_k <= expert_weights@.len(),
            forall|i: int|
                0 <= i < actual_k ==> (#[trigger] expert_data_for_slot@[i] matches Some(data)
                    ==> parts.fits(
                    data@.len() as int,
                    d.hidden_dim as int,
                    d.hidden_dim as int,
                    d.moe_inter as int,
                    d.group_size as int,
                )),
            s0.sized(*d),
            cleared.len() == hd,
            scratch.moe_out@.len() == hd,
            scratch.expert_tmp@.len() == hd,
            scratch@ == (ScratchView {
                moe_out: scratch.moe_out@,
                expert_tmp: scratch.expert_tmp@,
                ..s0
            }),
            (scratch.moe_out@, scratch.expert_tmp@) == experts_summed(
                *d,
                *parts,
                blob_views(expert_data_for_slot@),
                expert_weights@,
                s0.h_post,
                cleared,
                s0.expert_tmp,
                k as int,
            ),
    {
        match &expert_data_for_slot[k] {
            Some(data) => {
                step_cpu_expert(
                    d,
                    parts,
                    data.as_slice(),
                    scratch.h_post.as_slice(),
                    scratch.expert_tmp.as_mut_slice(),
                );
                vec_madd(
                    scratch.moe_out.as_mut_slice(),
                    scratch.expert_tmp.as_slice(),
                    &expert_weights[k],
                    hd,
                );
            },
            None => {},
        }
    }
    fill_zero(scratch.shared_out.as_mut_slice(), hd);
    step_shared_expert(
        d,
        &w.moe,
        scratch.h_post.as_slice(),
        &sigmoid(shared_gate_score),
        scratch.shared_out.as_mut_slice(),
    );
    step_final_combine(
        scratch.h_mid.as_slice(),
        scratch.moe_out.as_slice(),
        scratch.shared_out.as_slice(),
        hidden,
        hd,
    );
}

/// A whole layer, with the bytes and weights of the experts given beforehand.
pub fn cpu_layer_forward_decomposed<S: Scalar>(
    d: &LayerDims,
    w: &LayerWeights,
    parts: &ExpertParts,
    state: &mut LayerState<S>,
    cos: &[S],
    sin: &[S],
    eps: &S,
    expert_data_for_slot: &Vec<Option<Vec<u8>>>,
    expert_weights: &[S],
    actual_k: usize,
    hidden: &mut [S],
    scratch: &mut CpuForwardScratch<S>,
)
    requires
        0 < d.experts_per_tok,
        old(hidden)@.len() == d.hidden_dim,
        layer_fits(*d, *w, old(scratch)@, old(state)@),
        old(state)@ is Full ==> pair_count(d.rotary_dim as int) <= cos@.len(),
        old(state)@ is Full ==> pair_count(d.rotary_dim as int) <= sin@.len(),
        actual_k <= expert_data_for_slot@.len(),
        actual_k <= expert_weights@.len(),
        forall|i: int|
            0 <= i < actual_k ==> (#[trigger] expert_data_for_slot@[i] matches Some(data)
                ==> parts.fits(
                data@.len() as int,
                d.hidden_dim as int,
                d.hidden_dim as int,
                d.moe_inter as int,
                d.group_size as int,
            )),
    ensures
        ({
            let half = first_half(
                *d,
                *w,
                old(hidden)@,
                old(scratch)@,
                old(state)@,
                cos@,
                sin@,
                *eps,
            );
            &&& final(state)@ == half.state
            &&& (final(hidden)@, final(scratch)@) == second_half(
                *d,
                *w,
                *parts,
                blob_views(expert_data_for_slot@),
                expert_weights@,
                actual_k as int,
                shared_score(*d, w.moe.shared_expert_gate, half.scratch.h_post),
                half.hidden,
                half.scratch,
            )
        }),
{
    let routing: RoutingResult<S> = cpu_layer_route(d, w, hidden, state, cos, sin, eps, scratch);
    cpu_layer_finish(
        d,
        w,
        parts,
        expert_data_for_slot,
        expert_weights,
        actual_k,
        &routing.shared_gate_score,
        hidden,
        scratch,
    );
}

/// The bytes of the chosen experts, as many as there are slots; none without a file.
pub open spec fn slot_bytes(file: Option<Seq<u8>>, indices: Seq<usize>, size: int) -> Seq<
    Option<Seq<u8>>,
> {
    let k = if indices.len() <= MAX_K {
        indices.len() as int
    } else {
        MAX_K as int
    };
    match file {
        Some(f) => chosen_bytes(f, indices.take(k), size),
        None => Seq::empty(),
    }
}

/// A whole layer: attention, routing, the chosen experts as far as their file holds them, the
/// shared expert.
pub fn cpu_layer_forward<S: Scalar>(
    d: &LayerDims,
    w: &LayerWeights,
    parts: &ExpertParts,
    file: Option<&[u8]>,
    expert_size: usize,
    state: &mut LayerState<S>,
    cos: &[S],
    sin: &[S],
    eps: &S,
    hidden: &mut [S],
    scratch: &mut CpuForwardScratch<S>,
)
    requires
        0 < d.experts_per_tok,
        old(hidden)@.len() == d.hidden_dim,
        layer_fits(*d, *w, old(scratch)@, old(state)@),
        old(state)@ is Full ==> pair_count(d.rotary_dim as int) <= cos@.len(),
        old(state)@ is Full ==> pair_count(d.rotary_dim as int) <= sin@.len(),
        file is Some ==> parts.fits(
            expert_size as int,
            d.hidden_dim as int,
            d.hidden_dim as int,
            d.moe_inter as int,
            d.group_size as int,
        ),
    ensures
        ({
            let cleared = ScratchView {
                gate_scores: zero_seq(d.num_experts as int),
                ..old(scratch)@
            };
            let half = first_half(
                *d,
                *w,
                old(hidden)@,
                cleared,
                old(state)@,
                cos@,
                sin@,
                *eps,
            );
            let chosen = best(
                half.scratch.gate_scores.take(d.num_experts as int),
                d.experts_per_tok,
            );
            let blobs = slot_bytes(
                match file {
                    Some(f) => Some(f@),
                    None => None,
                },
                chosen.indices,
                expert_size as int,
            );
            &&& final(state)@ == half.state
            &&& (final(hidden)@, final(scratch)@) == second_half(
                *d,
                *w,
                *parts,
                blobs,
                normalized(of_bits::<S>(chosen.values)),
                blobs.len() as int,
                shared_score(*d, w.moe.shared_expert_gate, half.scratch.h_post),
                half.hidden,
                half.scratch,
            )
        }),
{
    let ghost s0 = scratch@;
    fill_zero(scratch.gate_scores.as_mut_slice(), d.num_experts);
    proof {
        assert(scratch.gate_scores@ =~= zero_seq::<S>(d.num_experts as int));
        assert(scratch@ == (ScratchView { gate_scores: zero_seq(d.num_experts as int), ..s0 }));
        match old(state)@ {
            LayerStateView::Full { k, v, len } => {
                assert(full_operands(scratch@, k, v, len) == full_operands(s0, k, v, len));
            },
            LayerStateView::Linear { conv, ssm } => {
                assert(linear_operands(scratch@, conv, ssm) == linear_operands(s0, conv, ssm));
            },
        }
    }
    let routing: RoutingResult<S> = cpu_layer_route(d, w, hidden, state, cos, sin, eps, scratch);
    let actual_k: usize = if routing.expert_indices.len() <= MAX_K {
        routing.expert_indices.len()
    } else {
        MAX_K
    };
    let mut blobs: Vec<Option<Vec<u8>>> = Vec::new();
    if let Some(f) = file {
        for i in 0..actual_k
            invariant
                actual_k <= routing.expert_indices@.len(),
                blobs@.len() == i,
                forall|j: int|
                    0 <= j < i ==> match #[trigger] blobs@[j] {
                        Some(v) => expert_bytes_in(
                            f@,
                            routing.expert_indices@[j] as int,
                            expert_size as int,
                        ) == Some(v@) && v@.len() == expert_size,
                        None => expert_bytes_in(
                            f@,
                            routing.expert_indices@[j] as int,
                            expert_size as int,
                        ) is None,
                    },
        {
            blobs.push(expert_blob(f, routing.expert_indices[i], expert_size));
        }
        proof {
            let want = chosen_bytes(
                f@,
                routing.expert_indices@.take(actual_k as int),
                expert_size as int,
            );
            assert forall|j: int| 0 <= j < actual_k implies blob_views(blobs@)[j] == want[j] by {
                assert(match blobs@[j] {
                    Some(v) => true,
                    None => true,
                });
            }
            assert(blob_views(blobs@) =~= want);
        }
    } else {
        assert(blob_views(blobs@) =~= Seq::empty());
    }
    let count: usize = blobs.len();
    cpu_layer_finish(
        d,
        w,
        parts,
        &blobs,
        routing.expert_weights.as_slice(),
        count,
        &routing.shared_gate_score,
        hidden,
        scratch,
    );
}

/// The file offsets of the chosen experts, as many as there are slots.
pub open spec fn expert_offsets(indices: Seq<usize>, expert_size: int) -> Seq<int> {
    let k = if indices.len() <= MAX_K {
        indices.len() as int
    } else {
        MAX_K as int
    };
    Seq::new(k as nat, |i: int| indices[i] * expert_size)
}

/// Where to read the chosen experts from.
pub fn plan_expert_reads(indices: &Vec<usize>, expert_size: usize) -> (r: Vec<u64>)
    requires
        forall|i: int|
            0 <= i < indices@.len() ==> #[trigger] indices@[i] * expert_size <= usize::MAX,
    ensures
        r@.len() == expert_offsets(indices@, expert_size as int).len(),
        forall|i: int|
            0 <= i < r@.len() ==> #[trigger] r@[i] == expert_offsets(
                indices@,
                expert_size as int,
            )[i],
{
    let k: usize = if indices.len() <= MAX_K {
        indices.len()
    } else {
        MAX_K
    };
    let mut v: Vec<u64> = Vec::new();
    for i in 0..k
        invariant
            k <= indices@.len(),
            forall|j: int|
                0 <= j < indices@.len() ==> #[trigger] indices@[j] * expert_size <= usize::MAX,
            v@.len() == i,
            forall|j: int| 0 <= j < i ==> #[trigger] v@[j] == indices@[j] * expert_size,
    {
        let at: usize = indices[i] * expert_size;
        v.push(at as u64);
    }
    v
}

/// The first half of a layer, number by number. Attention, of the kind that the layer's state
/// is for, works on the normed hidden state, and what it projects back is added to the hidden
/// state as it was before the norm. The sum is kept for the second half; it is normed with the
/// weights behind attention, and the router scores that.
pub proof fn law_first_half<S: Scalar>(
    d: LayerDims,
    w: LayerWeights,
    hidden: Seq<S>,
    s: ScratchView<S>,
    state: LayerStateView<S>,
    cos: Seq<S>,
    sin: Seq<S>,
    eps: S,
    i: int,
)
    requires
        s.sized(d),
        hidden.len() == d.hidden_dim,
        0 <= i < d.hidden_dim,
    ensures
        ({
            let x = input_normed(hidden, w.input_norm, s.normed, d.hidden_dim, eps);
            let half = first_half(d, w, hidden, s, state, cos, sin, eps);
            &&& half.hidden.len() == d.hidden_dim
            &&& half.scratch.h_mid == half.hidden
            &&& half.scratch.h_post == input_normed(
                half.hidden,
                w.post_attn_norm,
                s.h_post,
                d.hidden_dim,
                eps,
            )
            &&& half.scratch.gate_scores == router_scores(
                d,
                w.moe.gate,
                half.scratch.h_post,
                s.gate_scores,
            )
            &&& match state {
                LayerStateView::Full { k, v, len } => {
                    let r = full_operands(s, k, v, len).step(d, w.attn, x, cos, sin, eps);
                    &&& half.hidden[i] == hidden[i].s_plus(r.attn_proj[i])
                    &&& half.state == LayerStateView::<S>::Full {
                        k: r.k_cache,
                        v: r.v_cache,
                        len: len + 1,
                    }
                },
                LayerStateView::Linear { conv, ssm } => {
                    let r = linear_operands(s, conv, ssm).step(d, w.linear, x, eps);
                    &&& half.hidden[i] == hidden[i].s_plus(r.attn_proj[i])
                    &&& half.state == LayerStateView::<S>::Linear {
                        conv: r.conv_state,
                        ssm: r.ssm_state,
                    }
                },
            }
        }),
{
    assert(overwrite(s.residual, 0, hidden) =~= hidden);
    let half = first_half(d, w, hidden, s, state, cos, sin, eps);
    assert(overwrite(s.h_mid, 0, half.hidden) =~= half.hidden);
}

/// The second half of a layer, number by number: what the first half kept, plus what the routed
/// experts add up to, plus the shared expert's output times the logistic function of its score.
pub proof fn law_second_half<S: Scalar>(
    d: LayerDims,
    w: LayerWeights,
    parts: ExpertParts,
    blobs: Seq<Option<Seq<u8>>>,
    weights: Seq<S>,
    k: int,
    score: S,
    hidden: Seq<S>,
    s: ScratchView<S>,
    i: int,
)
    requires
        0 < d.group_size,
        d.group_size % 8 == 0,
        s.sized(d),
        hidden.len() == d.hidden_dim,
        0 <= k,
        0 <= i < d.hidden_dim,
        0 < d.shared_inter,
    ensures
        ({
            let r = second_half(d, w, parts, blobs, weights, k, score, hidden, s);
            let experts = expert_sum(d, parts, blobs, weights, s.h_post, zero(), k, i);
            let shared = row_of(
                w.moe.shared_down,
                shared_activation(d, w.moe, s.h_post),
                d.shared_inter as int,
                d.group_size as int,
                i,
            );
            let gate = one::<S>().s_over(one::<S>().s_plus(score.s_neg().s_exp()));
            &&& r.0.len() == d.hidden_dim
            &&& r.0[i] == s.h_mid[i].s_plus(experts).s_plus(shared.s_times(gate))
        }),
{
    let hd = d.hidden_dim as int;
    let cleared = overwrite(s.moe_out, 0, zero_seq::<S>(hd));
    law_experts_summed(d, parts, blobs, weights, s.h_post, cleared, s.expert_tmp, k, i);
    law_shared_expert(
        d,
        w.moe,
        s.h_post,
        sigmoid_value(score),
        overwrite(s.shared_out, 0, zero_seq::<S>(hd)),
        0,
        i,
    );
}

/// The bytes of the experts of a layer lie at their own places in the layer's file: that of slot
/// `j` starts at `indices[j]` times the size of an expert.
pub proof fn law_expert_offsets(indices: Seq<usize>, expert_size: int, j: int)
    requires
        0 <= j < indices.len(),
        j < 8,
    ensures
        expert_offsets(indices, expert_size)[j] == indices[j] * expert_size,
        expert_offsets(indices, expert_size).len() == (if indices.len() <= 8 {
            indices.len() as int
        } else {
            8
        }),
{
}

/// The bytes of a layer's experts: those of the chosen experts in order, eight at most, each the
/// bytes that the file has at the expert's place, or none where the file does not hold it whole.
/// Without a file there are none.
pub proof fn law_slot_bytes(file: Seq<u8>, indices: Seq<usize>, size: int, slot: int, i: int)
    requires
        0 <= slot < indices.len(),
        slot < 8,
        0 <= i < size,
    ensures
        ({
            let r = slot_bytes(Some(file), indices, size);
            let e = indices[slot] as int;
            &&& r.len() <= indices.len()
            &&& r.len() <= 8
            &&& r.len() == indices.len() || r.len() == 8
            &&& (r[slot] is Some) == (e * size + size <= file.len())
            &&& r[slot] matches Some(data) ==> data.len() == size && data[i] == file[e * size + i]
            &&& slot_bytes(None, indices, size).len() == 0
        }),
{
    let k = if indices.len() <= 8 {
        indices.len() as int
    } else {
        8
    };
    law_expert_bytes(file, indices.take(k), size, slot, i);
}

} // verus!
