//! Routing and the experts on the device, as command lists.

use vstd::prelude::*;

use crate::command::{at, whole, Command, Pipeline, Tensor};
use crate::constants::{ExpertLayout, GROUP_SIZE, MAX_K, RMS_NORM_EPS_BITS};
use crate::full_attention::FullAttnCmd2State;
use crate::kernels::{
    after_buffer, after_close, after_commit, after_dispatch, after_f32, after_finish, after_matvec,
    after_open, after_pipeline, after_project, after_residual_add, after_rms_norm_bf16,
    after_swiglu, after_u32, commit, dispatch, encode_matvec_offset, encode_project,
    encode_residual_add, encode_rms_norm_bf16, encode_swiglu, end_encoding, finish, group_count,
    groups_for, open_encoder, set_buffer, set_f32, set_pipeline, set_u32,
};
use crate::linear_program::{
    after_in_proj, conv_command, decay_command, delta_command, encode_in_proj, gated_norm_command,
    linear_args_fit, push_conv, push_decay, push_delta, push_gated_norm, push_qk_norm,
    qk_norm_command, LinearBuffers, LinearOffsets,
};
use crate::scalar::{zero, zero_vec, Scalar};
use crate::weights::LayerDims;

verus! {

/// Kernels that a device may lack.
#[derive(Clone, Copy, Debug, PartialEq, Eq, Structural)]
pub struct RouterSupport {
    pub attn_scores_batched: bool,
    pub attn_softmax_batched: bool,
    pub attn_values_batched: bool,
    pub sigmoid_gate: bool,
    pub residual_add: bool,
    pub rms_norm_apply_bf16: bool,
}

/// Where the router and the shared expert's projections are computed.
#[derive(Clone, Copy, Debug, PartialEq, Eq, Structural)]
pub enum RouterPath {
    /// Behind deferred full attention, in one command buffer.
    FusedFull,
    /// Behind deferred linear attention, in one command buffer.
    FusedLinear,
    /// Projections alone on the device.
    Device,
    Cpu,
}

impl RouterSupport {
    /// Where routing is computed.
    pub open spec fn path(self, use_gpu: bool, full_deferred: bool, linear_deferred: bool) -> RouterPath {
        if full_deferred && use_gpu && self.attn_scores_batched && self.attn_softmax_batched
            && self.attn_values_batched && self.sigmoid_gate && self.residual_add
            && self.rms_norm_apply_bf16 {
            RouterPath::FusedFull
        } else if linear_deferred && use_gpu && self.residual_add && self.rms_norm_apply_bf16 {
            RouterPath::FusedLinear
        } else if use_gpu {
            RouterPath::Device
        } else {
            RouterPath::Cpu
        }
    }

    /// Decide where routing is computed: behind attention that was left to the device if all
    /// kernels for it exist, else on the device if there is one, else on the CPU.
    pub fn choose_path(&self, use_gpu: bool, full_deferred: bool, linear_deferred: bool) -> (r:
        RouterPath)
        ensures
            r == self.path(use_gpu, full_deferred, linear_deferred),
    {
        if full_deferred && use_gpu && self.attn_scores_batched && self.attn_softmax_batched
            && self.attn_values_batched && self.sigmoid_gate && self.residual_add
            && self.rms_norm_apply_bf16 {
            RouterPath::FusedFull
        } else if linear_deferred && use_gpu && self.residual_add && self.rms_norm_apply_bf16 {
            RouterPath::FusedLinear
        } else if use_gpu {
            RouterPath::Device
        } else {
            RouterPath::Cpu
        }
    }
}

/// Buffers of the routing step.
#[derive(Clone, Copy, Debug)]
pub struct RouterBuffers<B> {
    /// Output of the attention's back projection.
    pub o_proj: B,
    /// The hidden state behind attention.
    pub temp: B,
    pub sum_sq: B,
    /// The hidden state behind the norm.
    pub normed: B,
    pub gate_scores: B,
    pub shared_gate: B,
    pub shared_up: B,
    pub shared_score: B,
    /// The weight file.
    pub weights: B,
}

/// The sizes of a layer fit into the arguments of the routing and expert kernels.
pub open spec fn moe_args_fit(d: LayerDims) -> bool {
    &&& d.hidden_dim + 255 <= u32::MAX
    &&& d.moe_inter + 255 <= u32::MAX
    &&& d.shared_inter + 255 <= u32::MAX
}

/// The grids of deferred attention fit into 32 bits.
pub open spec fn attn_args_fit<B>(a: FullAttnCmd2State<B>) -> bool {
    &&& a.num_attn_heads * a.seq_len <= u32::MAX
    &&& a.num_attn_heads * a.head_dim + 255 <= u32::MAX
    &&& a.q_dim + 255 <= u32::MAX
}

/// The recording of batched attention: scores, softmax, values, gate.
pub open spec fn after_attention<B>(s: Seq<Command<B>>, a: FullAttnCmd2State<B>) -> Seq<
    Command<B>,
> {
    let s = after_pipeline(s, Pipeline::AttnScoresBatched);
    let s = after_buffer(s, 0, whole(a.q_buf));
    let s = after_buffer(s, 1, whole(a.kc_buf));
    let s = after_buffer(s, 2, whole(a.scores_buf));
    let s = after_u32(s, 3, a.head_dim);
    let s = after_u32(s, 4, a.kv_dim);
    let s = after_u32(s, 5, a.seq_len);
    let s = after_u32(s, 6, a.seq_stride);
    let s = after_f32(s, 7, a.scale);
    let s = after_u32(s, 8, a.heads_per_kv);
    let s = after_u32(s, 9, a.seq_len);
    let s = after_dispatch(s, a.num_attn_heads * a.seq_len, 256);
    let s = after_pipeline(s, Pipeline::AttnSoftmaxBatched);
    let s = after_buffer(s, 0, whole(a.scores_buf));
    let s = after_u32(s, 1, a.seq_len);
    let s = after_u32(s, 2, a.seq_stride);
    let s = after_dispatch(s, a.num_attn_heads as int, 256);
    let s = after_pipeline(s, Pipeline::AttnValuesBatched);
    let s = after_buffer(s, 0, whole(a.scores_buf));
    let s = after_buffer(s, 1, whole(a.vc_buf));
    let s = after_buffer(s, 2, whole(a.out_buf));
    let s = after_u32(s, 3, a.head_dim);
    let s = after_u32(s, 4, a.kv_dim);
    let s = after_u32(s, 5, a.seq_len);
    let s = after_u32(s, 6, a.seq_stride);
    let s = after_u32(s, 7, a.heads_per_kv);
    let s = after_dispatch(s, groups_for(a.num_attn_heads * a.head_dim, 256), 256);
    let s = after_pipeline(s, Pipeline::SigmoidGate);
    let s = after_buffer(s, 0, whole(a.out_buf));
    let s = after_buffer(s, 1, whole(a.q_gate_buf));
    let s = after_u32(s, 2, a.q_dim);
    after_dispatch(s, groups_for(a.q_dim as int, 256), 256)
}

/// Record batched attention into an open encoder.
pub fn encode_attention<B: Copy>(enc: &mut Vec<Command<B>>, a: &FullAttnCmd2State<B>)
    requires
        attn_args_fit(*a),
    ensures
        final(enc)@ == after_attention(old(enc)@, *a),
{
    set_pipeline(enc, Pipeline::AttnScoresBatched);
    set_buffer(enc, 0, whole(a.q_buf));
    set_buffer(enc, 1, whole(a.kc_buf));
    set_buffer(enc, 2, whole(a.scores_buf));
    set_u32(enc, 3, a.head_dim);
    set_u32(enc, 4, a.kv_dim);
    set_u32(enc, 5, a.seq_len);
    set_u32(enc, 6, a.seq_stride);
    set_f32(enc, 7, a.scale);
    set_u32(enc, 8, a.heads_per_kv);
    set_u32(enc, 9, a.seq_len);
    dispatch(enc, (a.num_attn_heads * a.seq_len) as u64, 256);
    set_pipeline(enc, Pipeline::AttnSoftmaxBatched);
    set_buffer(enc, 0, whole(a.scores_buf));
    set_u32(enc, 1, a.seq_len);
    set_u32(enc, 2, a.seq_stride);
    dispatch(enc, a.num_attn_heads as u64, 256);
    set_pipeline(enc, Pipeline::AttnValuesBatched);
    set_buffer(enc, 0, whole(a.scores_buf));
    set_buffer(enc, 1, whole(a.vc_buf));
    set_buffer(enc, 2, whole(a.out_buf));
    set_u32(enc, 3, a.head_dim);
    set_u32(enc, 4, a.kv_dim);
    set_u32(enc, 5, a.seq_len);
    set_u32(enc, 6, a.seq_stride);
    set_u32(enc, 7, a.heads_per_kv);
    let value_tgs: u64 = group_count(a.num_attn_heads * a.head_dim, 256);
    dispatch(enc, value_tgs, 256);
    set_pipeline(enc, Pipeline::SigmoidGate);
    set_buffer(enc, 0, whole(a.out_buf));
    set_buffer(enc, 1, whole(a.q_gate_buf));
    set_u32(enc, 2, a.q_dim);
    let gate_tgs: u64 = group_count(a.q_dim, 256);
    dispatch(enc, gate_tgs, 256);
}

/// The recording of the four projections of the routing step.
pub open spec fn after_router<B>(
    s: Seq<Command<B>>,
    d: LayerDims,
    layer: usize,
    x: B,
    b: RouterBuffers<B>,
) -> Seq<Command<B>> {
    let hd = d.hidden_dim;
    let s = after_project(s, Tensor::RouterGate(layer), x, b.gate_scores, d.num_experts, hd);
    let s = after_project(s, Tensor::SharedGateProj(layer), x, b.shared_gate, d.shared_inter, hd);
    let s = after_project(s, Tensor::SharedUpProj(layer), x, b.shared_up, d.shared_inter, hd);
    after_project(s, Tensor::SharedExpertGate(layer), x, b.shared_score, 1, hd)
}

fn encode_router<B: Copy>(
    enc: &mut Vec<Command<B>>,
    d: &LayerDims,
    layer: usize,
    x: B,
    b: &RouterBuffers<B>,
)
    ensures
        final(enc)@ == after_router(old(enc)@, *d, layer, x, *b),
{
    let hd: usize = d.hidden_dim;
    encode_project(enc, Tensor::RouterGate(layer), x, b.gate_scores, d.num_experts, hd);
    encode_project(enc, Tensor::SharedGateProj(layer), x, b.shared_gate, d.shared_inter, hd);
    encode_project(enc, Tensor::SharedUpProj(layer), x, b.shared_up, d.shared_inter, hd);
    encode_project(enc, Tensor::SharedExpertGate(layer), x, b.shared_score, 1, hd);
}

/// The recording of the way from attention to routing: back projection, residual, norm, the
/// four projections.
pub open spec fn after_back_projection<B>(
    s: Seq<Command<B>>,
    d: LayerDims,
    layer: usize,
    back: Tensor,
    attn_out: B,
    attn_dim: usize,
    residual: B,
    post_norm: u64,
    b: RouterBuffers<B>,
) -> Seq<Command<B>> {
    let hd = d.hidden_dim as u32;
    let s = after_project(s, back, attn_out, b.o_proj, d.hidden_dim, attn_dim);
    let s = after_residual_add(s, b.o_proj, residual, b.temp, hd);
    let s = after_rms_norm_bf16(
        s,
        b.temp,
        at(b.weights, post_norm),
        b.sum_sq,
        b.normed,
        hd,
        RMS_NORM_EPS_BITS,
    );
    after_router(s, d, layer, b.normed, b)
}

fn encode_back_projection<B: Copy>(
    enc: &mut Vec<Command<B>>,
    d: &LayerDims,
    layer: usize,
    back: Tensor,
    attn_out: B,
    attn_dim: usize,
    residual: B,
    post_norm: u64,
    b: &RouterBuffers<B>,
)
    requires
        moe_args_fit(*d),
    ensures
        final(enc)@ == after_back_projection(
            old(enc)@,
            *d,
            layer,
            back,
            attn_out,
            attn_dim,
            residual,
            post_norm,
            *b,
        ),
{
    let hd: u32 = d.hidden_dim as u32;
    encode_project(enc, back, attn_out, b.o_proj, d.hidden_dim, attn_dim);
    encode_residual_add(enc, b.o_proj, residual, b.temp, hd);
    encode_rms_norm_bf16(
        enc,
        b.temp,
        at(b.weights, post_norm),
        b.sum_sq,
        b.normed,
        hd,
        RMS_NORM_EPS_BITS,
    );
    encode_router(enc, d, layer, b.normed, b);
}

/// Deferred full attention and routing in one command buffer.
pub open spec fn full_router_commands<B>(
    d: LayerDims,
    layer: usize,
    a: FullAttnCmd2State<B>,
    post_norm: u64,
    b: RouterBuffers<B>,
) -> Seq<Command<B>> {
    let s = after_attention(after_open(Seq::empty()), a);
    after_finish(
        after_back_projection(
            s,
            d,
            layer,
            a.o_proj,
            a.out_buf,
            a.q_dim as usize,
            a.hidden_buf,
            post_norm,
            b,
        ),
    )
}

/// Deferred full attention and routing in one command buffer; `post_norm` is the offset of
/// the norm's weights. Afterwards `b.normed` holds the experts' input, and `b.temp` the
/// residual that the experts' sum is added to.
pub fn full_router_program<B: Copy>(
    d: &LayerDims,
    layer: usize,
    a: &FullAttnCmd2State<B>,
    post_norm: u64,
    b: &RouterBuffers<B>,
) -> (r: Vec<Command<B>>)
    requires
        moe_args_fit(*d),
        attn_args_fit(*a),
    ensures
        r@ == full_router_commands(*d, layer, *a, post_norm, *b),
{
    let mut enc: Vec<Command<B>> = Vec::new();
    open_encoder(&mut enc);
    encode_attention(&mut enc, a);
    encode_back_projection(
        &mut enc,
        d,
        layer,
        a.o_proj,
        a.out_buf,
        a.q_dim as usize,
        a.hidden_buf,
        post_norm,
        b,
    );
    finish(&mut enc);
    enc
}

/// The back projection of linear attention and routing in one command buffer.
pub open spec fn linear_router_commands<B>(
    d: LayerDims,
    layer: usize,
    gated: B,
    residual: B,
    post_norm: u64,
    b: RouterBuffers<B>,
) -> Seq<Command<B>> {
    after_finish(
        after_back_projection(
            after_open(Seq::empty()),
            d,
            layer,
            Tensor::OutProj(layer),
            gated,
            d.total_value,
            residual,
            post_norm,
            b,
        ),
    )
}

/// The back projection of linear attention and routing in one command buffer; `gated` holds
/// the gated value heads, `residual` the hidden state in front of attention.
pub fn linear_router_program<B: Copy>(
    d: &LayerDims,
    layer: usize,
    gated: B,
    residual: B,
    post_norm: u64,
    b: &RouterBuffers<B>,
) -> (r: Vec<Command<B>>)
    requires
        moe_args_fit(*d),
    ensures
        r@ == linear_router_commands(*d, layer, gated, residual, post_norm, *b),
{
    let mut enc: Vec<Command<B>> = Vec::new();
    open_encoder(&mut enc);
    encode_back_projection(
        &mut enc,
        d,
        layer,
        Tensor::OutProj(layer),
        gated,
        d.total_value,
        residual,
        post_norm,
        b,
    );
    finish(&mut enc);
    enc
}

/// The four projections of the routing step as a command list of their own; `x` holds the
/// normed hidden state.
pub fn router_program<B: Copy>(d: &LayerDims, layer: usize, x: B, b: &RouterBuffers<B>) -> (r: Vec<
    Command<B>,
>)
    ensures
        r@ == after_finish(after_router(after_open(Seq::empty()), *d, layer, x, *b)),
{
    let mut enc: Vec<Command<B>> = Vec::new();
    open_encoder(&mut enc);
    encode_router(&mut enc, d, layer, x, b);
    finish(&mut enc);
    enc
}

/// Buffers of the experts' step.
pub struct ExpertBuffers<B> {
    /// The experts' input.
    pub x: B,
    /// Packed weights of the expert in each slot.
    pub data: Vec<B>,
    /// Output of the expert in each slot.
    pub out: Vec<B>,
    pub gate: B,
    pub up: B,
    pub act: B,
    /// The shared expert's gate and up projections, where they are on the device.
    pub shared_gate: Option<B>,
    pub shared_up: Option<B>,
    pub shared_act: B,
    pub shared_down: B,
    /// The residual that the sum is added to.
    pub h_mid: B,
    /// The layer's output.
    pub moe_hidden: B,
    /// Weights of the sum.
    pub params: B,
    pub sum_sq: B,
    /// The next layer's normed input.
    pub next_input: B,
    /// The weight file.
    pub weights: B,
}

impl<B> ExpertBuffers<B> {
    /// There is a buffer for each of `k` slots.
    pub open spec fn has_slots(self, k: int) -> bool {
        self.data@.len() >= k && self.out@.len() >= k
    }
}

/// The recording of one expert: gate and up projection, activation, down projection.
pub open spec fn after_expert<B>(
    s: Seq<Command<B>>,
    has_vec4: bool,
    d: LayerDims,
    l: ExpertLayout,
    b: ExpertBuffers<B>,
    slot: int,
) -> Seq<Command<B>> {
    let hd = d.hidden_dim as u32;
    let mi = d.moe_inter as u32;
    let gs = GROUP_SIZE as u32;
    let e = b.data@[slot];
    let s = after_matvec(
        s,
        at(e, l.gate_w_off as u64),
        at(e, l.gate_s_off as u64),
        at(e, l.gate_b_off as u64),
        whole(b.x),
        whole(b.gate),
        mi,
        hd,
        gs,
        3,
    );
    let s = after_matvec(
        s,
        at(e, l.up_w_off as u64),
        at(e, l.up_s_off as u64),
        at(e, l.up_b_off as u64),
        whole(b.x),
        whole(b.up),
        mi,
        hd,
        gs,
        3,
    );
    let s = after_swiglu(s, has_vec4, whole(b.gate), whole(b.up), whole(b.act), mi);
    after_matvec(
        s,
        at(e, l.down_w_off as u64),
        at(e, l.down_s_off as u64),
        at(e, l.down_b_off as u64),
        whole(b.act),
        whole(b.out@[slot]),
        hd,
        mi,
        gs,
        3,
    )
}

fn encode_expert<B: Copy>(
    enc: &mut Vec<Command<B>>,
    has_vec4: bool,
    d: &LayerDims,
    l: &ExpertLayout,
    b: &ExpertBuffers<B>,
    slot: usize,
)
    requires
        moe_args_fit(*d),
        b.has_slots(slot + 1),
    ensures
        final(enc)@ == after_expert(old(enc)@, has_vec4, *d, *l, *b, slot as int),
{
    let hd: u32 = d.hidden_dim as u32;
    let mi: u32 = d.moe_inter as u32;
    let gs: u32 = GROUP_SIZE as u32;
    let e = b.data[slot];
    encode_matvec_offset(
        enc,
        at(e, l.gate_w_off as u64),
        at(e, l.gate_s_off as u64),
        at(e, l.gate_b_off as u64),
        whole(b.x),
        whole(b.gate),
        mi,
        hd,
        gs,
        3,
    );
    encode_matvec_offset(
        enc,
        at(e, l.up_w_off as u64),
        at(e, l.up_s_off as u64),
        at(e, l.up_b_off as u64),
        whole(b.x),
        whole(b.up),
        mi,
        hd,
        gs,
        3,
    );
    encode_swiglu(enc, has_vec4, whole(b.gate), whole(b.up), whole(b.act), mi);
    encode_matvec_offset(
        enc,
        at(e, l.down_w_off as u64),
        at(e, l.down_s_off as u64),
        at(e, l.down_b_off as u64),
        whole(b.act),
        whole(b.out[slot]),
        hd,
        mi,
        gs,
        3,
    );
}

/// The recording of the experts of the first `k` slots, without those that are not there.
pub open spec fn after_experts<B>(
    s: Seq<Command<B>>,
    has_vec4: bool,
    d: LayerDims,
    l: ExpertLayout,
    b: ExpertBuffers<B>,
    present: Seq<bool>,
    k: int,
) -> Seq<Command<B>>
    decreases k,
{
    if k <= 0 {
        s
    } else {
        let t = after_experts(s, has_vec4, d, l, b, present, k - 1);
        if present[k - 1] {
            after_expert(t, has_vec4, d, l, b, k - 1)
        } else {
            t
        }
    }
}

fn encode_experts<B: Copy>(
    enc: &mut Vec<Command<B>>,
    has_vec4: bool,
    d: &LayerDims,
    l: &ExpertLayout,
    b: &ExpertBuffers<B>,
    present: &[bool],
    k: usize,
)
    requires
        moe_args_fit(*d),
        b.has_slots(k as int),
        k <= present@.len(),
    ensures
        final(enc)@ == after_experts(old(enc)@, has_vec4, *d, *l, *b, present@, k as int),
{
    for ki in 0..k
        invariant
            moe_args_fit(*d),
            b.has_slots(k as int),
            k <= present@.len(),
            enc@ == after_experts(old(enc)@, has_vec4, *d, *l, *b, present@, ki as int),
    {
        if present[ki] {
            encode_expert(enc, has_vec4, d, l, b, ki);
        }
    }
}

/// The recording of the shared expert: activation of its projections, down projection.
pub open spec fn after_shared<B>(
    s: Seq<Command<B>>,
    has_vec4: bool,
    d: LayerDims,
    layer: usize,
    b: ExpertBuffers<B>,
) -> Seq<Command<B>> {
    let s = match (b.shared_gate, b.shared_up) {
        (Some(g), Some(u)) => after_swiglu(
            s,
            has_vec4,
            whole(g),
            whole(u),
            whole(b.shared_act),
            d.shared_inter as u32,
        ),
        _ => s,
    };
    after_project(
        s,
        Tensor::SharedDownProj(layer),
        b.shared_act,
        b.shared_down,
        d.hidden_dim,
        d.shared_inter,
    )
}

fn encode_shared<B: Copy>(
    enc: &mut Vec<Command<B>>,
    has_vec4: bool,
    d: &LayerDims,
    layer: usize,
    b: &ExpertBuffers<B>,
)
    requires
        moe_args_fit(*d),
    ensures
        final(enc)@ == after_shared(old(enc)@, has_vec4, *d, layer, *b),
{
    match (b.shared_gate, b.shared_up) {
        (Some(g), Some(u)) => {
            encode_swiglu(
                enc,
                has_vec4,
                whole(g),
                whole(u),
                whole(b.shared_act),
                d.shared_inter as u32,
            );
        },
        _ => {},
    }
    encode_project(
        enc,
        Tensor::SharedDownProj(layer),
        b.shared_act,
        b.shared_down,
        d.hidden_dim,
        d.shared_inter,
    );
}

/// The buffer that the combine kernel gets for a slot: the expert's output, or the layer's
/// output, which it does not read, for a slot without an expert.
pub open spec fn slot_output<B>(b: ExpertBuffers<B>, present: Seq<bool>, k: int, slot: int) -> B {
    if slot < k && present[slot] {
        b.out@[slot]
    } else {
        b.moe_hidden
    }
}

/// The recording of the buffers of the first `n` slots.
pub open spec fn after_slots<B>(
    s: Seq<Command<B>>,
    b: ExpertBuffers<B>,
    present: Seq<bool>,
    k: int,
    n: int,
) -> Seq<Command<B>>
    decreases n,
{
    if n <= 0 {
        s
    } else {
        after_buffer(
            after_slots(s, b, present, k, n - 1),
            3 + (n - 1),
            whole(slot_output(b, present, k, n - 1)),
        )
    }
}

/// The recording of the sum of residual, experts and shared expert.
pub open spec fn after_combine<B>(
    s: Seq<Command<B>>,
    d: LayerDims,
    b: ExpertBuffers<B>,
    present: Seq<bool>,
    k: int,
) -> Seq<Command<B>> {
    let s = after_pipeline(s, Pipeline::MoeCombineResidual);
    let s = after_buffer(s, 0, whole(b.h_mid));
    let s = after_buffer(s, 1, whole(b.shared_down));
    let s = after_buffer(s, 2, whole(b.moe_hidden));
    let s = after_slots(s, b, present, k, MAX_K as int);
    let s = after_buffer(s, 11, whole(b.params));
    let s = after_u32(s, 12, d.hidden_dim as u32);
    let s = after_u32(s, 13, k as u32);
    after_dispatch(s, groups_for(d.hidden_dim as int, 256), 256)
}

fn encode_combine<B: Copy>(
    enc: &mut Vec<Command<B>>,
    d: &LayerDims,
    b: &ExpertBuffers<B>,
    present: &[bool],
    k: usize,
)
    requires
        moe_args_fit(*d),
        b.has_slots(k as int),
        k <= MAX_K,
        k <= present@.len(),
    ensures
        final(enc)@ == after_combine(old(enc)@, *d, *b, present@, k as int),
{
    set_pipeline(enc, Pipeline::MoeCombineResidual);
    set_buffer(enc, 0, whole(b.h_mid));
    set_buffer(enc, 1, whole(b.shared_down));
    set_buffer(enc, 2, whole(b.moe_hidden));
    let ghost s = enc@;
    for ei in 0..MAX_K
        invariant
            b.has_slots(k as int),
            k <= MAX_K,
            k <= present@.len(),
            enc@ == after_slots(s, *b, present@, k as int, ei as int),
    {
        if ei < k && present[ei] {
            set_buffer(enc, 3 + ei as u64, whole(b.out[ei]));
        } else {
            set_buffer(enc, 3 + ei as u64, whole(b.moe_hidden));
        }
    }
    set_buffer(enc, 11, whole(b.params));
    set_u32(enc, 12, d.hidden_dim as u32);
    set_u32(enc, 13, k as u32);
    let tgs: u64 = group_count(d.hidden_dim as u32, 256);
    dispatch(enc, tgs, 256);
}

/// Numbers that the combine kernel reads besides the vectors.
pub const COMBINE_PARAMS: usize = 10;

/// Index of the shared expert's gate score among them.
pub const SHARED_SCORE_PARAM: usize = 8;

/// What the combine kernel reads besides the vectors: the experts' weights, then zeros, with
/// the shared expert's gate score in its place.
pub open spec fn combine_params_spec<S: Scalar>(weights: Seq<S>, shared_score: S) -> Seq<S> {
    Seq::new(
        COMBINE_PARAMS as nat,
        |i: int|
            if i == SHARED_SCORE_PARAM {
                shared_score
            } else if i < weights.len() {
                weights[i]
            } else {
                zero::<S>()
            },
    )
}

/// What the combine kernel reads besides the vectors.
pub fn combine_params<S: Scalar>(weights: &[S], shared_score: &S) -> (r: Vec<S>)
    requires
        weights@.len() <= COMBINE_PARAMS,
    ensures
        r@ == combine_params_spec(weights@, *shared_score),
{
    let mut params: Vec<S> = zero_vec(COMBINE_PARAMS);
    for i in 0..weights.len()
        invariant
            weights@.len() <= COMBINE_PARAMS,
            params@.len() == COMBINE_PARAMS,
            forall|j: int| 0 <= j < i ==> params@[j] == weights@[j],
            forall|j: int| i <= j < COMBINE_PARAMS ==> params@[j] == zero::<S>(),
    {
        let w = weights[i].dup();
        params[i] = w;
    }
    let score = shared_score.dup();
    params[SHARED_SCORE_PARAM] = score;
    assert(params@ =~= combine_params_spec(weights@, *shared_score));
    params
}

/// The recording of the next layer's input norm.
pub open spec fn after_next_norm<B>(
    s: Seq<Command<B>>,
    d: LayerDims,
    b: ExpertBuffers<B>,
    next_norm: Option<u64>,
) -> Seq<Command<B>> {
    match next_norm {
        Some(o) => after_rms_norm_bf16(
            s,
            b.moe_hidden,
            at(b.weights, o),
            b.sum_sq,
            b.next_input,
            d.hidden_dim as u32,
            RMS_NORM_EPS_BITS,
        ),
        None => s,
    }
}

/// The recording of all that follows routing: experts, shared expert, sum, next norm. The
/// experts in `present` are computed; those in `bound` enter the sum.
pub open spec fn after_post_expert<B>(
    s: Seq<Command<B>>,
    has_vec4: bool,
    d: LayerDims,
    l: ExpertLayout,
    layer: usize,
    b: ExpertBuffers<B>,
    present: Seq<bool>,
    bound: Seq<bool>,
    k: int,
    next_norm: Option<u64>,
) -> Seq<Command<B>> {
    let s = after_experts(s, has_vec4, d, l, b, present, k);
    let s = after_shared(s, has_vec4, d, layer, b);
    let s = after_combine(s, d, b, bound, k);
    after_next_norm(s, d, b, next_norm)
}

/// Record all that follows routing into an open encoder.
pub fn encode_post_expert<B: Copy>(
    enc: &mut Vec<Command<B>>,
    has_vec4: bool,
    d: &LayerDims,
    l: &ExpertLayout,
    layer: usize,
    b: &ExpertBuffers<B>,
    present: &[bool],
    bound: &[bool],
    k: usize,
    next_norm: Option<u64>,
)
    requires
        moe_args_fit(*d),
        b.has_slots(k as int),
        k <= MAX_K,
        k <= present@.len(),
        k <= bound@.len(),
    ensures
        final(enc)@ == after_post_expert(
            old(enc)@,
            has_vec4,
            *d,
            *l,
            layer,
            *b,
            present@,
            bound@,
            k as int,
            next_norm,
        ),
{
    encode_experts(enc, has_vec4, d, l, b, present, k);
    encode_shared(enc, has_vec4, d, layer, b);
    encode_combine(enc, d, b, bound, k);
    if let Some(o) = next_norm {
        encode_rms_norm_bf16(
            enc,
            b.moe_hidden,
            at(b.weights, o),
            b.sum_sq,
            b.next_input,
            d.hidden_dim as u32,
            RMS_NORM_EPS_BITS,
        );
    }
}

/// The experts' step in one command buffer, which is submitted and not waited for.
pub fn expert_program<B: Copy>(
    has_vec4: bool,
    d: &LayerDims,
    l: &ExpertLayout,
    layer: usize,
    b: &ExpertBuffers<B>,
    present: &[bool],
    k: usize,
    next_norm: Option<u64>,
) -> (r: Vec<Command<B>>)
    requires
        moe_args_fit(*d),
        b.has_slots(k as int),
        k <= MAX_K,
        k <= present@.len(),
    ensures
        r@ == after_commit(
            after_close(
                after_post_expert(
                    after_open(Seq::empty()),
                    has_vec4,
                    *d,
                    *l,
                    layer,
                    *b,
                    present@,
                    present@,
                    k as int,
                    next_norm,
                ),
            ),
        ),
{
    let mut enc: Vec<Command<B>> = Vec::new();
    open_encoder(&mut enc);
    encode_post_expert(&mut enc, has_vec4, d, l, layer, b, present, present, k, next_norm);
    end_encoding(&mut enc);
    commit(&mut enc);
    enc
}

/// Whether the next layer's input norm is computed behind the experts: asked for, not the
/// last layer, and both the kernel and the weights exist. `next_norm` is the offset of the
/// next layer's weights.
pub fn fuse_next_norm(
    wanted: bool,
    layer: usize,
    num_layers: usize,
    has_kernel: bool,
    next_norm: Option<u64>,
) -> (r: Option<u64>)
    ensures
        r == (if wanted && layer + 1 < num_layers && has_kernel {
            next_norm
        } else {
            None
        }),
{
    if wanted && layer < num_layers && layer + 1 < num_layers && has_kernel {
        next_norm
    } else {
        None
    }
}

/// Who else keeps the buffers of the experts' step.
#[derive(Clone, Copy, Debug, PartialEq, Eq, Structural)]
pub enum BufferOwner {
    /// A pool that outlives the layer.
    Pool,
    /// A pool, but the experts' outputs are kept on their own account.
    PoolExceptOutputs,
    /// Nobody: they were allocated for this layer.
    Layer,
}

/// The buffers that must outlive the experts' command buffer, the residual in front.
pub fn kept_alive<B: Copy>(b: &ExpertBuffers<B>, k: usize, owner: BufferOwner) -> (r: Vec<B>)
    requires
        b.has_slots(k as int),
    ensures
        r@ == kept_alive_spec(*b, k as int, owner),
{
    let mut keep: Vec<B> = Vec::new();
    keep.push(b.h_mid);
    match owner {
        BufferOwner::Pool => {},
        BufferOwner::PoolExceptOutputs => {
            push_all(&mut keep, &b.out, k);
        },
        BufferOwner::Layer => {
            keep.push(b.shared_act);
            keep.push(b.shared_down);
            keep.push(b.params);
            keep.push(b.x);
            keep.push(b.gate);
            keep.push(b.up);
            keep.push(b.act);
            push_all(&mut keep, &b.out, k);
            push_all(&mut keep, &b.data, k);
        },
    }
    if let Some(g) = b.shared_gate {
        keep.push(g);
    }
    if let Some(u) = b.shared_up {
        keep.push(u);
    }
    assert(keep@ =~= kept_alive_spec(*b, k as int, owner));
    keep
}

/// The buffers that must outlive the experts' command buffer.
pub open spec fn kept_alive_spec<B>(b: ExpertBuffers<B>, k: int, owner: BufferOwner) -> Seq<B> {
    let own = match owner {
        BufferOwner::Pool => seq![],
        BufferOwner::PoolExceptOutputs => b.out@.take(k),
        BufferOwner::Layer => seq![
            b.shared_act,
            b.shared_down,
            b.params,
            b.x,
            b.gate,
            b.up,
            b.act,
        ] + b.out@.take(k) + b.data@.take(k),
    };
    let gate = match b.shared_gate {
        Some(g) => seq![g],
        None => seq![],
    };
    let up = match b.shared_up {
        Some(u) => seq![u],
        None => seq![],
    };
    seq![b.h_mid] + own + gate + up
}

fn push_all<B: Copy>(keep: &mut Vec<B>, from: &Vec<B>, k: usize)
    requires
        k <= from@.len(),
    ensures
        final(keep)@ == old(keep)@ + from@.take(k as int),
{
    for i in 0..k
        invariant
            k <= from@.len(),
            keep@ == old(keep)@ + from@.take(i as int),
    {
        assert(from@.take(i as int + 1) =~= from@.take(i as int).push(from@[i as int]));
        keep.push(from[i]);
    }
}

/// The recording of a linear-attention layer up to routing: projections, convolution, norm,
/// decay, recurrence, gated norm, and the way to routing. The previous layer's output is the
/// residual.
pub open spec fn after_pre_expert<B>(
    s: Seq<Command<B>>,
    d: LayerDims,
    layer: usize,
    lin: LinearBuffers<B>,
    off: LinearOffsets,
    inv_scale: u32,
    post_norm: u64,
    b: RouterBuffers<B>,
) -> Seq<Command<B>> {
    let s = after_in_proj(s, d, layer, lin);
    let s = match off.conv1d {
        Some(o) => s.push(conv_command(d, lin, o)),
        None => s,
    };
    let s = s.push(qk_norm_command(d, lin, inv_scale));
    let s = s.push(decay_command(d, lin, off));
    let s = s.push(delta_command(d, lin));
    let s = match off.norm {
        Some(o) => s.push(gated_norm_command(d, lin, o)),
        None => s,
    };
    after_back_projection(
        s,
        d,
        layer,
        Tensor::OutProj(layer),
        lin.gated,
        d.total_value,
        lin.residual,
        post_norm,
        b,
    )
}

/// Record a linear-attention layer up to routing into an open encoder.
pub fn encode_pre_expert<B: Copy>(
    enc: &mut Vec<Command<B>>,
    d: &LayerDims,
    layer: usize,
    lin: &LinearBuffers<B>,
    off: &LinearOffsets,
    inv_scale: u32,
    post_norm: u64,
    b: &RouterBuffers<B>,
)
    requires
        linear_args_fit(*d),
        moe_args_fit(*d),
    ensures
        final(enc)@ == after_pre_expert(
            old(enc)@,
            *d,
            layer,
            *lin,
            *off,
            inv_scale,
            post_norm,
            *b,
        ),
{
    encode_in_proj(enc, d, layer, lin);
    if let Some(o) = off.conv1d {
        push_conv(enc, d, lin, o);
    }
    push_qk_norm(enc, d, lin, inv_scale);
    push_decay(enc, d, lin, off);
    push_delta(enc, d, lin);
    if let Some(o) = off.norm {
        push_gated_norm(enc, d, lin, o);
    }
    encode_back_projection(
        enc,
        d,
        layer,
        Tensor::OutProj(layer),
        lin.gated,
        d.total_value,
        lin.residual,
        post_norm,
        b,
    );
}

/// Which way the router goes. Without the device it stays on the processor. Deferred full
/// attention is run in the router's program only where all of its kernels, the addition and the
/// norm are there; else deferred linear attention only where the addition and the norm are.
pub proof fn law_router_path(s: RouterSupport, use_gpu: bool, full: bool, linear: bool)
    ensures
        ({
            let p = s.path(use_gpu, full, linear);
            let tail = s.residual_add && s.rms_norm_apply_bf16;
            let attention = s.attn_scores_batched && s.attn_softmax_batched
                && s.attn_values_batched && s.sigmoid_gate;
            let with_full = use_gpu && full && attention && tail;
            &&& p == RouterPath::Cpu <==> !use_gpu
            &&& p == RouterPath::FusedFull <==> with_full
            &&& p == RouterPath::FusedLinear <==> use_gpu && !with_full && linear && tail
            &&& p == RouterPath::Device <==> use_gpu && !with_full && !(linear && tail)
        }),
{
}

/// The numbers that the sum at the end of a layer reads: the weight of each expert at the
/// expert's place, zero at the places of no expert, and the shared expert's score behind the
/// eight places of experts.
pub proof fn law_combine_params<S: Scalar>(weights: Seq<S>, shared_score: S, i: int)
    requires
        weights.len() <= 8,
        0 <= i < 10,
    ensures
        ({
            let p = combine_params_spec(weights, shared_score);
            &&& p.len() == 10
            &&& i < weights.len() ==> p[i] == weights[i]
            &&& weights.len() <= i && i != 8 ==> p[i] == zero::<S>()
            &&& p[8] == shared_score
        }),
{
}

/// What outlives the program of the experts' step: the residual always, the shared expert's
/// projections where they are on the device, and whatever no pool keeps: the outputs, or all
/// buffers that were made for the layer.
pub proof fn law_kept_alive<B>(b: ExpertBuffers<B>, k: int, owner: BufferOwner, i: int)
    requires
        0 <= i < k,
        b.has_slots(k),
    ensures
        ({
            let keep = kept_alive_spec(b, k, owner);
            &&& keep.len() > 0
            &&& keep[0] == b.h_mid
            &&& b.shared_gate is Some ==> keep.contains(b.shared_gate->0)
            &&& b.shared_up is Some ==> keep.contains(b.shared_up->0)
            &&& owner != BufferOwner::Pool ==> keep.contains(b.out@[i])
            &&& owner == BufferOwner::Layer ==> {
                &&& keep.contains(b.data@[i])
                &&& keep.contains(b.x)
                &&& keep.contains(b.gate)
                &&& keep.contains(b.up)
                &&& keep.contains(b.act)
                &&& keep.contains(b.params)
                &&& keep.contains(b.shared_act)
                &&& keep.contains(b.shared_down)
            }
        }),
{
    let keep = kept_alive_spec(b, k, owner);
    let n = match owner {
        BufferOwner::Pool => 1,
        BufferOwner::PoolExceptOutputs => 1 + k,
        BufferOwner::Layer => 8 + 2 * k,
    };
    if b.shared_gate is Some {
        assert(keep[n] == b.shared_gate->0);
    }
    if b.shared_up is Some {
        let m = if b.shared_gate is Some {
            n + 1
        } else {
            n
        };
        assert(keep[m] == b.shared_up->0);
    }
    if owner == BufferOwner::PoolExceptOutputs {
        assert(keep[1 + i] == b.out@[i]);
    }
    if owner == BufferOwner::Layer {
        assert(keep[1] == b.shared_act);
        assert(keep[2] == b.shared_down);
        assert(keep[3] == b.params);
        assert(keep[4] == b.x);
        assert(keep[5] == b.gate);
        assert(keep[6] == b.up);
        assert(keep[7] == b.act);
        assert(keep[8 + i] == b.out@[i]);
        assert(keep[8 + k + i] == b.data@[i]);
    }
}

} // verus!
