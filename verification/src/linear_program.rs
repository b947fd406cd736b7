//! Linear attention on the device, as command lists.

use vstd::prelude::*;

use crate::command::{at, whole, Binding, Command, Tensor};
use crate::kernels::{
    after_close, after_finish, after_open, after_project, after_residual_add, after_submit,
    encode_project, encode_residual_add, end_encoding, finish, open_encoder, submit,
};
use crate::weights::LayerDims;

verus! {

/// Buffers of a linear-attention layer.
#[derive(Clone, Copy, Debug)]
pub struct LinearBuffers<B> {
    /// The normed hidden state.
    pub input: B,
    /// Outputs of the four projections.
    pub qkv: B,
    pub z: B,
    pub beta: B,
    pub alpha: B,
    /// The layer's convolution state and recurrent state.
    pub conv_state: B,
    pub delta_state: B,
    pub conv_output: B,
    pub g_decay: B,
    pub beta_gate: B,
    pub delta_output: B,
    /// Output of the gated norm.
    pub gated: B,
    /// The weight file.
    pub weights: B,
    /// Output of the back projection, the residual, and their sum.
    pub o_proj: B,
    pub residual: B,
    pub hidden_out: B,
}

/// Byte offsets of a layer's small tensors in the weight file; `None` where it lacks one.
#[derive(Clone, Copy, Debug, PartialEq, Eq, Structural)]
pub struct LinearOffsets {
    pub conv1d: Option<u64>,
    pub a_log: Option<u64>,
    pub dt_bias: Option<u64>,
    pub norm: Option<u64>,
}

/// The sizes of a layer fit into the kernels' arguments.
pub open spec fn linear_args_fit(d: LayerDims) -> bool {
    &&& 0 < d.num_k_heads
    &&& d.conv_dim <= u32::MAX
    &&& d.num_k_heads <= u32::MAX
    &&& d.num_v_heads <= u32::MAX
    &&& d.key_dim <= u32::MAX
    &&& d.value_dim <= u32::MAX
    &&& 8 * d.total_key <= u64::MAX
    &&& 8 * d.total_key <= usize::MAX
    &&& d.hidden_dim + 255 <= u32::MAX
}

/// A tensor in the weight file, or a stand-in where it is missing.
pub open spec fn tensor_or<B>(weights: B, offset: Option<u64>, stand_in: B) -> Binding<B> {
    match offset {
        Some(o) => at(weights, o),
        None => whole(stand_in),
    }
}

fn bind_tensor<B>(weights: B, offset: Option<u64>, stand_in: B) -> (r: Binding<B>)
    ensures
        r == tensor_or(weights, offset, stand_in),
{
    match offset {
        Some(o) => at(weights, o),
        None => whole(stand_in),
    }
}

/// The four projections.
pub open spec fn after_in_proj<B>(
    s: Seq<Command<B>>,
    d: LayerDims,
    layer: usize,
    b: LinearBuffers<B>,
) -> Seq<Command<B>> {
    let hd = d.hidden_dim;
    let s = after_project(s, Tensor::InProjQkv(layer), b.input, b.qkv, d.conv_dim, hd);
    let s = after_project(s, Tensor::InProjZ(layer), b.input, b.z, d.total_value, hd);
    let s = after_project(s, Tensor::InProjB(layer), b.input, b.beta, d.num_v_heads, hd);
    after_project(s, Tensor::InProjA(layer), b.input, b.alpha, d.num_v_heads, hd)
}

pub(crate) fn encode_in_proj<B: Copy>(
    enc: &mut Vec<Command<B>>,
    d: &LayerDims,
    layer: usize,
    b: &LinearBuffers<B>,
)
    ensures
        final(enc)@ == after_in_proj(old(enc)@, *d, layer, *b),
{
    let hd: usize = d.hidden_dim;
    encode_project(enc, Tensor::InProjQkv(layer), b.input, b.qkv, d.conv_dim, hd);
    encode_project(enc, Tensor::InProjZ(layer), b.input, b.z, d.total_value, hd);
    encode_project(enc, Tensor::InProjB(layer), b.input, b.beta, d.num_v_heads, hd);
    encode_project(enc, Tensor::InProjA(layer), b.input, b.alpha, d.num_v_heads, hd);
}

/// The convolution step.
pub open spec fn conv_command<B>(d: LayerDims, b: LinearBuffers<B>, offset: u64) -> Command<B> {
    Command::Conv1dStep {
        state: b.conv_state,
        input: b.qkv,
        weights: at(b.weights, offset),
        output: b.conv_output,
        channels: d.conv_dim as u32,
    }
}

/// The norm of queries and keys, which lie one behind the other.
pub open spec fn qk_norm_command<B>(
    d: LayerDims,
    b: LinearBuffers<B>,
    inv_scale: u32,
) -> Command<B> {
    Command::RmsNormQk {
        q: whole(b.conv_output),
        k: at(b.conv_output, (d.total_key * 4) as u64),
        num_heads: d.num_k_heads as u32,
        key_dim: d.key_dim as u32,
        inv_scale,
    }
}

/// Decay and write gate of the value heads.
pub open spec fn decay_command<B>(
    d: LayerDims,
    b: LinearBuffers<B>,
    off: LinearOffsets,
) -> Command<B> {
    Command::ComputeDecayBeta {
        alpha: b.alpha,
        beta: b.beta,
        a_log: tensor_or(b.weights, off.a_log, b.alpha),
        dt_bias: tensor_or(b.weights, off.dt_bias, b.beta),
        g_decay: b.g_decay,
        beta_gate: b.beta_gate,
        num_v_heads: d.num_v_heads as u32,
    }
}

/// The recurrence, which reads queries, keys and values from the convolution's output.
pub open spec fn delta_command<B>(d: LayerDims, b: LinearBuffers<B>) -> Command<B> {
    Command::GatedDeltaNetStep {
        state: b.delta_state,
        q: whole(b.conv_output),
        k: at(b.conv_output, (d.total_key * 4) as u64),
        v: at(b.conv_output, (2 * d.total_key * 4) as u64),
        g_decay: b.g_decay,
        beta_gate: b.beta_gate,
        output: b.delta_output,
        num_v_heads: d.num_v_heads as u32,
        k_heads_per_v: d.k_heads_per_v() as u32,
        key_dim: d.key_dim as u32,
        value_dim: d.value_dim as u32,
    }
}

/// The gated norm of the value heads.
pub open spec fn gated_norm_command<B>(
    d: LayerDims,
    b: LinearBuffers<B>,
    offset: u64,
) -> Command<B> {
    Command::GatedRmsNorm {
        values: b.delta_output,
        z: b.z,
        weight: at(b.weights, offset),
        output: b.gated,
        num_heads: d.num_v_heads as u32,
        value_dim: d.value_dim as u32,
    }
}

/// Projections, convolution, norm, decay and recurrence, each in an encoder of its own.
pub open spec fn after_recurrence<B>(
    s: Seq<Command<B>>,
    d: LayerDims,
    layer: usize,
    b: LinearBuffers<B>,
    off: LinearOffsets,
    inv_scale: u32,
) -> Seq<Command<B>> {
    let s = after_close(after_in_proj(after_open(s), d, layer, b));
    let s = match off.conv1d {
        Some(o) => after_close(after_open(s).push(conv_command(d, b, o))),
        None => s,
    };
    let s = after_close(after_open(s).push(qk_norm_command(d, b, inv_scale)));
    let s = after_close(after_open(s).push(decay_command(d, b, off)));
    after_close(after_open(s).push(delta_command(d, b)))
}

/// The number of value heads per key head fits into the kernel's argument.
proof fn lemma_heads_ratio(d: LayerDims)
    requires
        linear_args_fit(d),
    ensures
        0 <= d.k_heads_per_v() <= u32::MAX,
{
    vstd::arithmetic::div_mod::lemma_div_is_ordered_by_denominator(
        d.num_v_heads as int,
        1,
        d.num_k_heads as int,
    );
    vstd::arithmetic::div_mod::lemma_div_basics(d.num_v_heads as int);
    vstd::arithmetic::div_mod::lemma_div_pos_is_pos(d.num_v_heads as int, d.num_k_heads as int);
}

pub(crate) fn push_conv<B: Copy>(enc: &mut Vec<Command<B>>, d: &LayerDims, b: &LinearBuffers<B>, offset: u64)
    requires
        linear_args_fit(*d),
    ensures
        final(enc)@ == old(enc)@.push(conv_command(*d, *b, offset)),
{
    enc.push(
        Command::Conv1dStep {
            state: b.conv_state,
            input: b.qkv,
            weights: at(b.weights, offset),
            output: b.conv_output,
            channels: d.conv_dim as u32,
        },
    );
}

pub(crate) fn push_qk_norm<B: Copy>(
    enc: &mut Vec<Command<B>>,
    d: &LayerDims,
    b: &LinearBuffers<B>,
    inv_scale: u32,
)
    requires
        linear_args_fit(*d),
    ensures
        final(enc)@ == old(enc)@.push(qk_norm_command(*d, *b, inv_scale)),
{
    enc.push(
        Command::RmsNormQk {
            q: whole(b.conv_output),
            k: at(b.conv_output, (d.total_key * 4) as u64),
            num_heads: d.num_k_heads as u32,
            key_dim: d.key_dim as u32,
            inv_scale,
        },
    );
}

pub(crate) fn push_decay<B: Copy>(
    enc: &mut Vec<Command<B>>,
    d: &LayerDims,
    b: &LinearBuffers<B>,
    off: &LinearOffsets,
)
    requires
        linear_args_fit(*d),
    ensures
        final(enc)@ == old(enc)@.push(decay_command(*d, *b, *off)),
{
    enc.push(
        Command::ComputeDecayBeta {
            alpha: b.alpha,
            beta: b.beta,
            a_log: bind_tensor(b.weights, off.a_log, b.alpha),
            dt_bias: bind_tensor(b.weights, off.dt_bias, b.beta),
            g_decay: b.g_decay,
            beta_gate: b.beta_gate,
            num_v_heads: d.num_v_heads as u32,
        },
    );
}

pub(crate) fn push_delta<B: Copy>(enc: &mut Vec<Command<B>>, d: &LayerDims, b: &LinearBuffers<B>)
    requires
        linear_args_fit(*d),
    ensures
        final(enc)@ == old(enc)@.push(delta_command(*d, *b)),
{
    proof {
        lemma_heads_ratio(*d);
    }
    enc.push(
        Command::GatedDeltaNetStep {
            state: b.delta_state,
            q: whole(b.conv_output),
            k: at(b.conv_output, (d.total_key * 4) as u64),
            v: at(b.conv_output, (2 * d.total_key * 4) as u64),
            g_decay: b.g_decay,
            beta_gate: b.beta_gate,
            output: b.delta_output,
            num_v_heads: d.num_v_heads as u32,
            k_heads_per_v: (d.num_v_heads / d.num_k_heads) as u32,
            key_dim: d.key_dim as u32,
            value_dim: d.value_dim as u32,
        },
    );
}

pub(crate) fn push_gated_norm<B: Copy>(
    enc: &mut Vec<Command<B>>,
    d: &LayerDims,
    b: &LinearBuffers<B>,
    offset: u64,
)
    requires
        linear_args_fit(*d),
    ensures
        final(enc)@ == old(enc)@.push(gated_norm_command(*d, *b, offset)),
{
    enc.push(
        Command::GatedRmsNorm {
            values: b.delta_output,
            z: b.z,
            weight: at(b.weights, offset),
            output: b.gated,
            num_heads: d.num_v_heads as u32,
            value_dim: d.value_dim as u32,
        },
    );
}

/// Record projections, convolution, norm, decay and recurrence.
fn encode_recurrence<B: Copy>(
    enc: &mut Vec<Command<B>>,
    d: &LayerDims,
    layer: usize,
    b: &LinearBuffers<B>,
    off: &LinearOffsets,
    inv_scale: u32,
)
    requires
        linear_args_fit(*d),
    ensures
        final(enc)@ == after_recurrence(old(enc)@, *d, layer, *b, *off, inv_scale),
{
    open_encoder(enc);
    encode_in_proj(enc, d, layer, b);
    end_encoding(enc);
    if let Some(o) = off.conv1d {
        open_encoder(enc);
        push_conv(enc, d, b, o);
        end_encoding(enc);
    }
    open_encoder(enc);
    push_qk_norm(enc, d, b, inv_scale);
    end_encoding(enc);
    open_encoder(enc);
    push_decay(enc, d, b, off);
    end_encoding(enc);
    open_encoder(enc);
    push_delta(enc, d, b);
    end_encoding(enc);
}

/// An encoder for the gated norm; it stays empty without weights.
pub open spec fn after_gated_norm<B>(
    s: Seq<Command<B>>,
    d: LayerDims,
    b: LinearBuffers<B>,
    off: LinearOffsets,
) -> Seq<Command<B>> {
    after_close(
        match off.norm {
            Some(o) => after_open(s).push(gated_norm_command(d, b, o)),
            None => after_open(s),
        },
    )
}

fn encode_gated_norm<B: Copy>(
    enc: &mut Vec<Command<B>>,
    d: &LayerDims,
    b: &LinearBuffers<B>,
    off: &LinearOffsets,
)
    requires
        linear_args_fit(*d),
    ensures
        final(enc)@ == after_gated_norm(old(enc)@, *d, *b, *off),
{
    open_encoder(enc);
    if let Some(o) = off.norm {
        push_gated_norm(enc, d, b, o);
    }
    end_encoding(enc);
}

/// The whole layer in one command buffer: recurrence, gated norm, back projection, residual.
pub open spec fn fused_commands<B>(
    d: LayerDims,
    layer: usize,
    b: LinearBuffers<B>,
    off: LinearOffsets,
    inv_scale: u32,
) -> Seq<Command<B>> {
    let s = after_recurrence(Seq::empty(), d, layer, b, off, inv_scale);
    let s = after_gated_norm(s, d, b, off);
    let s = after_project(
        after_open(s),
        Tensor::OutProj(layer),
        b.gated,
        b.o_proj,
        d.hidden_dim,
        d.total_value,
    );
    let s = after_open(after_close(s));
    let s = after_residual_add(s, b.o_proj, b.residual, b.hidden_out, d.hidden_dim as u32);
    after_submit(after_close(s))
}

/// The whole layer in one command buffer.
pub fn fused_program<B: Copy>(
    d: &LayerDims,
    layer: usize,
    b: &LinearBuffers<B>,
    off: &LinearOffsets,
    inv_scale: u32,
) -> (r: Vec<Command<B>>)
    requires
        linear_args_fit(*d),
    ensures
        r@ == fused_commands(*d, layer, *b, *off, inv_scale),
{
    let mut enc: Vec<Command<B>> = Vec::new();
    encode_recurrence(&mut enc, d, layer, b, off, inv_scale);
    encode_gated_norm(&mut enc, d, b, off);
    open_encoder(&mut enc);
    encode_project(
        &mut enc,
        Tensor::OutProj(layer),
        b.gated,
        b.o_proj,
        d.hidden_dim,
        d.total_value,
    );
    end_encoding(&mut enc);
    open_encoder(&mut enc);
    encode_residual_add(&mut enc, b.o_proj, b.residual, b.hidden_out, d.hidden_dim as u32);
    end_encoding(&mut enc);
    submit(&mut enc);
    enc
}

/// The layer without its back projection; the gated norm is part of it on request.
pub open spec fn split_commands<B>(
    d: LayerDims,
    layer: usize,
    b: LinearBuffers<B>,
    off: LinearOffsets,
    inv_scale: u32,
    with_norm: bool,
) -> Seq<Command<B>> {
    let s = after_recurrence(Seq::empty(), d, layer, b, off, inv_scale);
    after_submit(
        if with_norm {
            after_gated_norm(s, d, b, off)
        } else {
            s
        },
    )
}

/// The layer without its back projection.
pub fn split_program<B: Copy>(
    d: &LayerDims,
    layer: usize,
    b: &LinearBuffers<B>,
    off: &LinearOffsets,
    inv_scale: u32,
    with_norm: bool,
) -> (r: Vec<Command<B>>)
    requires
        linear_args_fit(*d),
    ensures
        r@ == split_commands(*d, layer, *b, *off, inv_scale, with_norm),
{
    let mut enc: Vec<Command<B>> = Vec::new();
    encode_recurrence(&mut enc, d, layer, b, off, inv_scale);
    if with_norm {
        encode_gated_norm(&mut enc, d, b, off);
    }
    submit(&mut enc);
    enc
}

/// Buffers of a recurrence whose inputs come from the CPU.
#[derive(Clone, Copy, Debug)]
pub struct RecurrenceBuffers<B> {
    pub q: B,
    pub k: B,
    pub v: B,
    pub z: B,
    pub alpha: B,
    pub beta: B,
    pub a_log: B,
    pub dt_bias: B,
    pub g_decay: B,
    pub beta_gate: B,
    pub state: B,
    pub output: B,
    pub gated: B,
    /// Weights of the gated norm, if there are any.
    pub norm: Option<B>,
}

/// Norm, decay, recurrence and gated norm in one encoder.
pub open spec fn recurrence_commands<B>(
    d: LayerDims,
    b: RecurrenceBuffers<B>,
    inv_scale: u32,
) -> Seq<Command<B>> {
    let s = after_open(Seq::empty()).push(
        Command::RmsNormQk {
            q: whole(b.q),
            k: whole(b.k),
            num_heads: d.num_k_heads as u32,
            key_dim: d.key_dim as u32,
            inv_scale,
        },
    ).push(
        Command::ComputeDecayBeta {
            alpha: b.alpha,
            beta: b.beta,
            a_log: whole(b.a_log),
            dt_bias: whole(b.dt_bias),
            g_decay: b.g_decay,
            beta_gate: b.beta_gate,
            num_v_heads: d.num_v_heads as u32,
        },
    ).push(
        Command::GatedDeltaNetStep {
            state: b.state,
            q: whole(b.q),
            k: whole(b.k),
            v: whole(b.v),
            g_decay: b.g_decay,
            beta_gate: b.beta_gate,
            output: b.output,
            num_v_heads: d.num_v_heads as u32,
            k_heads_per_v: d.k_heads_per_v() as u32,
            key_dim: d.key_dim as u32,
            value_dim: d.value_dim as u32,
        },
    );
    after_finish(
        match b.norm {
            Some(w) => s.push(
                Command::GatedRmsNorm {
                    values: b.output,
                    z: b.z,
                    weight: whole(w),
                    output: b.gated,
                    num_heads: d.num_v_heads as u32,
                    value_dim: d.value_dim as u32,
                },
            ),
            None => s,
        },
    )
}

/// A recurrence whose inputs come from the CPU; the result is read from `gated`, or from
/// `output` where the norm has no weights.
pub fn recurrence_program<B: Copy>(
    d: &LayerDims,
    b: &RecurrenceBuffers<B>,
    inv_scale: u32,
) -> (r: (Vec<Command<B>>, B))
    requires
        linear_args_fit(*d),
    ensures
        r.0@ == recurrence_commands(*d, *b, inv_scale),
        r.1 == (if b.norm is Some {
            b.gated
        } else {
            b.output
        }),
{
    proof {
        lemma_heads_ratio(*d);
    }
    let mut enc: Vec<Command<B>> = Vec::new();
    open_encoder(&mut enc);
    enc.push(
        Command::RmsNormQk {
            q: whole(b.q),
            k: whole(b.k),
            num_heads: d.num_k_heads as u32,
            key_dim: d.key_dim as u32,
            inv_scale,
        },
    );
    enc.push(
        Command::ComputeDecayBeta {
            alpha: b.alpha,
            beta: b.beta,
            a_log: whole(b.a_log),
            dt_bias: whole(b.dt_bias),
            g_decay: b.g_decay,
            beta_gate: b.beta_gate,
            num_v_heads: d.num_v_heads as u32,
        },
    );
    enc.push(
        Command::GatedDeltaNetStep {
            state: b.state,
            q: whole(b.q),
            k: whole(b.k),
            v: whole(b.v),
            g_decay: b.g_decay,
            beta_gate: b.beta_gate,
            output: b.output,
            num_v_heads: d.num_v_heads as u32,
            k_heads_per_v: (d.num_v_heads / d.num_k_heads) as u32,
            key_dim: d.key_dim as u32,
            value_dim: d.value_dim as u32,
        },
    );
    let read: B = match b.norm {
        Some(w) => {
            enc.push(
                Command::GatedRmsNorm {
                    values: b.output,
                    z: b.z,
                    weight: whole(w),
                    output: b.gated,
                    num_heads: d.num_v_heads as u32,
                    value_dim: d.value_dim as u32,
                },
            );
            b.gated
        },
        None => b.output,
    };
    finish(&mut enc);
    (enc, read)
}

} // verus!
