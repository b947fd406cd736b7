//! Recorded GPU work: a command list that a device replays.
//!
//! Buffers are handles of a type `B` chosen by the caller; weights are named by tensor.

use vstd::prelude::*;

use crate::text::{append_usize, decimal};

verus! {

/// Compute pipelines, one per shader.
#[derive(Clone, Copy, Debug, PartialEq, Eq, Structural)]
pub enum Pipeline {
    MatvecV3,
    MatvecFast,
    MatvecNaive,
    Matvec2bit,
    Swiglu,
    SwigluVec4,
    WeightedSum,
    RmsNormSum,
    RmsNormApply,
    RmsNormApplyBf16,
    ResidualAdd,
    AttnScoresBatched,
    AttnSoftmaxBatched,
    AttnValuesBatched,
    SigmoidGate,
    MoeCombineResidual,
}

/// Tensors of the weight file. The number is the layer.
#[derive(Clone, Copy, Debug, PartialEq, Eq, Structural)]
pub enum Tensor {
    EmbedTokens,
    LmHead,
    FinalNorm,
    InputNorm(usize),
    PostAttnNorm(usize),
    QProj(usize),
    KProj(usize),
    VProj(usize),
    OProj(usize),
    QNorm(usize),
    KNorm(usize),
    InProjQkv(usize),
    InProjZ(usize),
    InProjB(usize),
    InProjA(usize),
    Conv1d(usize),
    ALog(usize),
    DtBias(usize),
    LinearNorm(usize),
    OutProj(usize),
    RouterGate(usize),
    SharedGateProj(usize),
    SharedUpProj(usize),
    SharedDownProj(usize),
    SharedExpertGate(usize),
}

/// Prefix of the names of a layer's tensors.
pub open spec fn layer_prefix(layer: int) -> Seq<char> {
    "model.layers."@ + decimal(layer)
}

impl Tensor {
    /// The tensor's name in the weight file. For a quantised tensor this is the common prefix
    /// of its `.weight`, `.scales` and `.biases`.
    pub open spec fn name_view(self) -> Seq<char> {
        match self {
            Tensor::EmbedTokens => "model.embed_tokens"@,
            Tensor::LmHead => "lm_head"@,
            Tensor::FinalNorm => "model.norm.weight"@,
            Tensor::InputNorm(l) => layer_prefix(l as int) + ".input_layernorm.weight"@,
            Tensor::PostAttnNorm(l) => layer_prefix(l as int) + ".post_attention_layernorm.weight"@,
            Tensor::QProj(l) => layer_prefix(l as int) + ".self_attn.q_proj"@,
            Tensor::KProj(l) => layer_prefix(l as int) + ".self_attn.k_proj"@,
            Tensor::VProj(l) => layer_prefix(l as int) + ".self_attn.v_proj"@,
            Tensor::OProj(l) => layer_prefix(l as int) + ".self_attn.o_proj"@,
            Tensor::QNorm(l) => layer_prefix(l as int) + ".self_attn.q_norm.weight"@,
            Tensor::KNorm(l) => layer_prefix(l as int) + ".self_attn.k_norm.weight"@,
            Tensor::InProjQkv(l) => layer_prefix(l as int) + ".linear_attn.in_proj_qkv"@,
            Tensor::InProjZ(l) => layer_prefix(l as int) + ".linear_attn.in_proj_z"@,
            Tensor::InProjB(l) => layer_prefix(l as int) + ".linear_attn.in_proj_b"@,
            Tensor::InProjA(l) => layer_prefix(l as int) + ".linear_attn.in_proj_a"@,
            Tensor::Conv1d(l) => layer_prefix(l as int) + ".linear_attn.conv1d.weight"@,
            Tensor::ALog(l) => layer_prefix(l as int) + ".linear_attn.A_log"@,
            Tensor::DtBias(l) => layer_prefix(l as int) + ".linear_attn.dt_bias"@,
            Tensor::LinearNorm(l) => layer_prefix(l as int) + ".linear_attn.norm.weight"@,
            Tensor::OutProj(l) => layer_prefix(l as int) + ".linear_attn.out_proj"@,
            Tensor::RouterGate(l) => layer_prefix(l as int) + ".mlp.gate"@,
            Tensor::SharedGateProj(l) => layer_prefix(l as int) + ".mlp.shared_expert.gate_proj"@,
            Tensor::SharedUpProj(l) => layer_prefix(l as int) + ".mlp.shared_expert.up_proj"@,
            Tensor::SharedDownProj(l) => layer_prefix(l as int) + ".mlp.shared_expert.down_proj"@,
            Tensor::SharedExpertGate(l) => layer_prefix(l as int) + ".mlp.shared_expert_gate"@,
        }
    }

    /// The tensor's name in the weight file.
    pub fn name(&self) -> (r: String)
        ensures
            r@ == self.name_view(),
    {
        match *self {
            Tensor::EmbedTokens => String::from_str("model.embed_tokens"),
            Tensor::LmHead => String::from_str("lm_head"),
            Tensor::FinalNorm => String::from_str("model.norm.weight"),
            Tensor::InputNorm(l) => layer_name(l, ".input_layernorm.weight"),
            Tensor::PostAttnNorm(l) => layer_name(l, ".post_attention_layernorm.weight"),
            Tensor::QProj(l) => layer_name(l, ".self_attn.q_proj"),
            Tensor::KProj(l) => layer_name(l, ".self_attn.k_proj"),
            Tensor::VProj(l) => layer_name(l, ".self_attn.v_proj"),
            Tensor::OProj(l) => layer_name(l, ".self_attn.o_proj"),
            Tensor::QNorm(l) => layer_name(l, ".self_attn.q_norm.weight"),
            Tensor::KNorm(l) => layer_name(l, ".self_attn.k_norm.weight"),
            Tensor::InProjQkv(l) => layer_name(l, ".linear_attn.in_proj_qkv"),
            Tensor::InProjZ(l) => layer_name(l, ".linear_attn.in_proj_z"),
            Tensor::InProjB(l) => layer_name(l, ".linear_attn.in_proj_b"),
            Tensor::InProjA(l) => layer_name(l, ".linear_attn.in_proj_a"),
            Tensor::Conv1d(l) => layer_name(l, ".linear_attn.conv1d.weight"),
            Tensor::ALog(l) => layer_name(l, ".linear_attn.A_log"),
            Tensor::DtBias(l) => layer_name(l, ".linear_attn.dt_bias"),
            Tensor::LinearNorm(l) => layer_name(l, ".linear_attn.norm.weight"),
            Tensor::OutProj(l) => layer_name(l, ".linear_attn.out_proj"),
            Tensor::RouterGate(l) => layer_name(l, ".mlp.gate"),
            Tensor::SharedGateProj(l) => layer_name(l, ".mlp.shared_expert.gate_proj"),
            Tensor::SharedUpProj(l) => layer_name(l, ".mlp.shared_expert.up_proj"),
            Tensor::SharedDownProj(l) => layer_name(l, ".mlp.shared_expert.down_proj"),
            Tensor::SharedExpertGate(l) => layer_name(l, ".mlp.shared_expert_gate"),
        }
    }
}

/// The name of a layer's tensor.
fn layer_name(layer: usize, suffix: &str) -> (r: String)
    ensures
        r@ == layer_prefix(layer as int) + suffix@,
{
    let mut s = String::from_str("model.layers.");
    append_usize(&mut s, layer);
    s.append(suffix);
    s
}

/// A buffer from a byte offset on.
#[derive(Clone, Copy, Debug, PartialEq, Eq)]
pub struct Binding<B> {
    pub buffer: B,
    pub offset: u64,
}

/// A whole buffer.
pub open spec fn whole_spec<B>(buffer: B) -> Binding<B> {
    Binding { buffer, offset: 0 }
}

/// Bind a whole buffer.
#[verifier::when_used_as_spec(whole_spec)]
pub fn whole<B>(buffer: B) -> (r: Binding<B>)
    ensures
        r == whole_spec(buffer),
{
    Binding { buffer, offset: 0 }
}

/// A buffer from a byte offset on.
pub open spec fn at_spec<B>(buffer: B, offset: u64) -> Binding<B> {
    Binding { buffer, offset }
}

/// Bind a buffer from a byte offset on.
#[verifier::when_used_as_spec(at_spec)]
pub fn at<B>(buffer: B, offset: u64) -> (r: Binding<B>)
    ensures
        r == at_spec(buffer, offset),
{
    Binding { buffer, offset }
}

/// One recorded command.
#[derive(Clone, Copy, Debug, PartialEq, Eq)]
pub enum Command<B> {
    /// Open a compute encoder.
    NewEncoder,
    /// Close the compute encoder.
    EndEncoding,
    /// Submit what was recorded.
    Commit,
    /// Block until the submitted work is done.
    WaitUntilCompleted,
    SetPipeline(Pipeline),
    SetBuffer { index: u64, binding: Binding<B> },
    /// Pass a 32-bit integer.
    SetU32 { index: u64, value: u32 },
    /// Pass a single-precision number, given by its bit pattern.
    SetF32 { index: u64, bits: u32 },
    /// Run the pipeline on a one-dimensional grid.
    Dispatch { groups: u64, threads: u64 },
    /// Multiply a quantised tensor of the weight file with a vector; no effect if the weight
    /// file lacks the tensor.
    Project { tensor: Tensor, x: Binding<B>, out: Binding<B>, out_dim: usize, in_dim: usize },
    /// One step of the causal convolution; shifts the state.
    Conv1dStep { state: B, input: B, weights: Binding<B>, output: B, channels: u32 },
    /// Normalise the query and key heads; `inv_scale` is a single-precision bit pattern.
    RmsNormQk {
        q: Binding<B>,
        k: Binding<B>,
        num_heads: u32,
        key_dim: u32,
        inv_scale: u32,
    },
    /// Decay and gate of each value head.
    ComputeDecayBeta {
        alpha: B,
        beta: B,
        a_log: Binding<B>,
        dt_bias: Binding<B>,
        g_decay: B,
        beta_gate: B,
        num_v_heads: u32,
    },
    /// One step of the gated delta recurrence; updates the state.
    GatedDeltaNetStep {
        state: B,
        q: Binding<B>,
        k: Binding<B>,
        v: Binding<B>,
        g_decay: B,
        beta_gate: B,
        output: B,
        num_v_heads: u32,
        k_heads_per_v: u32,
        key_dim: u32,
        value_dim: u32,
    },
    /// Normalise and gate the value heads.
    GatedRmsNorm {
        values: B,
        z: B,
        weight: Binding<B>,
        output: B,
        num_heads: u32,
        value_dim: u32,
    },
}

/// The names of a layer's tensors: all begin with the layer's number in decimal, and end with the
/// place of the tensor in the layer.
pub proof fn law_layer_names(l: usize)
    ensures
        ({
            let layer = "model.layers."@ + decimal(l as int);
            &&& Tensor::InputNorm(l).name_view() == layer + ".input_layernorm.weight"@
            &&& Tensor::PostAttnNorm(l).name_view() == layer + ".post_attention_layernorm.weight"@
            &&& Tensor::QProj(l).name_view() == layer + ".self_attn.q_proj"@
            &&& Tensor::KProj(l).name_view() == layer + ".self_attn.k_proj"@
            &&& Tensor::VProj(l).name_view() == layer + ".self_attn.v_proj"@
            &&& Tensor::OProj(l).name_view() == layer + ".self_attn.o_proj"@
            &&& Tensor::QNorm(l).name_view() == layer + ".self_attn.q_norm.weight"@
            &&& Tensor::KNorm(l).name_view() == layer + ".self_attn.k_norm.weight"@
            &&& Tensor::InProjQkv(l).name_view() == layer + ".linear_attn.in_proj_qkv"@
            &&& Tensor::InProjZ(l).name_view() == layer + ".linear_attn.in_proj_z"@
            &&& Tensor::InProjB(l).name_view() == layer + ".linear_attn.in_proj_b"@
            &&& Tensor::InProjA(l).name_view() == layer + ".linear_attn.in_proj_a"@
            &&& Tensor::Conv1d(l).name_view() == layer + ".linear_attn.conv1d.weight"@
            &&& Tensor::ALog(l).name_view() == layer + ".linear_attn.A_log"@
            &&& Tensor::DtBias(l).name_view() == layer + ".linear_attn.dt_bias"@
            &&& Tensor::LinearNorm(l).name_view() == layer + ".linear_attn.norm.weight"@
            &&& Tensor::OutProj(l).name_view() == layer + ".linear_attn.out_proj"@
            &&& Tensor::RouterGate(l).name_view() == layer + ".mlp.gate"@
            &&& Tensor::SharedGateProj(l).name_view() == layer + ".mlp.shared_expert.gate_proj"@
            &&& Tensor::SharedUpProj(l).name_view() == layer + ".mlp.shared_expert.up_proj"@
            &&& Tensor::SharedDownProj(l).name_view() == layer + ".mlp.shared_expert.down_proj"@
            &&& Tensor::SharedExpertGate(l).name_view() == layer + ".mlp.shared_expert_gate"@
        }),
{
}

/// A whole buffer is bound from its first byte on, and any other binding from the byte given.
pub proof fn law_bindings<B>(buffer: B, offset: u64)
    ensures
        whole(buffer).buffer == buffer,
        whole(buffer).offset == 0,
        at(buffer, offset).buffer == buffer,
        at(buffer, offset).offset == offset,
        at(buffer, 0) == whole(buffer),
{
}

} // verus!
