//! The device context: which shaders are there, and the buffers that inference works in.
//!
//! A buffer is named by its place in the list of lengths; whoever owns the device allocates
//! one buffer per length.

use vstd::prelude::*;

use crate::constants::MAX_K;
use crate::expert_cache::{align_to_page, page_aligned};
use crate::text::{debug_text, debug_view};
use crate::types::ModelConfig;

verus! {

/// Number of output slots of batched projections.
pub const MAX_BATCH_SLOTS: usize = 8;

/// Allocation unit of the experts' weights, in bytes.
pub const EXPERT_ALLOC_UNIT: u64 = 0x20_0000;

/// The shaders that compiled to a pipeline.
#[derive(Clone, Copy, Debug, PartialEq, Eq, Structural)]
pub struct Pipelines {
    pub matvec_v3: bool,
    pub matvec_v5: bool,
    pub matvec_fast: bool,
    pub matvec_2bit: bool,
    pub rms_norm_sum: bool,
    pub rms_norm_apply: bool,
    pub rms_norm_apply_bf16: bool,
    pub residual_add: bool,
    pub swiglu: bool,
    pub attn_scores_pipe: bool,
    pub attn_softmax_pipe: bool,
    pub attn_values_pipe: bool,
    pub sigmoid_gate_pipe: bool,
    pub moe_combine_residual: bool,
    pub delta_net_step: bool,
    pub conv1d_step: bool,
    pub rms_norm_qk: bool,
    pub compute_decay_beta: bool,
    pub gated_rms_norm: bool,
}

impl Pipelines {
    /// The first shader that is required and missing.
    pub open spec fn first_missing(self) -> Option<Seq<char>> {
        if !self.matvec_v3 {
            Some("dequant_matvec_4bit_v3"@)
        } else if !self.matvec_fast {
            Some("dequant_matvec_4bit_fast"@)
        } else if !self.rms_norm_sum {
            Some("rms_norm_sum_sq"@)
        } else if !self.rms_norm_apply {
            Some("rms_norm_apply"@)
        } else if !self.rms_norm_apply_bf16 {
            Some("rms_norm_apply_bf16"@)
        } else if !self.residual_add {
            Some("residual_add"@)
        } else if !self.swiglu {
            Some("swiglu_fused"@)
        } else {
            None
        }
    }

    /// The first shader that is required and missing.
    fn missing(&self) -> (r: Option<&'static str>)
        ensures
            match r {
                Some(s) => self.first_missing() == Some(s@),
                None => self.first_missing() is None,
            },
    {
        if !self.matvec_v3 {
            Some("dequant_matvec_4bit_v3")
        } else if !self.matvec_fast {
            Some("dequant_matvec_4bit_fast")
        } else if !self.rms_norm_sum {
            Some("rms_norm_sum_sq")
        } else if !self.rms_norm_apply {
            Some("rms_norm_apply")
        } else if !self.rms_norm_apply_bf16 {
            Some("rms_norm_apply_bf16")
        } else if !self.residual_add {
            Some("residual_add")
        } else if !self.swiglu {
            Some("swiglu_fused")
        } else {
            None
        }
    }
}

/// What a look for a device found.
pub enum DeviceReport {
    /// There is none.
    NotFound,
    /// There is one, but the shaders do not compile, for the reason given.
    ShaderError(String),
    /// The shaders compiled to these pipelines.
    Ready(Pipelines),
}

/// Bytes of the input buffer: the widest vector that is projected.
pub open spec fn input_bytes(cfg: ModelConfig) -> int {
    let q = cfg.num_attn_heads * cfg.head_dim;
    4 * (if cfg.linear_total_value >= q {
        cfg.linear_total_value as int
    } else {
        q
    })
}

/// Bytes of the output buffer: one number per word of the vocabulary.
pub open spec fn output_bytes(cfg: ModelConfig) -> int {
    4 * cfg.vocab_size
}

/// Bytes of an output slot: queries with their gates, or the convolution's input.
pub open spec fn batch_bytes(cfg: ModelConfig) -> int {
    let q = cfg.num_attn_heads * cfg.head_dim * 2;
    4 * (if q >= cfg.linear_conv_dim {
        q
    } else {
        cfg.linear_conv_dim as int
    })
}

/// Bytes of a hidden state.
pub open spec fn hidden_bytes(cfg: ModelConfig) -> int {
    4 * cfg.hidden_dim
}

/// Bytes of an expert's intermediate vector.
pub open spec fn inter_bytes(cfg: ModelConfig) -> int {
    4 * cfg.moe_intermediate
}

/// Bytes of the shared expert's intermediate vector.
pub open spec fn shared_bytes(cfg: ModelConfig) -> int {
    4 * cfg.shared_intermediate
}

/// Bytes set aside for an expert's weights: whole allocation units.
pub open spec fn expert_alloc_bytes(cfg: ModelConfig) -> int {
    (cfg.expert_size_4bit + EXPERT_ALLOC_UNIT - 1) / EXPERT_ALLOC_UNIT as int * EXPERT_ALLOC_UNIT
}

/// Bytes of a layer's keys (or values).
pub open spec fn kv_cache_bytes(cfg: ModelConfig, kv_bf16: bool) -> int {
    cfg.gpu_kv_seq * (cfg.num_kv_heads * cfg.head_dim) * (if kv_bf16 {
        2int
    } else {
        4int
    })
}

/// Bytes of all query heads.
pub open spec fn query_bytes(cfg: ModelConfig) -> int {
    4 * (cfg.num_attn_heads * cfg.head_dim)
}

/// Bytes of the scores of all query heads.
pub open spec fn score_bytes(cfg: ModelConfig) -> int {
    4 * (cfg.num_attn_heads * cfg.gpu_kv_seq)
}

/// Bytes of a layer's recurrent state.
pub open spec fn delta_state_bytes(cfg: ModelConfig) -> int {
    4 * (cfg.linear_num_v_heads * cfg.linear_value_dim * cfg.linear_key_dim)
}

/// Bytes of a layer's convolution state: three past inputs.
pub open spec fn conv_state_bytes(cfg: ModelConfig) -> int {
    4 * (3 * cfg.linear_conv_dim)
}

/// The dimensions are not negative, and the sizes can be computed.
pub open spec fn sizes_fit(cfg: ModelConfig, kv_bf16: bool) -> bool {
    &&& 0 <= cfg.hidden_dim
    &&& 0 <= cfg.vocab_size
    &&& 0 <= cfg.num_attn_heads
    &&& 0 <= cfg.num_kv_heads
    &&& 0 <= cfg.head_dim
    &&& 0 <= cfg.moe_intermediate
    &&& 0 <= cfg.shared_intermediate
    &&& 0 <= cfg.linear_num_v_heads
    &&& 0 <= cfg.linear_value_dim
    &&& 0 <= cfg.linear_key_dim
    &&& 0 <= cfg.linear_total_key
    &&& 0 <= cfg.linear_total_value
    &&& 0 <= cfg.linear_conv_dim
    &&& 0 <= cfg.expert_size_4bit
    &&& 0 <= cfg.gpu_kv_seq
    &&& 0 <= cfg.num_full_attn_layers
    &&& 0 <= cfg.num_linear_layers
    &&& cfg.num_attn_heads * cfg.head_dim * 2 <= i32::MAX
    &&& cfg.num_kv_heads * cfg.head_dim <= i32::MAX
    &&& kv_cache_bytes(cfg, kv_bf16) <= u64::MAX
    &&& delta_state_bytes(cfg) <= u64::MAX
}

/// The device context.
pub struct MetalCtx {
    pub pipelines: Pipelines,
    /// Length in bytes of each buffer.
    pub lens: Vec<u64>,
    /// The weight file, once it is there.
    pub wf_buf: Option<usize>,
    /// Input of a projection.
    pub buf_input: usize,
    /// Output of a projection.
    pub buf_output: usize,
    /// Outputs of batched projections.
    pub batch_out: Vec<usize>,
    /// Weights of a single expert.
    pub buf_expert_data: usize,
    pub buf_expert_input: usize,
    pub buf_expert_gate: usize,
    pub buf_expert_up: usize,
    pub buf_expert_act: usize,
    pub buf_expert_out: usize,
    /// Weights of the experts of a token, in two sets.
    pub buf_multi_expert_data: Vec<usize>,
    pub buf_multi_expert_data_b: Vec<usize>,
    pub buf_multi_expert_gate: Vec<usize>,
    pub buf_multi_expert_up: Vec<usize>,
    pub buf_multi_expert_act: Vec<usize>,
    pub buf_multi_expert_out: Vec<usize>,
    pub buf_multi_expert_input: usize,
    /// The shared expert.
    pub buf_shared_gate: usize,
    pub buf_shared_up: usize,
    pub buf_shared_act: usize,
    pub buf_shared_out: usize,
    /// Routing.
    pub buf_residual: usize,
    pub buf_h_mid: usize,
    pub buf_sum_sq: usize,
    /// Combination of the experts.
    pub buf_moe_hidden: usize,
    pub buf_combine_params: usize,
    pub buf_cmd3_sum_sq: usize,
    /// Keys and values of the full-attention layers.
    pub buf_kv_k: Vec<usize>,
    pub buf_kv_v: Vec<usize>,
    /// Attention.
    pub buf_attn_q: usize,
    pub buf_attn_scores: usize,
    pub buf_attn_out: usize,
    pub buf_attn_gate: usize,
    /// States of the linear-attention layers.
    pub buf_delta_state: Vec<usize>,
    pub buf_conv_state: Vec<usize>,
    /// Linear attention.
    pub buf_delta_q: usize,
    pub buf_delta_k: usize,
    pub buf_delta_v: usize,
    pub buf_delta_g_decay: usize,
    pub buf_delta_beta: usize,
    pub buf_delta_output: usize,
    pub buf_conv_input: usize,
    pub buf_conv_output: usize,
}

/// The buffer has the given length.
pub open spec fn has_len(lens: Seq<u64>, id: usize, len: int) -> bool {
    id < lens.len() && lens[id as int] == len
}

/// There are `n` buffers of the given length.
pub open spec fn all_have_len(lens: Seq<u64>, ids: Seq<usize>, n: int, len: int) -> bool {
    &&& ids.len() == n
    &&& forall|i: int| 0 <= i < ids.len() ==> has_len(lens, #[trigger] ids[i], len)
}

impl MetalCtx {
    /// Every working buffer has the length that the model asks for.
    pub open spec fn sized(self, cfg: ModelConfig, kv_bf16: bool) -> bool {
        let l = self.lens@;
        &&& has_len(l, self.buf_input, input_bytes(cfg))
        &&& has_len(l, self.buf_output, output_bytes(cfg))
        &&& all_have_len(l, self.batch_out@, MAX_BATCH_SLOTS as int, batch_bytes(cfg))
        &&& has_len(l, self.buf_expert_data, cfg.expert_size_4bit as int)
        &&& has_len(l, self.buf_expert_input, hidden_bytes(cfg))
        &&& has_len(l, self.buf_expert_gate, inter_bytes(cfg))
        &&& has_len(l, self.buf_expert_up, inter_bytes(cfg))
        &&& has_len(l, self.buf_expert_act, inter_bytes(cfg))
        &&& has_len(l, self.buf_expert_out, hidden_bytes(cfg))
        &&& all_have_len(l, self.buf_multi_expert_data@, MAX_K as int, expert_alloc_bytes(cfg))
        &&& all_have_len(l, self.buf_multi_expert_data_b@, MAX_K as int, expert_alloc_bytes(cfg))
        &&& all_have_len(l, self.buf_multi_expert_gate@, MAX_K as int, inter_bytes(cfg))
        &&& all_have_len(l, self.buf_multi_expert_up@, MAX_K as int, inter_bytes(cfg))
        &&& all_have_len(l, self.buf_multi_expert_act@, MAX_K as int, inter_bytes(cfg))
        &&& all_have_len(l, self.buf_multi_expert_out@, MAX_K as int, hidden_bytes(cfg))
        &&& has_len(l, self.buf_multi_expert_input, hidden_bytes(cfg))
        &&& has_len(l, self.buf_shared_gate, shared_bytes(cfg))
        &&& has_len(l, self.buf_shared_up, shared_bytes(cfg))
        &&& has_len(l, self.buf_shared_act, shared_bytes(cfg))
        &&& has_len(l, self.buf_shared_out, hidden_bytes(cfg))
        &&& has_len(l, self.buf_residual, hidden_bytes(cfg))
        &&& has_len(l, self.buf_h_mid, hidden_bytes(cfg))
        &&& has_len(l, self.buf_sum_sq, 4)
        &&& has_len(l, self.buf_moe_hidden, hidden_bytes(cfg))
        &&& has_len(l, self.buf_combine_params, 40)
        &&& has_len(l, self.buf_cmd3_sum_sq, 4)
        &&& all_have_len(l, self.buf_kv_k@, cfg.num_full_attn_layers as int, kv_cache_bytes(cfg, kv_bf16))
        &&& all_have_len(l, self.buf_kv_v@, cfg.num_full_attn_layers as int, kv_cache_bytes(cfg, kv_bf16))
        &&& has_len(l, self.buf_attn_q, query_bytes(cfg))
        &&& has_len(l, self.buf_attn_scores, score_bytes(cfg))
        &&& has_len(l, self.buf_attn_out, query_bytes(cfg))
        &&& has_len(l, self.buf_attn_gate, query_bytes(cfg))
        &&& all_have_len(l, self.buf_delta_state@, cfg.num_linear_layers as int, delta_state_bytes(cfg))
        &&& all_have_len(l, self.buf_conv_state@, cfg.num_linear_layers as int, conv_state_bytes(cfg))
        &&& has_len(l, self.buf_delta_q, 4 * cfg.linear_total_key)
        &&& has_len(l, self.buf_delta_k, 4 * cfg.linear_total_key)
        &&& has_len(l, self.buf_delta_v, 4 * cfg.linear_total_value)
        &&& has_len(l, self.buf_delta_g_decay, 4 * cfg.linear_num_v_heads)
        &&& has_len(l, self.buf_delta_beta, 4 * cfg.linear_num_v_heads)
        &&& has_len(l, self.buf_delta_output, 4 * cfg.linear_total_value)
        &&& has_len(l, self.buf_conv_input, 4 * cfg.linear_conv_dim)
        &&& has_len(l, self.buf_conv_output, 4 * cfg.linear_conv_dim)
    }

    /// The working buffers, in the order of the list of lengths.
    pub open spec fn handles(self) -> Seq<usize> {
        seq![self.buf_input, self.buf_output]
            + self.batch_out@
            + seq![
                self.buf_expert_data,
                self.buf_expert_input,
                self.buf_expert_gate,
                self.buf_expert_up,
                self.buf_expert_act,
                self.buf_expert_out,
            ]
            + self.buf_multi_expert_data@
            + self.buf_multi_expert_data_b@
            + self.buf_multi_expert_gate@
            + self.buf_multi_expert_up@
            + self.buf_multi_expert_act@
            + self.buf_multi_expert_out@
            + seq![
                self.buf_multi_expert_input,
                self.buf_shared_gate,
                self.buf_shared_up,
                self.buf_shared_act,
                self.buf_shared_out,
                self.buf_residual,
                self.buf_h_mid,
                self.buf_sum_sq,
                self.buf_moe_hidden,
                self.buf_combine_params,
                self.buf_cmd3_sum_sq,
            ]
            + self.buf_kv_k@
            + self.buf_kv_v@
            + seq![self.buf_attn_q, self.buf_attn_scores, self.buf_attn_out, self.buf_attn_gate]
            + self.buf_delta_state@
            + self.buf_conv_state@
            + seq![
                self.buf_delta_q,
                self.buf_delta_k,
                self.buf_delta_v,
                self.buf_delta_g_decay,
                self.buf_delta_beta,
                self.buf_delta_output,
                self.buf_conv_input,
                self.buf_conv_output,
            ]
    }
}

/// Add a buffer.
fn add_buffer(lens: &mut Vec<u64>, len: u64) -> (id: usize)
    ensures
        id == old(lens)@.len(),
        final(lens)@ == old(lens)@.push(len),
{
    let id: usize = lens.len();
    lens.push(len);
    id
}

/// Add `n` buffers.
fn add_buffers(lens: &mut Vec<u64>, n: usize, len: u64) -> (ids: Vec<usize>)
    ensures
        ids@.len() == n,
        final(lens)@.len() == old(lens)@.len() + n,
        forall|i: int| 0 <= i < n ==> #[trigger] ids@[i] == old(lens)@.len() + i,
        forall|i: int| 0 <= i < old(lens)@.len() ==> final(lens)@[i] == old(lens)@[i],
        forall|i: int|
            old(lens)@.len() <= i < final(lens)@.len() ==> #[trigger] final(lens)@[i] == len,
{
    let mut ids: Vec<usize> = Vec::new();
    for i in 0..n
        invariant
            ids@.len() == i,
            lens@.len() == old(lens)@.len() + i,
            forall|j: int| 0 <= j < i ==> #[trigger] ids@[j] == old(lens)@.len() + j,
            forall|j: int| 0 <= j < old(lens)@.len() ==> lens@[j] == old(lens)@[j],
            forall|j: int| old(lens)@.len() <= j < lens@.len() ==> #[trigger] lens@[j] == len,
    {
        let id: usize = add_buffer(lens, len);
        ids.push(id);
    }
    ids
}
/// The numbers are consecutive from a first one on.
pub open spec fn consecutive(ids: Seq<usize>, first: int) -> bool {
    forall|i: int| 0 <= i < ids.len() ==> #[trigger] ids[i] == first + i
}

impl MetalCtx {
    /// The place of each buffer in the list of lengths.
    pub open spec fn placed(self, cfg: ModelConfig) -> bool {
        let f = cfg.num_full_attn_layers as int;
        let l = cfg.num_linear_layers as int;
        &&& self.buf_input == 0
        &&& self.buf_output == 1
        &&& consecutive(self.batch_out@, 2)
        &&& self.buf_expert_data == 10
        &&& self.buf_expert_input == 11
        &&& self.buf_expert_gate == 12
        &&& self.buf_expert_up == 13
        &&& self.buf_expert_act == 14
        &&& self.buf_expert_out == 15
        &&& consecutive(self.buf_multi_expert_data@, 16)
        &&& consecutive(self.buf_multi_expert_data_b@, 24)
        &&& consecutive(self.buf_multi_expert_gate@, 32)
        &&& consecutive(self.buf_multi_expert_up@, 40)
        &&& consecutive(self.buf_multi_expert_act@, 48)
        &&& consecutive(self.buf_multi_expert_out@, 56)
        &&& self.buf_multi_expert_input == 64
        &&& self.buf_shared_gate == 65
        &&& self.buf_shared_up == 66
        &&& self.buf_shared_act == 67
        &&& self.buf_shared_out == 68
        &&& self.buf_residual == 69
        &&& self.buf_h_mid == 70
        &&& self.buf_sum_sq == 71
        &&& self.buf_moe_hidden == 72
        &&& self.buf_combine_params == 73
        &&& self.buf_cmd3_sum_sq == 74
        &&& consecutive(self.buf_kv_k@, 75)
        &&& consecutive(self.buf_kv_v@, 75 + f)
        &&& self.buf_attn_q == 75 + 2 * f
        &&& self.buf_attn_scores == 76 + 2 * f
        &&& self.buf_attn_out == 77 + 2 * f
        &&& self.buf_attn_gate == 78 + 2 * f
        &&& consecutive(self.buf_delta_state@, 79 + 2 * f)
        &&& consecutive(self.buf_conv_state@, 79 + 2 * f + l)
        &&& self.buf_delta_q == 79 + 2 * f + 2 * l
        &&& self.buf_delta_k == 80 + 2 * f + 2 * l
        &&& self.buf_delta_v == 81 + 2 * f + 2 * l
        &&& self.buf_delta_g_decay == 82 + 2 * f + 2 * l
        &&& self.buf_delta_beta == 83 + 2 * f + 2 * l
        &&& self.buf_delta_output == 84 + 2 * f + 2 * l
        &&& self.buf_conv_input == 85 + 2 * f + 2 * l
        &&& self.buf_conv_output == 86 + 2 * f + 2 * l
    }
}

proof fn lemma_consecutive(a: Seq<usize>, b: Seq<usize>)
    requires
        consecutive(a, 0),
        consecutive(b, a.len() as int),
    ensures
        consecutive(a + b, 0),
{
    assert forall|i: int| 0 <= i < (a + b).len() implies #[trigger] (a + b)[i] == i by {
        if i >= a.len() {
            assert((a + b)[i] == b[i - a.len()]);
        }
    }
}

/// A context that was laid out for a model uses each buffer for one purpose.
pub proof fn law_buffers_disjoint(c: MetalCtx, cfg: ModelConfig, kv_bf16: bool)
    requires
        c.sized(cfg, kv_bf16),
        c.placed(cfg),
        sizes_fit(cfg, kv_bf16),
    ensures
        consecutive(c.handles(), 0),
{
    let h0 = seq![c.buf_input, c.buf_output];
    let p1 = c.batch_out@;
    assert(consecutive(p1, h0.len() as int));
    lemma_consecutive(h0, p1);
    let h1 = h0 + p1;
    let p2 = seq![
        c.buf_expert_data,
        c.buf_expert_input,
        c.buf_expert_gate,
        c.buf_expert_up,
        c.buf_expert_act,
        c.buf_expert_out,
    ];
    assert(consecutive(p2, h1.len() as int));
    lemma_consecutive(h1, p2);
    let h2 = h1 + p2;
    let p3 = c.buf_multi_expert_data@;
    assert(consecutive(p3, h2.len() as int));
    lemma_consecutive(h2, p3);
    let h3 = h2 + p3;
    let p4 = c.buf_multi_expert_data_b@;
    assert(consecutive(p4, h3.len() as int));
    lemma_consecutive(h3, p4);
    let h4 = h3 + p4;
    let p5 = c.buf_multi_expert_gate@;
    assert(consecutive(p5, h4.len() as int));
    lemma_consecutive(h4, p5);
    let h5 = h4 + p5;
    let p6 = c.buf_multi_expert_up@;
    assert(consecutive(p6, h5.len() as int));
    lemma_consecutive(h5, p6);
    let h6 = h5 + p6;
    let p7 = c.buf_multi_expert_act@;
    assert(consecutive(p7, h6.len() as int));
    lemma_consecutive(h6, p7);
    let h7 = h6 + p7;
    let p8 = c.buf_multi_expert_out@;
    assert(consecutive(p8, h7.len() as int));
    lemma_consecutive(h7, p8);
    let h8 = h7 + p8;
    let p9 = seq![
        c.buf_multi_expert_input,
        c.buf_shared_gate,
        c.buf_shared_up,
        c.buf_shared_act,
        c.buf_shared_out,
        c.buf_residual,
        c.buf_h_mid,
        c.buf_sum_sq,
        c.buf_moe_hidden,
        c.buf_combine_params,
        c.buf_cmd3_sum_sq,
    ];
    assert(consecutive(p9, h8.len() as int));
    lemma_consecutive(h8, p9);
    let h9 = h8 + p9;
    let p10 = c.buf_kv_k@;
    assert(consecutive(p10, h9.len() as int));
    lemma_consecutive(h9, p10);
    let h10 = h9 + p10;
    let p11 = c.buf_kv_v@;
    assert(consecutive(p11, h10.len() as int));
    lemma_consecutive(h10, p11);
    let h11 = h10 + p11;
    let p12 = seq![c.buf_attn_q, c.buf_attn_scores, c.buf_attn_out, c.buf_attn_gate];
    assert(consecutive(p12, h11.len() as int));
    lemma_consecutive(h11, p12);
    let h12 = h11 + p12;
    let p13 = c.buf_delta_state@;
    assert(consecutive(p13, h12.len() as int));
    lemma_consecutive(h12, p13);
    let h13 = h12 + p13;
    let p14 = c.buf_conv_state@;
    assert(consecutive(p14, h13.len() as int));
    lemma_consecutive(h13, p14);
    let h14 = h13 + p14;
    let p15 = seq![
        c.buf_delta_q,
        c.buf_delta_k,
        c.buf_delta_v,
        c.buf_delta_g_decay,
        c.buf_delta_beta,
        c.buf_delta_output,
        c.buf_conv_input,
        c.buf_conv_output,
    ];
    assert(consecutive(p15, h14.len() as int));
    lemma_consecutive(h14, p15);
    let h15 = h14 + p15;
    assert(c.handles() =~= h15);
}

/// Lengths of the working buffers, in bytes.
struct BufferSizes {
    input: u64,
    output: u64,
    batch: u64,
    hidden: u64,
    inter: u64,
    shared: u64,
    expert_single: u64,
    expert: u64,
    kv_cache: u64,
    query: u64,
    scores: u64,
    delta_state: u64,
    conv_state: u64,
    total_key: u64,
    total_value: u64,
    v_heads: u64,
    conv: u64,
}

/// Compute the lengths of the working buffers.
fn buffer_sizes(cfg: &ModelConfig, kv_bf16: bool) -> (z: BufferSizes)
    requires
        sizes_fit(*cfg, kv_bf16),
    ensures
        z.input == input_bytes(*cfg),
        z.output == output_bytes(*cfg),
        z.batch == batch_bytes(*cfg),
        z.hidden == hidden_bytes(*cfg),
        z.inter == inter_bytes(*cfg),
        z.shared == shared_bytes(*cfg),
        z.expert_single == cfg.expert_size_4bit,
        z.expert == expert_alloc_bytes(*cfg),
        z.kv_cache == kv_cache_bytes(*cfg, kv_bf16),
        z.query == query_bytes(*cfg),
        z.scores == score_bytes(*cfg),
        z.delta_state == delta_state_bytes(*cfg),
        z.conv_state == conv_state_bytes(*cfg),
        z.total_key == 4 * cfg.linear_total_key,
        z.total_value == 4 * cfg.linear_total_value,
        z.v_heads == 4 * cfg.linear_num_v_heads,
        z.conv == 4 * cfg.linear_conv_dim,
{
    let heads: u64 = cfg.num_attn_heads as u64;
    let head_dim: u64 = cfg.head_dim as u64;
    let kv_heads: u64 = cfg.num_kv_heads as u64;
    let seq: u64 = cfg.gpu_kv_seq as u64;
    let vh: u64 = cfg.linear_num_v_heads as u64;
    let vd: u64 = cfg.linear_value_dim as u64;
    let kd: u64 = cfg.linear_key_dim as u64;
    proof {
        assert(0 <= heads * head_dim <= i32::MAX) by (nonlinear_arith)
            requires
                heads * head_dim * 2 <= i32::MAX,
                0 <= heads,
                0 <= head_dim,
        ;
        assert(0 <= kv_heads * head_dim) by (nonlinear_arith)
            requires
                0 <= kv_heads,
                0 <= head_dim,
        ;
        let kv = kv_heads * head_dim;
        assert(0 <= seq * kv <= i32::MAX * i32::MAX) by (nonlinear_arith)
            requires
                0 <= seq <= i32::MAX,
                0 <= kv <= i32::MAX,
        ;
        assert(0 <= heads * seq <= i32::MAX * i32::MAX) by (nonlinear_arith)
            requires
                0 <= seq <= i32::MAX,
                0 <= heads <= i32::MAX,
        ;
        assert(0 <= vh * vd <= i32::MAX * i32::MAX) by (nonlinear_arith)
            requires
                0 <= vh <= i32::MAX,
                0 <= vd <= i32::MAX,
        ;
        let state = vh * vd;
        assert(0 <= state * kd) by (nonlinear_arith)
            requires
                0 <= state,
                0 <= kd,
        ;
    }
    let q: u64 = heads * head_dim;
    let input: u64 = if cfg.linear_total_value as u64 >= q {
        cfg.linear_total_value as u64 * 4
    } else {
        q * 4
    };
    let batch: u64 = if 2 * q >= cfg.linear_conv_dim as u64 {
        2 * q * 4
    } else {
        cfg.linear_conv_dim as u64 * 4
    };
    let expert: u64 = (cfg.expert_size_4bit as u64 + (EXPERT_ALLOC_UNIT - 1)) / EXPERT_ALLOC_UNIT
        * EXPERT_ALLOC_UNIT;
    let elem_size: u64 = if kv_bf16 {
        2
    } else {
        4
    };
    let kv_cache: u64 = seq * (kv_heads * head_dim) * elem_size;
    BufferSizes {
        input,
        output: cfg.vocab_size as u64 * 4,
        batch,
        hidden: cfg.hidden_dim as u64 * 4,
        inter: cfg.moe_intermediate as u64 * 4,
        shared: cfg.shared_intermediate as u64 * 4,
        expert_single: cfg.expert_size_4bit as u64,
        expert,
        kv_cache,
        query: q * 4,
        scores: heads * seq * 4,
        delta_state: vh * vd * kd * 4,
        conv_state: 3 * cfg.linear_conv_dim as u64 * 4,
        total_key: cfg.linear_total_key as u64 * 4,
        total_value: cfg.linear_total_value as u64 * 4,
        v_heads: vh * 4,
        conv: cfg.linear_conv_dim as u64 * 4,
    }
}

/// The buffers of projections and of a single expert.
struct ProjectionPart {
    buf_input: usize,
    buf_output: usize,
    batch_out: Vec<usize>,
    buf_expert_data: usize,
    buf_expert_input: usize,
    buf_expert_gate: usize,
    buf_expert_up: usize,
    buf_expert_act: usize,
    buf_expert_out: usize,
}

/// Add the buffers of projections and of a single expert.
fn add_projection_part(lens: &mut Vec<u64>, z: &BufferSizes) -> (r: ProjectionPart)
    ensures
        final(lens)@.len() == old(lens)@.len() + 16,
        forall|i: int| 0 <= i < old(lens)@.len() ==> #[trigger] final(lens)@[i] == old(lens)@[i],
        r.buf_input == old(lens)@.len(),
        has_len(final(lens)@, r.buf_input, z.input as int),
        r.buf_output == old(lens)@.len() + 1,
        has_len(final(lens)@, r.buf_output, z.output as int),
        consecutive(r.batch_out@, old(lens)@.len() + 2int),
        all_have_len(final(lens)@, r.batch_out@, MAX_BATCH_SLOTS as int, z.batch as int),
        r.buf_expert_data == old(lens)@.len() + 10,
        has_len(final(lens)@, r.buf_expert_data, z.expert_single as int),
        r.buf_expert_input == old(lens)@.len() + 11,
        has_len(final(lens)@, r.buf_expert_input, z.hidden as int),
        r.buf_expert_gate == old(lens)@.len() + 12,
        has_len(final(lens)@, r.buf_expert_gate, z.inter as int),
        r.buf_expert_up == old(lens)@.len() + 13,
        has_len(final(lens)@, r.buf_expert_up, z.inter as int),
        r.buf_expert_act == old(lens)@.len() + 14,
        has_len(final(lens)@, r.buf_expert_act, z.inter as int),
        r.buf_expert_out == old(lens)@.len() + 15,
        has_len(final(lens)@, r.buf_expert_out, z.hidden as int),
{
    let buf_input: usize = add_buffer(lens, z.input);
    let buf_output: usize = add_buffer(lens, z.output);
    let batch_out: Vec<usize> = add_buffers(lens, MAX_BATCH_SLOTS, z.batch);
    let buf_expert_data: usize = add_buffer(lens, z.expert_single);
    let buf_expert_input: usize = add_buffer(lens, z.hidden);
    let buf_expert_gate: usize = add_buffer(lens, z.inter);
    let buf_expert_up: usize = add_buffer(lens, z.inter);
    let buf_expert_act: usize = add_buffer(lens, z.inter);
    let buf_expert_out: usize = add_buffer(lens, z.hidden);
    ProjectionPart {
        buf_input,
        buf_output,
        batch_out,
        buf_expert_data,
        buf_expert_input,
        buf_expert_gate,
        buf_expert_up,
        buf_expert_act,
        buf_expert_out,
    }
}

/// The buffers of the experts of a token.
struct ExpertPart {
    buf_multi_expert_data: Vec<usize>,
    buf_multi_expert_data_b: Vec<usize>,
    buf_multi_expert_gate: Vec<usize>,
    buf_multi_expert_up: Vec<usize>,
    buf_multi_expert_act: Vec<usize>,
    buf_multi_expert_out: Vec<usize>,
    buf_multi_expert_input: usize,
}

/// Add the buffers of the experts of a token.
fn add_expert_part(lens: &mut Vec<u64>, z: &BufferSizes) -> (r: ExpertPart)
    ensures
        final(lens)@.len() == old(lens)@.len() + 49,
        forall|i: int| 0 <= i < old(lens)@.len() ==> #[trigger] final(lens)@[i] == old(lens)@[i],
        consecutive(r.buf_multi_expert_data@, old(lens)@.len() as int),
        all_have_len(final(lens)@, r.buf_multi_expert_data@, MAX_K as int, z.expert as int),
        consecutive(r.buf_multi_expert_data_b@, old(lens)@.len() + 8int),
        all_have_len(final(lens)@, r.buf_multi_expert_data_b@, MAX_K as int, z.expert as int),
        consecutive(r.buf_multi_expert_gate@, old(lens)@.len() + 16int),
        all_have_len(final(lens)@, r.buf_multi_expert_gate@, MAX_K as int, z.inter as int),
        consecutive(r.buf_multi_expert_up@, old(lens)@.len() + 24int),
        all_have_len(final(lens)@, r.buf_multi_expert_up@, MAX_K as int, z.inter as int),
        consecutive(r.buf_multi_expert_act@, old(lens)@.len() + 32int),
        all_have_len(final(lens)@, r.buf_multi_expert_act@, MAX_K as int, z.inter as int),
        consecutive(r.buf_multi_expert_out@, old(lens)@.len() + 40int),
        all_have_len(final(lens)@, r.buf_multi_expert_out@, MAX_K as int, z.hidden as int),
        r.buf_multi_expert_input == old(lens)@.len() + 48,
        has_len(final(lens)@, r.buf_multi_expert_input, z.hidden as int),
{
    let buf_multi_expert_data: Vec<usize> = add_buffers(lens, MAX_K, z.expert);
    let buf_multi_expert_data_b: Vec<usize> = add_buffers(lens, MAX_K, z.expert);
    let buf_multi_expert_gate: Vec<usize> = add_buffers(lens, MAX_K, z.inter);
    let buf_multi_expert_up: Vec<usize> = add_buffers(lens, MAX_K, z.inter);
    let buf_multi_expert_act: Vec<usize> = add_buffers(lens, MAX_K, z.inter);
    let buf_multi_expert_out: Vec<usize> = add_buffers(lens, MAX_K, z.hidden);
    let buf_multi_expert_input: usize = add_buffer(lens, z.hidden);
    ExpertPart {
        buf_multi_expert_data,
        buf_multi_expert_data_b,
        buf_multi_expert_gate,
        buf_multi_expert_up,
        buf_multi_expert_act,
        buf_multi_expert_out,
        buf_multi_expert_input,
    }
}

/// The buffers of the shared expert, of routing and of the combination.
struct RoutingPart {
    buf_shared_gate: usize,
    buf_shared_up: usize,
    buf_shared_act: usize,
    buf_shared_out: usize,
    buf_residual: usize,
    buf_h_mid: usize,
    buf_sum_sq: usize,
    buf_moe_hidden: usize,
    buf_combine_params: usize,
    buf_cmd3_sum_sq: usize,
}

/// Add the buffers of the shared expert, of routing and of the combination.
fn add_routing_part(lens: &mut Vec<u64>, z: &BufferSizes) -> (r: RoutingPart)
    ensures
        final(lens)@.len() == old(lens)@.len() + 10,
        forall|i: int| 0 <= i < old(lens)@.len() ==> #[trigger] final(lens)@[i] == old(lens)@[i],
        r.buf_shared_gate == old(lens)@.len(),
        has_len(final(lens)@, r.buf_shared_gate, z.shared as int),
        r.buf_shared_up == old(lens)@.len() + 1,
        has_len(final(lens)@, r.buf_shared_up, z.shared as int),
        r.buf_shared_act == old(lens)@.len() + 2,
        has_len(final(lens)@, r.buf_shared_act, z.shared as int),
        r.buf_shared_out == old(lens)@.len() + 3,
        has_len(final(lens)@, r.buf_shared_out, z.hidden as int),
        r.buf_residual == old(lens)@.len() + 4,
        has_len(final(lens)@, r.buf_residual, z.hidden as int),
        r.buf_h_mid == old(lens)@.len() + 5,
        has_len(final(lens)@, r.buf_h_mid, z.hidden as int),
        r.buf_sum_sq == old(lens)@.len() + 6,
        has_len(final(lens)@, r.buf_sum_sq, 4 as int),
        r.buf_moe_hidden == old(lens)@.len() + 7,
        has_len(final(lens)@, r.buf_moe_hidden, z.hidden as int),
        r.buf_combine_params == old(lens)@.len() + 8,
        has_len(final(lens)@, r.buf_combine_params, 40 as int),
        r.buf_cmd3_sum_sq == old(lens)@.len() + 9,
        has_len(final(lens)@, r.buf_cmd3_sum_sq, 4 as int),
{
    let buf_shared_gate: usize = add_buffer(lens, z.shared);
    let buf_shared_up: usize = add_buffer(lens, z.shared);
    let buf_shared_act: usize = add_buffer(lens, z.shared);
    let buf_shared_out: usize = add_buffer(lens, z.hidden);
    let buf_residual: usize = add_buffer(lens, z.hidden);
    let buf_h_mid: usize = add_buffer(lens, z.hidden);
    let buf_sum_sq: usize = add_buffer(lens, 4);
    let buf_moe_hidden: usize = add_buffer(lens, z.hidden);
    let buf_combine_params: usize = add_buffer(lens, 40);
    let buf_cmd3_sum_sq: usize = add_buffer(lens, 4);
    RoutingPart {
        buf_shared_gate,
        buf_shared_up,
        buf_shared_act,
        buf_shared_out,
        buf_residual,
        buf_h_mid,
        buf_sum_sq,
        buf_moe_hidden,
        buf_combine_params,
        buf_cmd3_sum_sq,
    }
}

/// The buffers of full attention.
struct AttentionPart {
    buf_kv_k: Vec<usize>,
    buf_kv_v: Vec<usize>,
    buf_attn_q: usize,
    buf_attn_scores: usize,
    buf_attn_out: usize,
    buf_attn_gate: usize,
}

/// Add the buffers of full attention.
fn add_attention_part(lens: &mut Vec<u64>, z: &BufferSizes, n: usize) -> (r: AttentionPart)
    ensures
        final(lens)@.len() == old(lens)@.len() + 4 + 2 * n,
        forall|i: int| 0 <= i < old(lens)@.len() ==> #[trigger] final(lens)@[i] == old(lens)@[i],
        consecutive(r.buf_kv_k@, old(lens)@.len() as int),
        all_have_len(final(lens)@, r.buf_kv_k@, n as int, z.kv_cache as int),
        consecutive(r.buf_kv_v@, old(lens)@.len() + n),
        all_have_len(final(lens)@, r.buf_kv_v@, n as int, z.kv_cache as int),
        r.buf_attn_q == old(lens)@.len() + 2 * n,
        has_len(final(lens)@, r.buf_attn_q, z.query as int),
        r.buf_attn_scores == old(lens)@.len() + 1 + 2 * n,
        has_len(final(lens)@, r.buf_attn_scores, z.scores as int),
        r.buf_attn_out == old(lens)@.len() + 2 + 2 * n,
        has_len(final(lens)@, r.buf_attn_out, z.query as int),
        r.buf_attn_gate == old(lens)@.len() + 3 + 2 * n,
        has_len(final(lens)@, r.buf_attn_gate, z.query as int),
{
    let buf_kv_k: Vec<usize> = add_buffers(lens, n, z.kv_cache);
    let buf_kv_v: Vec<usize> = add_buffers(lens, n, z.kv_cache);
    let buf_attn_q: usize = add_buffer(lens, z.query);
    let buf_attn_scores: usize = add_buffer(lens, z.scores);
    let buf_attn_out: usize = add_buffer(lens, z.query);
    let buf_attn_gate: usize = add_buffer(lens, z.query);
    AttentionPart { buf_kv_k, buf_kv_v, buf_attn_q, buf_attn_scores, buf_attn_out, buf_attn_gate }
}

/// The buffers of linear attention.
struct LinearPart {
    buf_delta_state: Vec<usize>,
    buf_conv_state: Vec<usize>,
    buf_delta_q: usize,
    buf_delta_k: usize,
    buf_delta_v: usize,
    buf_delta_g_decay: usize,
    buf_delta_beta: usize,
    buf_delta_output: usize,
    buf_conv_input: usize,
    buf_conv_output: usize,
}

/// Add the buffers of linear attention.
fn add_linear_part(lens: &mut Vec<u64>, z: &BufferSizes, n: usize) -> (r: LinearPart)
    ensures
        final(lens)@.len() == old(lens)@.len() + 8 + 2 * n,
        forall|i: int| 0 <= i < old(lens)@.len() ==> #[trigger] final(lens)@[i] == old(lens)@[i],
        consecutive(r.buf_delta_state@, old(lens)@.len() as int),
        all_have_len(final(lens)@, r.buf_delta_state@, n as int, z.delta_state as int),
        consecutive(r.buf_conv_state@, old(lens)@.len() + n),
        all_have_len(final(lens)@, r.buf_conv_state@, n as int, z.conv_state as int),
        r.buf_delta_q == old(lens)@.len() + 2 * n,
        has_len(final(lens)@, r.buf_delta_q, z.total_key as int),
        r.buf_delta_k == old(lens)@.len() + 1 + 2 * n,
        has_len(final(lens)@, r.buf_delta_k, z.total_key as int),
        r.buf_delta_v == old(lens)@.len() + 2 + 2 * n,
        has_len(final(lens)@, r.buf_delta_v, z.total_value as int),
        r.buf_delta_g_decay == old(lens)@.len() + 3 + 2 * n,
        has_len(final(lens)@, r.buf_delta_g_decay, z.v_heads as int),
        r.buf_delta_beta == old(lens)@.len() + 4 + 2 * n,
        has_len(final(lens)@, r.buf_delta_beta, z.v_heads as int),
        r.buf_delta_output == old(lens)@.len() + 5 + 2 * n,
        has_len(final(lens)@, r.buf_delta_output, z.total_value as int),
        r.buf_conv_input == old(lens)@.len() + 6 + 2 * n,
        has_len(final(lens)@, r.buf_conv_input, z.conv as int),
        r.buf_conv_output == old(lens)@.len() + 7 + 2 * n,
        has_len(final(lens)@, r.buf_conv_output, z.conv as int),
{
    let buf_delta_state: Vec<usize> = add_buffers(lens, n, z.delta_state);
    let buf_conv_state: Vec<usize> = add_buffers(lens, n, z.conv_state);
    let buf_delta_q: usize = add_buffer(lens, z.total_key);
    let buf_delta_k: usize = add_buffer(lens, z.total_key);
    let buf_delta_v: usize = add_buffer(lens, z.total_value);
    let buf_delta_g_decay: usize = add_buffer(lens, z.v_heads);
    let buf_delta_beta: usize = add_buffer(lens, z.v_heads);
    let buf_delta_output: usize = add_buffer(lens, z.total_value);
    let buf_conv_input: usize = add_buffer(lens, z.conv);
    let buf_conv_output: usize = add_buffer(lens, z.conv);
    LinearPart {
        buf_delta_state,
        buf_conv_state,
        buf_delta_q,
        buf_delta_k,
        buf_delta_v,
        buf_delta_g_decay,
        buf_delta_beta,
        buf_delta_output,
        buf_conv_input,
        buf_conv_output,
    }
}

impl MetalCtx {
    /// Look at what a search for a device found, and lay out the buffers for a model. There
    /// must be a device, the shaders must compile, and the required pipelines must exist.
    /// The tiled matvec stands in where its wider form is missing.
    pub fn new(cfg: &ModelConfig, kv_bf16: bool, report: DeviceReport) -> (r: Result<Self, String>)
        requires
            sizes_fit(*cfg, kv_bf16),
        ensures
            match report {
                DeviceReport::NotFound => r matches Err(e) && e@ == "ERROR: No Metal device found"@,
                DeviceReport::ShaderError(reason) => r matches Err(e) && e@
                    == "ERROR: Shader compile failed: "@ + debug_view(reason@),
                DeviceReport::Ready(p) => match p.first_missing() {
                    Some(name) => r matches Err(e) && e@ == "ERROR: Required pipeline missing: "@
                        + name,
                    None => {
                        &&& r matches Ok(c)
                        &&& c.pipelines == p
                        &&& c.wf_buf is None
                        &&& c.lens@.len() == c.handles().len()
                        &&& c.sized(*cfg, kv_bf16)
                        &&& c.placed(*cfg)
                    },
                },
            },
    {
        let pipelines = match report {
            DeviceReport::NotFound => {
                return Err(String::from_str("ERROR: No Metal device found"));
            },
            DeviceReport::ShaderError(reason) => {
                let quoted = debug_text(reason.as_str());
                let text = String::from_str("ERROR: Shader compile failed: ").concat(
                    quoted.as_str(),
                );
                return Err(text);
            },
            DeviceReport::Ready(p) => p,
        };
        if let Some(name) = pipelines.missing() {
            return Err(String::from_str("ERROR: Required pipeline missing: ").concat(name));
        }
        let z = buffer_sizes(cfg, kv_bf16);
        let full: usize = cfg.num_full_attn_layers as usize;
        let linear: usize = cfg.num_linear_layers as usize;
        let mut lens: Vec<u64> = Vec::new();
        let p = add_projection_part(&mut lens, &z);
        let e = add_expert_part(&mut lens, &z);
        let o = add_routing_part(&mut lens, &z);
        let a = add_attention_part(&mut lens, &z, full);
        let d = add_linear_part(&mut lens, &z, linear);
        Ok(MetalCtx {
            pipelines,
            lens,
            wf_buf: None,
            buf_input: p.buf_input,
            buf_output: p.buf_output,
            batch_out: p.batch_out,
            buf_expert_data: p.buf_expert_data,
            buf_expert_input: p.buf_expert_input,
            buf_expert_gate: p.buf_expert_gate,
            buf_expert_up: p.buf_expert_up,
            buf_expert_act: p.buf_expert_act,
            buf_expert_out: p.buf_expert_out,
            buf_multi_expert_data: e.buf_multi_expert_data,
            buf_multi_expert_data_b: e.buf_multi_expert_data_b,
            buf_multi_expert_gate: e.buf_multi_expert_gate,
            buf_multi_expert_up: e.buf_multi_expert_up,
            buf_multi_expert_act: e.buf_multi_expert_act,
            buf_multi_expert_out: e.buf_multi_expert_out,
            buf_multi_expert_input: e.buf_multi_expert_input,
            buf_shared_gate: o.buf_shared_gate,
            buf_shared_up: o.buf_shared_up,
            buf_shared_act: o.buf_shared_act,
            buf_shared_out: o.buf_shared_out,
            buf_residual: o.buf_residual,
            buf_h_mid: o.buf_h_mid,
            buf_sum_sq: o.buf_sum_sq,
            buf_moe_hidden: o.buf_moe_hidden,
            buf_combine_params: o.buf_combine_params,
            buf_cmd3_sum_sq: o.buf_cmd3_sum_sq,
            buf_kv_k: a.buf_kv_k,
            buf_kv_v: a.buf_kv_v,
            buf_attn_q: a.buf_attn_q,
            buf_attn_scores: a.buf_attn_scores,
            buf_attn_out: a.buf_attn_out,
            buf_attn_gate: a.buf_attn_gate,
            buf_delta_state: d.buf_delta_state,
            buf_conv_state: d.buf_conv_state,
            buf_delta_q: d.buf_delta_q,
            buf_delta_k: d.buf_delta_k,
            buf_delta_v: d.buf_delta_v,
            buf_delta_g_decay: d.buf_delta_g_decay,
            buf_delta_beta: d.buf_delta_beta,
            buf_delta_output: d.buf_delta_output,
            buf_conv_input: d.buf_conv_input,
            buf_conv_output: d.buf_conv_output,
        })
    }

    /// Make the weight file known: it becomes one more buffer, of whole pages.
    pub fn set_weights(&mut self, size: usize) -> (id: usize)
        requires
            size + crate::expert_cache::PAGE_SIZE - 1 <= usize::MAX,
        ensures
            id == old(self).lens@.len(),
            final(self).lens@ == old(self).lens@.push(page_aligned(size as int) as u64),
            *final(self) == (MetalCtx {
                wf_buf: Some(id),
                lens: final(self).lens,
                ..*old(self)
            }),
    {
        let aligned_size: usize = align_to_page(size);
        let id: usize = add_buffer(&mut self.lens, aligned_size as u64);
        self.wf_buf = Some(id);
        id
    }

    /// The buffers that a reset of the linear-attention states fills with zeros: for each layer
    /// its recurrent state and its convolution state.
    pub fn reset_delta_net_state(&self, cfg: &ModelConfig) -> (r: Vec<(usize, usize)>)
        requires
            0 <= cfg.num_linear_layers <= self.buf_delta_state@.len(),
            cfg.num_linear_layers <= self.buf_conv_state@.len(),
        ensures
            r@ == Seq::new(
                cfg.num_linear_layers as nat,
                |i: int| (self.buf_delta_state@[i], self.buf_conv_state@[i]),
            ),
    {
        let mut r: Vec<(usize, usize)> = Vec::new();
        let n: usize = cfg.num_linear_layers as usize;
        for i in 0..n
            invariant
                n == cfg.num_linear_layers,
                n <= self.buf_delta_state@.len(),
                n <= self.buf_conv_state@.len(),
                r@ == Seq::new(
                    i as nat,
                    |j: int| (self.buf_delta_state@[j], self.buf_conv_state@[j]),
                ),
        {
            r.push((self.buf_delta_state[i], self.buf_conv_state[i]));
        }
        r
    }
}

/// Every buffer holds what its kernels read or write, four bytes a number: the input both the
/// gated values and a query vector, a batch slot both the queries with their gates and the input
/// of the convolution, and neither more than the larger of the two; an expert's buffer the whole
/// expert, in units of two megabytes; caches a key or value head for each position; states three
/// past inputs a channel, and a matrix a value head.
pub proof fn law_buffers_hold(cfg: ModelConfig, kv_bf16: bool)
    requires
        sizes_fit(cfg, kv_bf16),
    ensures
        ({
            let q = cfg.num_attn_heads * cfg.head_dim;
            let kv = cfg.num_kv_heads * cfg.head_dim;
            let alloc = expert_alloc_bytes(cfg);
            &&& input_bytes(cfg) >= 4 * cfg.linear_total_value
            &&& input_bytes(cfg) >= 4 * q
            &&& input_bytes(cfg) == 4 * cfg.linear_total_value || input_bytes(cfg) == 4 * q
            &&& batch_bytes(cfg) >= 4 * (2 * q)
            &&& batch_bytes(cfg) >= 4 * cfg.linear_conv_dim
            &&& batch_bytes(cfg) == 4 * (2 * q) || batch_bytes(cfg) == 4 * cfg.linear_conv_dim
            &&& alloc % 0x20_0000 == 0
            &&& cfg.expert_size_4bit <= alloc < cfg.expert_size_4bit + 0x20_0000
            &&& kv_cache_bytes(cfg, true) == 2 * (cfg.gpu_kv_seq * kv)
            &&& kv_cache_bytes(cfg, false) == 4 * (cfg.gpu_kv_seq * kv)
            &&& query_bytes(cfg) == 4 * q
            &&& score_bytes(cfg) == 4 * (cfg.num_attn_heads * cfg.gpu_kv_seq)
            &&& delta_state_bytes(cfg) == 4 * (cfg.linear_num_v_heads * cfg.linear_value_dim
                * cfg.linear_key_dim)
            &&& conv_state_bytes(cfg) == 12 * cfg.linear_conv_dim
            &&& hidden_bytes(cfg) == 4 * cfg.hidden_dim
            &&& inter_bytes(cfg) == 4 * cfg.moe_intermediate
            &&& shared_bytes(cfg) == 4 * cfg.shared_intermediate
            &&& output_bytes(cfg) == 4 * cfg.vocab_size
        }),
{
    let kv = cfg.num_kv_heads * cfg.head_dim;
    let n = cfg.gpu_kv_seq * kv;
    assert(n * 2 == 2 * n && n * 4 == 4 * n);
}

/// The kernel that is named as missing is one that is not there, and none is named only where all
/// that are needed are there.
pub proof fn law_first_missing(p: Pipelines)
    ensures
        p.first_missing() is None <==> p.matvec_v3 && p.matvec_fast && p.rms_norm_sum
            && p.rms_norm_apply && p.rms_norm_apply_bf16 && p.residual_add && p.swiglu,
        p.first_missing() == Some("dequant_matvec_4bit_v3"@) ==> !p.matvec_v3,
        p.first_missing() == Some("dequant_matvec_4bit_fast"@) ==> !p.matvec_fast,
        p.first_missing() == Some("rms_norm_sum_sq"@) ==> !p.rms_norm_sum,
        p.first_missing() == Some("rms_norm_apply"@) ==> !p.rms_norm_apply,
        p.first_missing() == Some("rms_norm_apply_bf16"@) ==> !p.rms_norm_apply_bf16,
        p.first_missing() == Some("residual_add"@) ==> !p.residual_add,
        p.first_missing() == Some("swiglu_fused"@) ==> !p.swiglu,
{
    reveal_strlit("dequant_matvec_4bit_v3");
    reveal_strlit("dequant_matvec_4bit_fast");
    reveal_strlit("rms_norm_sum_sq");
    reveal_strlit("rms_norm_apply");
    reveal_strlit("rms_norm_apply_bf16");
    reveal_strlit("residual_add");
    reveal_strlit("swiglu_fused");
    assert("dequant_matvec_4bit_v3"@.len() == 22);
    assert("dequant_matvec_4bit_fast"@.len() == 24);
    assert("rms_norm_sum_sq"@.len() == 15);
    assert("rms_norm_apply"@.len() == 14);
    assert("rms_norm_apply_bf16"@.len() == 19);
    assert("residual_add"@.len() == 12);
    assert("swiglu_fused"@[0] == 's');
    assert("residual_add"@[0] == 'r');
}

} // verus!
