//! Run-time model description, as read from the model's configuration file.

use vstd::prelude::*;

verus! {

/// Byte offsets and sizes of the nine tensors of a packed expert, as the configuration file
/// gives them.
#[derive(Clone, Copy, Debug, PartialEq, Eq, Structural)]
pub struct ExpertLayoutTable {
    pub gate_w_off: i32,
    pub gate_s_off: i32,
    pub gate_b_off: i32,
    pub up_w_off: i32,
    pub up_s_off: i32,
    pub up_b_off: i32,
    pub down_w_off: i32,
    pub down_s_off: i32,
    pub down_b_off: i32,
    pub gate_w_size: i32,
    pub gate_s_size: i32,
    pub gate_b_size: i32,
    pub up_w_size: i32,
    pub up_s_size: i32,
    pub up_b_size: i32,
    pub down_w_size: i32,
    pub down_s_size: i32,
    pub down_b_size: i32,
}

impl ExpertLayoutTable {
    /// The table with every entry 0.
    pub open spec fn zero() -> Self {
        ExpertLayoutTable {
            gate_w_off: 0,
            gate_s_off: 0,
            gate_b_off: 0,
            up_w_off: 0,
            up_s_off: 0,
            up_b_off: 0,
            down_w_off: 0,
            down_s_off: 0,
            down_b_off: 0,
            gate_w_size: 0,
            gate_s_size: 0,
            gate_b_size: 0,
            up_w_size: 0,
            up_s_size: 0,
            up_b_size: 0,
            down_w_size: 0,
            down_s_size: 0,
            down_b_size: 0,
        }
    }
}

impl Default for ExpertLayoutTable {
    fn default() -> (r: Self)
        ensures
            r == ExpertLayoutTable::zero(),
    {
        ExpertLayoutTable {
            gate_w_off: 0,
            gate_s_off: 0,
            gate_b_off: 0,
            up_w_off: 0,
            up_s_off: 0,
            up_b_off: 0,
            down_w_off: 0,
            down_s_off: 0,
            down_b_off: 0,
            gate_w_size: 0,
            gate_s_size: 0,
            gate_b_size: 0,
            up_w_size: 0,
            up_s_size: 0,
            up_b_size: 0,
            down_w_size: 0,
            down_s_size: 0,
            down_b_size: 0,
        }
    }
}

/// The model's dimensions. The two real numbers are kept as the text that the file gives for
/// them, `None` where it gives none.
#[derive(Clone, Debug)]
pub struct ModelConfig {
    pub hidden_dim: i32,
    pub num_layers: i32,
    pub num_attn_heads: i32,
    pub num_kv_heads: i32,
    pub vocab_size: i32,
    pub num_experts: i32,
    pub num_experts_per_tok: i32,
    pub moe_intermediate: i32,
    pub shared_intermediate: i32,
    pub linear_num_v_heads: i32,
    pub linear_num_k_heads: i32,
    pub rotary_dim: i32,
    pub linear_total_key: i32,
    pub linear_total_value: i32,
    pub linear_conv_dim: i32,
    pub num_full_attn_layers: i32,
    pub num_linear_layers: i32,
    pub expert_size_4bit: i32,
    pub expert_size_2bit: i32,
    pub layout_4bit: ExpertLayoutTable,
    pub layout_2bit: ExpertLayoutTable,
    pub head_dim: i32,
    pub group_size: i32,
    pub full_attn_interval: i32,
    pub conv_kernel_size: i32,
    pub max_seq_len: i32,
    pub gpu_kv_seq: i32,
    pub max_k: i32,
    pub linear_key_dim: i32,
    pub linear_value_dim: i32,
    pub rms_norm_eps: Option<String>,
    pub rope_theta: Option<String>,
}

} // verus!
