//! Dimensions of the stripped model as plain constants.

use vstd::prelude::*;

use crate::engine::qwen35_moe::constants::{
    config_messages, joined, ConfigDims, StrippedModel, ModelConfig,
};
use crate::text::debug_view;

verus! {

pub const HIDDEN_DIM: usize = 2048;

pub const NUM_LAYERS: usize = 4;

pub const NUM_ATTN_HEADS: usize = 16;

pub const NUM_KV_HEADS: usize = 2;

pub const HEAD_DIM: usize = 256;

pub const VOCAB_SIZE: usize = 248320;

pub const NUM_EXPERTS: usize = 4;

pub const NUM_EXPERTS_PER_TOK: usize = 4;

pub const MOE_INTERMEDIATE: usize = 512;

pub const SHARED_INTERMEDIATE: usize = 512;

pub const LINEAR_NUM_V_HEADS: usize = 32;

pub const LINEAR_NUM_K_HEADS: usize = 16;

pub const LINEAR_KEY_DIM: usize = 128;

pub const LINEAR_VALUE_DIM: usize = 128;

pub const LINEAR_TOTAL_KEY: usize = 2048;

pub const LINEAR_TOTAL_VALUE: usize = 4096;

pub const LINEAR_CONV_DIM: usize = 8192;

pub const ROTARY_DIM: usize = 64;

pub const NUM_FULL_ATTN_LAYERS: usize = 1;

pub const NUM_LINEAR_LAYERS: usize = 3;

pub const KV_DIM: usize = 512;

pub const EXPERT_SIZE_4BIT: usize = 1769472;

pub const GATE_W_OFF: usize = 0;

pub const GATE_S_OFF: usize = 524288;

pub const GATE_B_OFF: usize = 557056;

pub const UP_W_OFF: usize = 589824;

pub const UP_S_OFF: usize = 1114112;

pub const UP_B_OFF: usize = 1146880;

pub const DOWN_W_OFF: usize = 1179648;

pub const DOWN_S_OFF: usize = 1703936;

pub const DOWN_B_OFF: usize = 1736704;

pub const GATE_W_SIZE: usize = 524288;

pub const GATE_S_SIZE: usize = 32768;

pub const GATE_B_SIZE: usize = 32768;

pub const UP_W_SIZE: usize = 524288;

pub const UP_S_SIZE: usize = 32768;

pub const UP_B_SIZE: usize = 32768;

pub const DOWN_W_SIZE: usize = 524288;

pub const DOWN_S_SIZE: usize = 32768;

pub const DOWN_B_SIZE: usize = 32768;

/// Compare a configuration with the stripped model, leaving its architectures aside.
pub fn validate_config(
    hidden_dim: usize,
    num_layers: usize,
    num_experts: usize,
    num_experts_per_tok: usize,
    moe_intermediate: usize,
    shared_intermediate: usize,
    num_attn_heads: usize,
    num_kv_heads: usize,
    head_dim: usize,
    vocab_size: usize,
    linear_num_v_heads: usize,
    linear_num_k_heads: usize,
    linear_total_key: usize,
    linear_total_value: usize,
) -> (r: Result<(), String>)
    ensures
        ({
            let c = ConfigDims {
                hidden_dim,
                num_layers,
                num_experts,
                num_experts_per_tok,
                moe_intermediate,
                shared_intermediate,
                num_attn_heads,
                num_kv_heads,
                head_dim,
                vocab_size,
                linear_num_v_heads,
                linear_num_k_heads,
                linear_total_key,
                linear_total_value,
            };
            let msgs = config_messages(
                c,
                ""@,
                debug_view(""@),
                StrippedModel::dims(),
                StrippedModel::architecture(),
            );
            match r {
                Ok(()) => c.matches(StrippedModel::dims()),
                Err(e) => !c.matches(StrippedModel::dims()) && e@ == joined(msgs),
            }
        }),
{
    proof {
        reveal_strlit("");
    }
    StrippedModel::validate_config(
        hidden_dim,
        num_layers,
        num_experts,
        num_experts_per_tok,
        moe_intermediate,
        shared_intermediate,
        num_attn_heads,
        num_kv_heads,
        head_dim,
        vocab_size,
        linear_num_v_heads,
        linear_num_k_heads,
        linear_total_key,
        linear_total_value,
        "",
    )
}

/// The constants are the model's dimensions.
pub proof fn law_constants_match_model()
    ensures
        StrippedModel::dims().hidden_dim == HIDDEN_DIM,
        StrippedModel::dims().num_layers == NUM_LAYERS,
        StrippedModel::dims().num_attn_heads == NUM_ATTN_HEADS,
        StrippedModel::dims().num_kv_heads == NUM_KV_HEADS,
        StrippedModel::dims().head_dim == HEAD_DIM,
        StrippedModel::dims().vocab_size == VOCAB_SIZE,
        StrippedModel::dims().num_experts == NUM_EXPERTS,
        StrippedModel::dims().num_experts_per_tok == NUM_EXPERTS_PER_TOK,
        StrippedModel::dims().moe_intermediate == MOE_INTERMEDIATE,
        StrippedModel::dims().shared_intermediate == SHARED_INTERMEDIATE,
        StrippedModel::dims().linear_num_v_heads == LINEAR_NUM_V_HEADS,
        StrippedModel::dims().linear_num_k_heads == LINEAR_NUM_K_HEADS,
        StrippedModel::dims().linear_key_dim == LINEAR_KEY_DIM,
        StrippedModel::dims().linear_value_dim == LINEAR_VALUE_DIM,
        StrippedModel::dims().linear_total_key == LINEAR_TOTAL_KEY,
        StrippedModel::dims().linear_total_value == LINEAR_TOTAL_VALUE,
        StrippedModel::dims().linear_conv_dim == LINEAR_CONV_DIM,
        StrippedModel::dims().rotary_dim == ROTARY_DIM,
        StrippedModel::dims().num_full_attn_layers == NUM_FULL_ATTN_LAYERS,
        StrippedModel::dims().num_linear_layers == NUM_LINEAR_LAYERS,
        StrippedModel::dims().kv_dim == KV_DIM,
        StrippedModel::dims().layout.expert_size_4bit == EXPERT_SIZE_4BIT,
        StrippedModel::dims().layout.gate_w_off == GATE_W_OFF,
        StrippedModel::dims().layout.gate_s_off == GATE_S_OFF,
        StrippedModel::dims().layout.gate_b_off == GATE_B_OFF,
        StrippedModel::dims().layout.up_w_off == UP_W_OFF,
        StrippedModel::dims().layout.up_s_off == UP_S_OFF,
        StrippedModel::dims().layout.up_b_off == UP_B_OFF,
        StrippedModel::dims().layout.down_w_off == DOWN_W_OFF,
        StrippedModel::dims().layout.down_s_off == DOWN_S_OFF,
        StrippedModel::dims().layout.down_b_off == DOWN_B_OFF,
        StrippedModel::dims().layout.gate_w_size == GATE_W_SIZE,
        StrippedModel::dims().layout.gate_s_size == GATE_S_SIZE,
        StrippedModel::dims().layout.gate_b_size == GATE_B_SIZE,
        StrippedModel::dims().layout.up_w_size == UP_W_SIZE,
        StrippedModel::dims().layout.up_s_size == UP_S_SIZE,
        StrippedModel::dims().layout.up_b_size == UP_B_SIZE,
        StrippedModel::dims().layout.down_w_size == DOWN_W_SIZE,
        StrippedModel::dims().layout.down_s_size == DOWN_S_SIZE,
        StrippedModel::dims().layout.down_b_size == DOWN_B_SIZE,
{
}

} // verus!
