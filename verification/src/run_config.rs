//! A configuration that was read at run time, as the layers want it.

use vstd::prelude::*;

use crate::constants::ExpertLayout;
use crate::expert_math::{ExpertParts, ProjPart};
use crate::quant::matvec_fits;
use crate::types::{ExpertLayoutTable, ModelConfig};
use crate::weights::LayerDims;

verus! {

/// The sizes of a configuration that a layer is computed with, none of them negative.
pub open spec fn sizes_valid(c: ModelConfig) -> bool {
    &&& 0 <= c.hidden_dim
    &&& 0 <= c.num_attn_heads
    &&& 0 <= c.num_kv_heads
    &&& 0 <= c.head_dim
    &&& 0 <= c.rotary_dim
    &&& 0 <= c.num_experts
    &&& 0 <= c.num_experts_per_tok
    &&& 0 <= c.moe_intermediate
    &&& 0 <= c.shared_intermediate
    &&& 0 <= c.linear_num_v_heads
    &&& 0 <= c.linear_num_k_heads
    &&& 0 <= c.linear_key_dim
    &&& 0 <= c.linear_value_dim
    &&& 0 <= c.linear_total_key
    &&& 0 <= c.linear_total_value
    &&& 0 <= c.linear_conv_dim
    &&& 0 <= c.conv_kernel_size
    &&& 0 <= c.group_size
}

/// The sizes of a configuration.
pub open spec fn sizes_of(c: ModelConfig) -> LayerDims {
    LayerDims {
        hidden_dim: c.hidden_dim as usize,
        num_heads: c.num_attn_heads as usize,
        num_kv_heads: c.num_kv_heads as usize,
        head_dim: c.head_dim as usize,
        rotary_dim: c.rotary_dim as usize,
        num_experts: c.num_experts as usize,
        experts_per_tok: c.num_experts_per_tok as usize,
        moe_inter: c.moe_intermediate as usize,
        shared_inter: c.shared_intermediate as usize,
        num_v_heads: c.linear_num_v_heads as usize,
        num_k_heads: c.linear_num_k_heads as usize,
        key_dim: c.linear_key_dim as usize,
        value_dim: c.linear_value_dim as usize,
        total_key: c.linear_total_key as usize,
        total_value: c.linear_total_value as usize,
        conv_dim: c.linear_conv_dim as usize,
        conv_kernel: c.conv_kernel_size as usize,
        group_size: c.group_size as usize,
    }
}

/// The sizes of a configuration; `None` if one is negative.
pub fn run_dims(c: &ModelConfig) -> (r: Option<LayerDims>)
    ensures
        r == (if sizes_valid(*c) {
            Some(sizes_of(*c))
        } else {
            None
        }),
{
    if c.hidden_dim < 0 || c.num_attn_heads < 0 || c.num_kv_heads < 0 || c.head_dim < 0
        || c.rotary_dim < 0 || c.num_experts < 0 || c.num_experts_per_tok < 0
        || c.moe_intermediate < 0 || c.shared_intermediate < 0 || c.linear_num_v_heads < 0
        || c.linear_num_k_heads < 0 || c.linear_key_dim < 0 || c.linear_value_dim < 0
        || c.linear_total_key < 0 || c.linear_total_value < 0 || c.linear_conv_dim < 0
        || c.conv_kernel_size < 0 || c.group_size < 0 {
        return None;
    }
    Some(
        LayerDims {
            hidden_dim: c.hidden_dim as usize,
            num_heads: c.num_attn_heads as usize,
            num_kv_heads: c.num_kv_heads as usize,
            head_dim: c.head_dim as usize,
            rotary_dim: c.rotary_dim as usize,
            num_experts: c.num_experts as usize,
            experts_per_tok: c.num_experts_per_tok as usize,
            moe_inter: c.moe_intermediate as usize,
            shared_inter: c.shared_intermediate as usize,
            num_v_heads: c.linear_num_v_heads as usize,
            num_k_heads: c.linear_num_k_heads as usize,
            key_dim: c.linear_key_dim as usize,
            value_dim: c.linear_value_dim as usize,
            total_key: c.linear_total_key as usize,
            total_value: c.linear_total_value as usize,
            conv_dim: c.linear_conv_dim as usize,
            conv_kernel: c.conv_kernel_size as usize,
            group_size: c.group_size as usize,
        },
    )
}

/// The offsets and sizes of a table, none of them negative.
pub open spec fn table_valid(t: ExpertLayoutTable, size: i32) -> bool {
    &&& 0 <= t.gate_w_off
    &&& 0 <= t.gate_s_off
    &&& 0 <= t.gate_b_off
    &&& 0 <= t.up_w_off
    &&& 0 <= t.up_s_off
    &&& 0 <= t.up_b_off
    &&& 0 <= t.down_w_off
    &&& 0 <= t.down_s_off
    &&& 0 <= t.down_b_off
    &&& 0 <= t.gate_w_size
    &&& 0 <= t.gate_s_size
    &&& 0 <= t.gate_b_size
    &&& 0 <= t.up_w_size
    &&& 0 <= t.up_s_size
    &&& 0 <= t.up_b_size
    &&& 0 <= t.down_w_size
    &&& 0 <= t.down_s_size
    &&& 0 <= t.down_b_size
    &&& 0 <= size
}

/// A table of offsets as a layout.
pub open spec fn table_layout(t: ExpertLayoutTable, size: i32) -> ExpertLayout {
    ExpertLayout {
        gate_w_off: t.gate_w_off as usize,
        gate_s_off: t.gate_s_off as usize,
        gate_b_off: t.gate_b_off as usize,
        up_w_off: t.up_w_off as usize,
        up_s_off: t.up_s_off as usize,
        up_b_off: t.up_b_off as usize,
        down_w_off: t.down_w_off as usize,
        down_s_off: t.down_s_off as usize,
        down_b_off: t.down_b_off as usize,
        gate_w_size: t.gate_w_size as usize,
        gate_s_size: t.gate_s_size as usize,
        gate_b_size: t.gate_b_size as usize,
        up_w_size: t.up_w_size as usize,
        up_s_size: t.up_s_size as usize,
        up_b_size: t.up_b_size as usize,
        down_w_size: t.down_w_size as usize,
        down_s_size: t.down_s_size as usize,
        down_b_size: t.down_b_size as usize,
        expert_size_4bit: size as usize,
    }
}

/// The layout of a table of offsets for experts of `size` bytes; `None` if a number is
/// negative.
pub fn run_layout(t: &ExpertLayoutTable, size: i32) -> (r: Option<ExpertLayout>)
    ensures
        r == (if table_valid(*t, size) {
            Some(table_layout(*t, size))
        } else {
            None
        }),
{
    if t.gate_w_off < 0 || t.gate_s_off < 0 || t.gate_b_off < 0 || t.up_w_off < 0 || t.up_s_off < 0
        || t.up_b_off < 0 || t.down_w_off < 0 || t.down_s_off < 0 || t.down_b_off < 0
        || t.gate_w_size < 0 || t.gate_s_size < 0 || t.gate_b_size < 0 || t.up_w_size < 0
        || t.up_s_size < 0 || t.up_b_size < 0 || t.down_w_size < 0 || t.down_s_size < 0
        || t.down_b_size < 0 || size < 0 {
        return None;
    }
    Some(
        ExpertLayout {
            gate_w_off: t.gate_w_off as usize,
            gate_s_off: t.gate_s_off as usize,
            gate_b_off: t.gate_b_off as usize,
            up_w_off: t.up_w_off as usize,
            up_s_off: t.up_s_off as usize,
            up_b_off: t.up_b_off as usize,
            down_w_off: t.down_w_off as usize,
            down_s_off: t.down_s_off as usize,
            down_b_off: t.down_b_off as usize,
            gate_w_size: t.gate_w_size as usize,
            gate_s_size: t.gate_s_size as usize,
            gate_b_size: t.gate_b_size as usize,
            up_w_size: t.up_w_size as usize,
            up_s_size: t.up_s_size as usize,
            up_b_size: t.up_b_size as usize,
            down_w_size: t.down_w_size as usize,
            down_s_size: t.down_s_size as usize,
            down_b_size: t.down_b_size as usize,
            expert_size_4bit: size as usize,
        },
    )
}

/// Whether `a * b + x + y` is at most `limit`.
pub fn within(a: usize, b: usize, x: usize, y: usize, limit: usize) -> (r: bool)
    ensures
        r == (a * b + x + y <= limit),
{
    assert(0 <= a * b <= 0xffff_ffff_ffff_ffff * 0xffff_ffff_ffff_ffff) by (nonlinear_arith)
        requires
            0 <= a <= 0xffff_ffff_ffff_ffff,
            0 <= b <= 0xffff_ffff_ffff_ffff,
    ;
    a as u128 * b as u128 + x as u128 + y as u128 <= limit as u128
}

/// Whether slices of the given lengths hold all that a product reads.
pub fn product_fits(
    w_len: usize,
    scales_len: usize,
    biases_len: usize,
    x_len: usize,
    out_dim: usize,
    in_dim: usize,
    group_size: usize,
) -> (r: bool)
    ensures
        r == matvec_fits(
            w_len as int,
            scales_len as int,
            biases_len as int,
            x_len as int,
            out_dim as int,
            in_dim as int,
            group_size as int,
        ),
{
    if group_size == 0 {
        return false;
    }
    let groups: u128 = (in_dim / group_size) as u128;
    let words: u128 = (group_size / 8) as u128;
    let out: u128 = out_dim as u128;
    let gs: u128 = group_size as u128;
    proof {
        vstd::arithmetic::div_mod::lemma_fundamental_div_mod(in_dim as int, group_size as int);
        vstd::arithmetic::div_mod::lemma_mod_bound(in_dim as int, group_size as int);
        assert(group_size * groups == groups * group_size) by (nonlinear_arith);
        assert(groups * words <= groups * group_size) by (nonlinear_arith)
            requires
                0 <= groups,
                words <= group_size,
        ;
        assert(out * groups <= 0xffff_ffff_ffff_ffff * 0xffff_ffff_ffff_ffff) by (nonlinear_arith)
            requires
                0 <= out <= 0xffff_ffff_ffff_ffff,
                0 <= groups <= 0xffff_ffff_ffff_ffff,
        ;
        if out_dim > 0 {
            let row = in_dim as int / 8;
            assert(0 <= (out - 1) * row <= 0xffff_ffff_ffff_ffff * 0x1fff_ffff_ffff_ffff)
                by (nonlinear_arith)
                requires
                    1 <= out <= 0xffff_ffff_ffff_ffff,
                    0 <= row <= 0x1fff_ffff_ffff_ffff,
            ;
        }
        if groups > 0 {
            assert((groups - 1) * group_size == groups * group_size - group_size)
                by (nonlinear_arith);
        }
    }
    if out_dim > 0 && (out - 1) * (in_dim / 8) as u128 + groups * words > w_len as u128 {
        return false;
    }
    if out * groups > scales_len as u128 || out * groups > biases_len as u128 {
        return false;
    }
    if out_dim > 0 && groups > 0 && (groups - 1) * gs + words * 8 > x_len as u128 {
        return false;
    }
    true
}

/// Whether a projection of an expert of `len` bytes can be computed.
fn part_fits(
    p: &ProjPart,
    len: usize,
    x_len: usize,
    out_dim: usize,
    in_dim: usize,
    group_size: usize,
) -> (r: bool)
    ensures
        r == p.fits(
            len as int,
            x_len as int,
            out_dim as int,
            in_dim as int,
            group_size as int,
        ),
{
    let n: u128 = len as u128;
    p.w_off as u128 + 4 * p.words as u128 <= n && p.s_off as u128 + 2 * p.groups as u128 <= n
        && p.b_off as u128 + 2 * p.groups as u128 <= n && product_fits(
        p.words,
        p.groups,
        p.groups,
        x_len,
        out_dim,
        in_dim,
        group_size,
    )
}

/// Whether an expert of `len` bytes can be computed.
pub fn expert_fits(
    p: &ExpertParts,
    len: usize,
    x_len: usize,
    hidden_dim: usize,
    inter: usize,
    group_size: usize,
) -> (r: bool)
    ensures
        r == p.fits(
            len as int,
            x_len as int,
            hidden_dim as int,
            inter as int,
            group_size as int,
        ),
{
    part_fits(&p.gate, len, x_len, inter, hidden_dim, group_size) && part_fits(
        &p.up,
        len,
        x_len,
        inter,
        hidden_dim,
        group_size,
    ) && part_fits(&p.down, len, inter, hidden_dim, inter, group_size)
}

/// The sizes of a layer are those of the configuration, each the number that the file gives.
pub proof fn law_run_sizes(c: ModelConfig)
    requires
        sizes_valid(c),
    ensures
        ({
            let d = sizes_of(c);
            &&& d.hidden_dim == c.hidden_dim
            &&& d.q_dim() == c.num_attn_heads * c.head_dim
            &&& d.kv_dim() == c.num_kv_heads * c.head_dim
            &&& d.heads_per_kv() == c.num_attn_heads as int / c.num_kv_heads as int
            &&& d.k_heads_per_v() == c.linear_num_v_heads as int / c.linear_num_k_heads as int
            &&& d.head_dim == c.head_dim
            &&& d.rotary_dim == c.rotary_dim
            &&& d.num_experts == c.num_experts
            &&& d.experts_per_tok == c.num_experts_per_tok
            &&& d.moe_inter == c.moe_intermediate
            &&& d.shared_inter == c.shared_intermediate
            &&& d.num_v_heads == c.linear_num_v_heads
            &&& d.key_dim == c.linear_key_dim
            &&& d.value_dim == c.linear_value_dim
            &&& d.total_key == c.linear_total_key
            &&& d.total_value == c.linear_total_value
            &&& d.conv_dim == c.linear_conv_dim
            &&& d.conv_kernel == c.conv_kernel_size
            &&& d.group_size == c.group_size
        }),
{
}

/// A layout has the offsets and sizes of its table, part by part, and experts of the size given.
pub proof fn law_table_layout(t: ExpertLayoutTable, size: i32)
    requires
        table_valid(t, size),
    ensures
        ({
            let l = table_layout(t, size);
            &&& l.expert_size_4bit == size
            &&& l.gate_w_off == t.gate_w_off && l.gate_w_size == t.gate_w_size
            &&& l.gate_s_off == t.gate_s_off && l.gate_s_size == t.gate_s_size
            &&& l.gate_b_off == t.gate_b_off && l.gate_b_size == t.gate_b_size
            &&& l.up_w_off == t.up_w_off && l.up_w_size == t.up_w_size
            &&& l.up_s_off == t.up_s_off && l.up_s_size == t.up_s_size
            &&& l.up_b_off == t.up_b_off && l.up_b_size == t.up_b_size
            &&& l.down_w_off == t.down_w_off && l.down_w_size == t.down_w_size
            &&& l.down_s_off == t.down_s_off && l.down_s_size == t.down_s_size
            &&& l.down_b_off == t.down_b_off && l.down_b_size == t.down_b_size
        }),
{
}

} // verus!
