//! What the device programs compute: the pieces of work of each, in order, with the vectors that
//! they read and write.

use vstd::prelude::*;

use crate::command::{at, whole, Binding, Command, Pipeline, Tensor};
use crate::constants::ExpertLayout;
use crate::device_work::{
    activation, arguments, expert_works, law_activation_work, law_addition_work, law_matvec_work,
    law_norm_work, lemma_dispatch, lemma_grid_work, lemma_group_count, lemma_idle,
    lemma_normed_work, lemma_projection_work, lemma_set_buffer, lemma_set_number,
    lemma_set_pipeline, lemma_square_sum_work, lemma_step, norm_works, product, projection,
    sum_work, waited_for, works, Work,
};
use crate::expert::ExpertVectors;
use crate::full_attention::{after_qkv, FullAttnCmd2State};
use crate::full_forward::{
    after_activations, after_downs, after_projections, layer_commands, LayerBuffers,
};
use crate::gpu_ops::{
    after_batch, after_ctx_combine, after_expert_proj, after_expert_slot, after_file_matvec,
    after_outputs, after_shared_down, BatchMatvecSpec,
};
use crate::kernels::{
    after_buffer, after_close, after_f32, after_matvec, after_matvec_grid, after_open,
    after_pipeline, after_project, after_residual_add, after_rms_norm_bf16, after_rms_norm_scale,
    after_rms_norm_sum, after_swiglu, after_u32, after_dispatch, groups_for,
};
use crate::linear_program::{
    after_gated_norm, after_in_proj, after_recurrence, conv_command, decay_command, delta_command,
    fused_commands, gated_norm_command, qk_norm_command, recurrence_commands, split_commands,
    LinearBuffers, LinearOffsets, RecurrenceBuffers,
};
use crate::metal::MetalCtx;
use crate::moe_program::{
    after_attention, after_back_projection, after_combine, after_expert, after_experts,
    after_post_expert, after_pre_expert, after_router, after_shared, after_slots,
    full_router_commands, linear_router_commands, ExpertBuffers, RouterBuffers,
};
use crate::types::ModelConfig;
use crate::weights::LayerDims;

verus! {

/// A whole buffer.
pub open spec fn all_of<B>(b: B) -> Binding<B> {
    Binding { buffer: b, offset: 0 }
}

/// The bit pattern of the single-precision number one millionth.
pub open spec fn millionth() -> u32 {
    0x3586_37BD
}

/// The vectors of the expert at place `i` of a layer.
pub open spec fn expert_vectors<B>(b: LayerBuffers<B>, i: int) -> ExpertVectors<B> {
    ExpertVectors {
        x: b.h,
        gate: b.gate@[i],
        up: b.up@[i],
        act: b.act@[i],
        out: b.out@[i],
    }
}

proof fn lemma_projections<B>(
    s: Seq<Command<B>>,
    d: LayerDims,
    l: ExpertLayout,
    b: LayerBuffers<B>,
    n: int,
)
    requires
        0 <= n,
    ensures
        works(after_projections(s, d, l, b, n)) == works(s) + Seq::new(
            (2 * n) as nat,
            |j: int|
                expert_works(
                    b.data@[j / 2],
                    l,
                    expert_vectors(b, j / 2),
                    d.hidden_dim as u32,
                    d.moe_inter as u32,
                    d.group_size as u32,
                )[j % 2],
        ),
    decreases n,
{
    if n > 0 {
        lemma_projections(s, d, l, b, n - 1);
        let t = after_projections(s, d, l, b, n - 1);
        let e = b.data@[n - 1];
        let inter = d.moe_inter as u32;
        let hidden = d.hidden_dim as u32;
        let gs = d.group_size as u32;
        law_matvec_work(
            t,
            at(e, l.gate_w_off as u64),
            at(e, l.gate_s_off as u64),
            at(e, l.gate_b_off as u64),
            whole(b.h),
            whole(b.gate@[n - 1]),
            inter,
            hidden,
            gs,
            3,
        );
        let u = after_matvec(
            t,
            at(e, l.gate_w_off as u64),
            at(e, l.gate_s_off as u64),
            at(e, l.gate_b_off as u64),
            whole(b.h),
            whole(b.gate@[n - 1]),
            inter,
            hidden,
            gs,
            3,
        );
        law_matvec_work(
            u,
            at(e, l.up_w_off as u64),
            at(e, l.up_s_off as u64),
            at(e, l.up_b_off as u64),
            whole(b.h),
            whole(b.up@[n - 1]),
            inter,
            hidden,
            gs,
            3,
        );
        assert((2 * n - 2) / 2 == n - 1 && (2 * n - 1) / 2 == n - 1);
        assert((2 * n - 2) % 2 == 0 && (2 * n - 1) % 2 == 1);
    }
}

proof fn lemma_activations<B>(
    s: Seq<Command<B>>,
    d: LayerDims,
    has_vec4: bool,
    b: LayerBuffers<B>,
    n: int,
)
    requires
        0 <= n,
    ensures
        works(after_activations(s, d, has_vec4, b, n)) == works(s) + Seq::new(
            n as nat,
            |j: int| activation(b.gate@[j], b.up@[j], b.act@[j], d.moe_inter as u32),
        ),
    decreases n,
{
    if n > 0 {
        lemma_activations(s, d, has_vec4, b, n - 1);
        law_activation_work(
            after_activations(s, d, has_vec4, b, n - 1),
            has_vec4,
            whole(b.gate@[n - 1]),
            whole(b.up@[n - 1]),
            whole(b.act@[n - 1]),
            d.moe_inter as u32,
        );
    }
}

proof fn lemma_downs<B>(
    s: Seq<Command<B>>,
    d: LayerDims,
    l: ExpertLayout,
    b: LayerBuffers<B>,
    n: int,
)
    requires
        0 <= n,
    ensures
        works(after_downs(s, d, l, b, n)) == works(s) + Seq::new(
            n as nat,
            |j: int|
                expert_works(
                    b.data@[j],
                    l,
                    expert_vectors(b, j),
                    d.hidden_dim as u32,
                    d.moe_inter as u32,
                    d.group_size as u32,
                )[3],
        ),
    decreases n,
{
    if n > 0 {
        lemma_downs(s, d, l, b, n - 1);
        let e = b.data@[n - 1];
        law_matvec_work(
            after_downs(s, d, l, b, n - 1),
            at(e, l.down_w_off as u64),
            at(e, l.down_s_off as u64),
            at(e, l.down_b_off as u64),
            whole(b.act@[n - 1]),
            whole(b.out@[n - 1]),
            d.hidden_dim as u32,
            d.moe_inter as u32,
            d.group_size as u32,
            3,
        );
    }
}

/// A layer's program does for each of its `k` experts the four pieces of work of that expert: the
/// two projections of all of them first, then all activations, then all down projections. It is
/// waited for.
pub proof fn law_layer_work<B>(
    d: LayerDims,
    l: ExpertLayout,
    has_vec4: bool,
    b: LayerBuffers<B>,
    k: int,
    i: int,
)
    requires
        0 <= i < k,
    ensures
        ({
            let s = layer_commands(d, l, has_vec4, b, k);
            let w = works(s);
            let e = expert_works(
                b.data@[i],
                l,
                expert_vectors(b, i),
                d.hidden_dim as u32,
                d.moe_inter as u32,
                d.group_size as u32,
            );
            &&& w.len() == 4 * k
            &&& w[2 * i] == e[0]
            &&& w[2 * i + 1] == e[1]
            &&& w[2 * k + i] == e[2]
            &&& w[3 * k + i] == e[3]
            &&& waited_for(s)
        }),
{
    let s0 = Seq::<Command<B>>::empty();
    lemma_idle(s0);
    lemma_projections(after_open(s0), d, l, b, k);
    let s1 = after_projections(after_open(s0), d, l, b, k);
    lemma_idle(s1);
    lemma_idle(after_close(s1));
    let s2 = after_open(after_close(s1));
    lemma_activations(s2, d, has_vec4, b, k);
    let s3 = after_activations(s2, d, has_vec4, b, k);
    lemma_idle(s3);
    lemma_idle(after_close(s3));
    let s4 = after_open(after_close(s3));
    lemma_downs(s4, d, l, b, k);
    let s5 = after_downs(s4, d, l, b, k);
    lemma_idle(s5);
    lemma_idle(after_close(s5));
    assert((2 * i) / 2 == i && (2 * i + 1) / 2 == i && (2 * i) % 2 == 0 && (2 * i + 1) % 2 == 1);
}

/// The pieces of work of linear attention up to its recurrence. The four projections read the
/// normed input. The convolution reads the first of them, where its weights are there; its output
/// holds the queries, behind them the keys, and behind those the values, four bytes a number.
/// Norm and recurrence read them there. Each value head has its decay and gate, and
/// `num_v_heads / num_k_heads` of them share a key head.
pub open spec fn recurrence_works<B>(
    d: LayerDims,
    layer: usize,
    b: LinearBuffers<B>,
    off: LinearOffsets,
    inv_scale: u32,
) -> Seq<Work<B>> {
    let hd = d.hidden_dim;
    let keys = Binding { buffer: b.conv_output, offset: (4 * d.total_key) as u64 };
    let values = Binding { buffer: b.conv_output, offset: (8 * d.total_key) as u64 };
    let file = |o: Option<u64>, other: B|
        if o is Some {
            Binding { buffer: b.weights, offset: o->0 }
        } else {
            Binding { buffer: other, offset: 0 }
        };
    seq![
        projection(Tensor::InProjQkv(layer), b.input, b.qkv, d.conv_dim, hd),
        projection(Tensor::InProjZ(layer), b.input, b.z, d.total_value, hd),
        projection(Tensor::InProjB(layer), b.input, b.beta, d.num_v_heads, hd),
        projection(Tensor::InProjA(layer), b.input, b.alpha, d.num_v_heads, hd),
    ] + (if off.conv1d is Some {
        seq![
            Work::Direct(
                Command::Conv1dStep {
                    state: b.conv_state,
                    input: b.qkv,
                    weights: Binding { buffer: b.weights, offset: off.conv1d->0 },
                    output: b.conv_output,
                    channels: d.conv_dim as u32,
                },
            ),
        ]
    } else {
        seq![]
    }) + seq![
        Work::Direct(
            Command::RmsNormQk {
                q: all_of(b.conv_output),
                k: keys,
                num_heads: d.num_k_heads as u32,
                key_dim: d.key_dim as u32,
                inv_scale,
            },
        ),
        Work::Direct(
            Command::ComputeDecayBeta {
                alpha: b.alpha,
                beta: b.beta,
                a_log: file(off.a_log, b.alpha),
                dt_bias: file(off.dt_bias, b.beta),
                g_decay: b.g_decay,
                beta_gate: b.beta_gate,
                num_v_heads: d.num_v_heads as u32,
            },
        ),
        Work::Direct(
            Command::GatedDeltaNetStep {
                state: b.delta_state,
                q: all_of(b.conv_output),
                k: keys,
                v: values,
                g_decay: b.g_decay,
                beta_gate: b.beta_gate,
                output: b.delta_output,
                num_v_heads: d.num_v_heads as u32,
                k_heads_per_v: (d.num_v_heads as int / d.num_k_heads as int) as u32,
                key_dim: d.key_dim as u32,
                value_dim: d.value_dim as u32,
            },
        ),
    ]
}

/// The gated norm of the recurrence's output, where its weights are there.
pub open spec fn gated_norm_works<B>(
    d: LayerDims,
    b: LinearBuffers<B>,
    off: LinearOffsets,
) -> Seq<Work<B>> {
    if off.norm is Some {
        seq![
            Work::Direct(
                Command::GatedRmsNorm {
                    values: b.delta_output,
                    z: b.z,
                    weight: Binding { buffer: b.weights, offset: off.norm->0 },
                    output: b.gated,
                    num_heads: d.num_v_heads as u32,
                    value_dim: d.value_dim as u32,
                },
            ),
        ]
    } else {
        seq![]
    }
}

proof fn lemma_in_proj<B>(s: Seq<Command<B>>, d: LayerDims, layer: usize, b: LinearBuffers<B>)
    ensures
        works(after_in_proj(s, d, layer, b)) == works(s) + seq![
            projection(Tensor::InProjQkv(layer), b.input, b.qkv, d.conv_dim, d.hidden_dim),
            projection(Tensor::InProjZ(layer), b.input, b.z, d.total_value, d.hidden_dim),
            projection(Tensor::InProjB(layer), b.input, b.beta, d.num_v_heads, d.hidden_dim),
            projection(Tensor::InProjA(layer), b.input, b.alpha, d.num_v_heads, d.hidden_dim),
        ],
{
    let hd = d.hidden_dim;
    lemma_projection_work(s, Tensor::InProjQkv(layer), b.input, b.qkv, d.conv_dim, hd);
    let s1 = after_project(s, Tensor::InProjQkv(layer), b.input, b.qkv, d.conv_dim, hd);
    lemma_projection_work(s1, Tensor::InProjZ(layer), b.input, b.z, d.total_value, hd);
    let s2 = after_project(s1, Tensor::InProjZ(layer), b.input, b.z, d.total_value, hd);
    lemma_projection_work(s2, Tensor::InProjB(layer), b.input, b.beta, d.num_v_heads, hd);
    let s3 = after_project(s2, Tensor::InProjB(layer), b.input, b.beta, d.num_v_heads, hd);
    lemma_projection_work(s3, Tensor::InProjA(layer), b.input, b.alpha, d.num_v_heads, hd);
}

proof fn lemma_recurrence<B>(
    s: Seq<Command<B>>,
    d: LayerDims,
    layer: usize,
    b: LinearBuffers<B>,
    off: LinearOffsets,
    inv_scale: u32,
)
    ensures
        works(after_recurrence(s, d, layer, b, off, inv_scale)) == works(s) + recurrence_works(
            d,
            layer,
            b,
            off,
            inv_scale,
        ),
{
    lemma_idle(s);
    lemma_in_proj(after_open(s), d, layer, b);
    let s1 = after_in_proj(after_open(s), d, layer, b);
    lemma_idle(s1);
    let s2 = after_close(s1);
    lemma_idle(s2);
    let s3 = match off.conv1d {
        Some(o) => after_close(after_open(s2).push(conv_command(d, b, o))),
        None => s2,
    };
    if off.conv1d is Some {
        let c = conv_command(d, b, off.conv1d->0);
        lemma_step(after_open(s2), c);
        lemma_idle(after_open(s2).push(c));
    }
    lemma_idle(s3);
    let c4 = qk_norm_command(d, b, inv_scale);
    lemma_step(after_open(s3), c4);
    let s4 = after_open(s3).push(c4);
    lemma_idle(s4);
    lemma_idle(after_close(s4));
    let t4 = after_open(after_close(s4));
    let c5 = decay_command(d, b, off);
    lemma_step(t4, c5);
    let s5 = t4.push(c5);
    lemma_idle(s5);
    lemma_idle(after_close(s5));
    let t5 = after_open(after_close(s5));
    let c6 = delta_command(d, b);
    lemma_step(t5, c6);
    lemma_idle(t5.push(c6));
    assert(d.total_key * 4 == 4 * d.total_key && 2 * d.total_key * 4 == 8 * d.total_key)
        by (nonlinear_arith);
}

proof fn lemma_gated_norm<B>(
    s: Seq<Command<B>>,
    d: LayerDims,
    b: LinearBuffers<B>,
    off: LinearOffsets,
)
    ensures
        works(after_gated_norm(s, d, b, off)) == works(s) + gated_norm_works(d, b, off),
{
    lemma_idle(s);
    if off.norm is Some {
        let c = gated_norm_command(d, b, off.norm->0);
        lemma_step(after_open(s), c);
        lemma_idle(after_open(s).push(c));
    } else {
        lemma_idle(after_open(s));
    }
}

/// The whole of linear attention in one program: the recurrence, its gated norm, the projection
/// back, and the sum with the residual.
pub proof fn law_fused_work<B>(
    d: LayerDims,
    layer: usize,
    b: LinearBuffers<B>,
    off: LinearOffsets,
    inv_scale: u32,
)
    ensures
        ({
            let s = fused_commands(d, layer, b, off, inv_scale);
            &&& works(s) == recurrence_works(d, layer, b, off, inv_scale) + gated_norm_works(
                d,
                b,
                off,
            ) + seq![
                projection(Tensor::OutProj(layer), b.gated, b.o_proj, d.hidden_dim, d.total_value),
                sum_work(b.o_proj, b.residual, b.hidden_out, d.hidden_dim as u32),
            ]
            &&& waited_for(s)
        }),
{
    let s0 = Seq::<Command<B>>::empty();
    lemma_recurrence(s0, d, layer, b, off, inv_scale);
    let s1 = after_recurrence(s0, d, layer, b, off, inv_scale);
    lemma_gated_norm(s1, d, b, off);
    let s2 = after_gated_norm(s1, d, b, off);
    lemma_idle(s2);
    let t2 = after_open(s2);
    lemma_projection_work(
        t2,
        Tensor::OutProj(layer),
        b.gated,
        b.o_proj,
        d.hidden_dim,
        d.total_value,
    );
    let s3 = after_project(
        t2,
        Tensor::OutProj(layer),
        b.gated,
        b.o_proj,
        d.hidden_dim,
        d.total_value,
    );
    lemma_idle(s3);
    lemma_idle(after_close(s3));
    let t3 = after_open(after_close(s3));
    law_addition_work(t3, b.o_proj, b.residual, b.hidden_out, d.hidden_dim as u32);
    let s4 = after_residual_add(t3, b.o_proj, b.residual, b.hidden_out, d.hidden_dim as u32);
    lemma_idle(s4);
    lemma_idle(after_close(s4));
}

/// The split program is the recurrence alone, or the recurrence and its gated norm.
pub proof fn law_split_work<B>(
    d: LayerDims,
    layer: usize,
    b: LinearBuffers<B>,
    off: LinearOffsets,
    inv_scale: u32,
    with_norm: bool,
)
    ensures
        ({
            let s = split_commands(d, layer, b, off, inv_scale, with_norm);
            &&& works(s) == recurrence_works(d, layer, b, off, inv_scale) + (if with_norm {
                gated_norm_works(d, b, off)
            } else {
                seq![]
            })
            &&& s.last() == Command::<B>::WaitUntilCompleted
        }),
{
    let s0 = Seq::<Command<B>>::empty();
    lemma_recurrence(s0, d, layer, b, off, inv_scale);
    let s1 = after_recurrence(s0, d, layer, b, off, inv_scale);
    lemma_idle(s1);
    lemma_gated_norm(s1, d, b, off);
    lemma_idle(after_gated_norm(s1, d, b, off));
}

/// The program behind projections that the processor computed: the norm of queries and keys,
/// decay and gate, the recurrence, and the gated norm where its weights are there.
pub proof fn law_recurrence_work<B>(d: LayerDims, b: RecurrenceBuffers<B>, inv_scale: u32)
    ensures
        ({
            let s = recurrence_commands(d, b, inv_scale);
            &&& works(s) == seq![
                Work::Direct(
                    Command::RmsNormQk {
                        q: all_of(b.q),
                        k: all_of(b.k),
                        num_heads: d.num_k_heads as u32,
                        key_dim: d.key_dim as u32,
                        inv_scale,
                    },
                ),
                Work::Direct(
                    Command::ComputeDecayBeta {
                        alpha: b.alpha,
                        beta: b.beta,
                        a_log: all_of(b.a_log),
                        dt_bias: all_of(b.dt_bias),
                        g_decay: b.g_decay,
                        beta_gate: b.beta_gate,
                        num_v_heads: d.num_v_heads as u32,
                    },
                ),
                Work::Direct(
                    Command::GatedDeltaNetStep {
                        state: b.state,
                        q: all_of(b.q),
                        k: all_of(b.k),
                        v: all_of(b.v),
                        g_decay: b.g_decay,
                        beta_gate: b.beta_gate,
                        output: b.output,
                        num_v_heads: d.num_v_heads as u32,
                        k_heads_per_v: (d.num_v_heads as int / d.num_k_heads as int) as u32,
                        key_dim: d.key_dim as u32,
                        value_dim: d.value_dim as u32,
                    },
                ),
            ] + (if b.norm is Some {
                seq![
                    Work::Direct(
                        Command::GatedRmsNorm {
                            values: b.output,
                            z: b.z,
                            weight: all_of(b.norm->0),
                            output: b.gated,
                            num_heads: d.num_v_heads as u32,
                            value_dim: d.value_dim as u32,
                        },
                    ),
                ]
            } else {
                seq![]
            })
            &&& waited_for(s)
        }),
{
    let s0 = Seq::<Command<B>>::empty();
    lemma_idle(s0);
    let s1 = after_open(s0);
    let c1 = Command::RmsNormQk {
        q: whole(b.q),
        k: whole(b.k),
        num_heads: d.num_k_heads as u32,
        key_dim: d.key_dim as u32,
        inv_scale,
    };
    lemma_step(s1, c1);
    let c2 = Command::ComputeDecayBeta {
        alpha: b.alpha,
        beta: b.beta,
        a_log: whole(b.a_log),
        dt_bias: whole(b.dt_bias),
        g_decay: b.g_decay,
        beta_gate: b.beta_gate,
        num_v_heads: d.num_v_heads as u32,
    };
    lemma_step(s1.push(c1), c2);
    let c3 = Command::GatedDeltaNetStep {
        state: b.state,
        q: whole(b.q),
        k: whole(b.k),
        v: whole(b.v),
        g_decay: b.g_decay,
        beta_gate: b.beta_gate,
        output: b.output,
        num_v_heads: d.num_v_heads as u32,
        k_heads_per_v: d.k_heads_per_v() as u32,
        key_dim: d.key_dim as u32,
        value_dim: d.value_dim as u32,
    };
    lemma_step(s1.push(c1).push(c2), c3);
    let s2 = s1.push(c1).push(c2).push(c3);
    if b.norm is Some {
        let c4 = Command::GatedRmsNorm {
            values: b.output,
            z: b.z,
            weight: whole(b.norm->0),
            output: b.gated,
            num_heads: d.num_v_heads as u32,
            value_dim: d.value_dim as u32,
        };
        lemma_step(s2, c4);
        lemma_idle(s2.push(c4));
    } else {
        lemma_idle(s2);
    }
}

/// The pieces of work of full attention: a score for each head and position, the softmax of each
/// head's scores, the values that they weigh, and the output's gate.
pub open spec fn attention_works<B>(a: FullAttnCmd2State<B>) -> Seq<Work<B>> {
    seq![
        Work::Scores {
            q: all_of(a.q_buf),
            keys: all_of(a.kc_buf),
            scores: all_of(a.scores_buf),
            head_dim: a.head_dim,
            kv_dim: a.kv_dim,
            seq_len: a.seq_len,
            stride: a.seq_stride,
            scale: a.scale,
            heads_per_kv: a.heads_per_kv,
            per_head: a.seq_len,
            groups: (a.num_attn_heads * a.seq_len) as u64,
        },
        Work::Softmax {
            scores: all_of(a.scores_buf),
            seq_len: a.seq_len,
            stride: a.seq_stride,
            groups: a.num_attn_heads as u64,
        },
        Work::Values {
            scores: all_of(a.scores_buf),
            values: all_of(a.vc_buf),
            out: all_of(a.out_buf),
            head_dim: a.head_dim,
            kv_dim: a.kv_dim,
            seq_len: a.seq_len,
            stride: a.seq_stride,
            heads_per_kv: a.heads_per_kv,
            groups: ((a.num_attn_heads * a.head_dim + 255) / 256) as u64,
        },
        Work::Gated {
            x: all_of(a.out_buf),
            gate: all_of(a.q_gate_buf),
            dim: a.q_dim,
            covered: true,
        },
    ]
}

/// Attention on the device is its four pieces of work, in order.
pub proof fn law_attention_work<B>(s: Seq<Command<B>>, a: FullAttnCmd2State<B>)
    ensures
        works(after_attention(s, a)) == works(s) + attention_works(a),
{
    lemma_set_pipeline(s, Pipeline::AttnScoresBatched);
    let s1 = after_pipeline(s, Pipeline::AttnScoresBatched);
    lemma_set_buffer(s1, 0, whole(a.q_buf));
    let s2 = after_buffer(s1, 0, whole(a.q_buf));
    lemma_set_buffer(s2, 1, whole(a.kc_buf));
    let s3 = after_buffer(s2, 1, whole(a.kc_buf));
    lemma_set_buffer(s3, 2, whole(a.scores_buf));
    let s4 = after_buffer(s3, 2, whole(a.scores_buf));
    lemma_set_number(s4, 3, a.head_dim);
    let s5 = after_u32(s4, 3, a.head_dim);
    lemma_set_number(s5, 4, a.kv_dim);
    let s6 = after_u32(s5, 4, a.kv_dim);
    lemma_set_number(s6, 5, a.seq_len);
    let s7 = after_u32(s6, 5, a.seq_len);
    lemma_set_number(s7, 6, a.seq_stride);
    let s8 = after_u32(s7, 6, a.seq_stride);
    lemma_set_number(s8, 7, a.scale);
    let s9 = after_f32(s8, 7, a.scale);
    lemma_set_number(s9, 8, a.heads_per_kv);
    let s10 = after_u32(s9, 8, a.heads_per_kv);
    lemma_set_number(s10, 9, a.seq_len);
    let s11 = after_u32(s10, 9, a.seq_len);
    lemma_dispatch(s11, a.num_attn_heads * a.seq_len, 256);
    let t = after_dispatch(s11, a.num_attn_heads * a.seq_len, 256);
    lemma_set_pipeline(t, Pipeline::AttnSoftmaxBatched);
    let t_1 = after_pipeline(t, Pipeline::AttnSoftmaxBatched);
    lemma_set_buffer(t_1, 0, whole(a.scores_buf));
    let t_2 = after_buffer(t_1, 0, whole(a.scores_buf));
    lemma_set_number(t_2, 1, a.seq_len);
    let t_3 = after_u32(t_2, 1, a.seq_len);
    lemma_set_number(t_3, 2, a.seq_stride);
    let t_4 = after_u32(t_3, 2, a.seq_stride);
    lemma_dispatch(t_4, a.num_attn_heads as int, 256);
    let u = after_dispatch(t_4, a.num_attn_heads as int, 256);
    lemma_set_pipeline(u, Pipeline::AttnValuesBatched);
    let u_1 = after_pipeline(u, Pipeline::AttnValuesBatched);
    lemma_set_buffer(u_1, 0, whole(a.scores_buf));
    let u_2 = after_buffer(u_1, 0, whole(a.scores_buf));
    lemma_set_buffer(u_2, 1, whole(a.vc_buf));
    let u_3 = after_buffer(u_2, 1, whole(a.vc_buf));
    lemma_set_buffer(u_3, 2, whole(a.out_buf));
    let u_4 = after_buffer(u_3, 2, whole(a.out_buf));
    lemma_set_number(u_4, 3, a.head_dim);
    let u_5 = after_u32(u_4, 3, a.head_dim);
    lemma_set_number(u_5, 4, a.kv_dim);
    let u_6 = after_u32(u_5, 4, a.kv_dim);
    lemma_set_number(u_6, 5, a.seq_len);
    let u_7 = after_u32(u_6, 5, a.seq_len);
    lemma_set_number(u_7, 6, a.seq_stride);
    let u_8 = after_u32(u_7, 6, a.seq_stride);
    lemma_set_number(u_8, 7, a.heads_per_kv);
    let u_9 = after_u32(u_8, 7, a.heads_per_kv);
    lemma_dispatch(u_9, groups_for(a.num_attn_heads * a.head_dim, 256), 256);
    let v = after_dispatch(u_9, groups_for(a.num_attn_heads * a.head_dim, 256), 256);
    lemma_group_count(a.q_dim, 256);
    lemma_set_pipeline(v, Pipeline::SigmoidGate);
    let v_1 = after_pipeline(v, Pipeline::SigmoidGate);
    lemma_set_buffer(v_1, 0, whole(a.out_buf));
    let v_2 = after_buffer(v_1, 0, whole(a.out_buf));
    lemma_set_buffer(v_2, 1, whole(a.q_gate_buf));
    let v_3 = after_buffer(v_2, 1, whole(a.q_gate_buf));
    lemma_set_number(v_3, 2, a.q_dim);
    let v_4 = after_u32(v_3, 2, a.q_dim);
    lemma_dispatch(v_4, groups_for(a.q_dim as int, 256), 256);
}

/// The router's four projections of `x`.
pub open spec fn router_works<B>(
    d: LayerDims,
    layer: usize,
    x: B,
    b: RouterBuffers<B>,
) -> Seq<Work<B>> {
    let hd = d.hidden_dim;
    seq![
        projection(Tensor::RouterGate(layer), x, b.gate_scores, d.num_experts, hd),
        projection(Tensor::SharedGateProj(layer), x, b.shared_gate, d.shared_inter, hd),
        projection(Tensor::SharedUpProj(layer), x, b.shared_up, d.shared_inter, hd),
        projection(Tensor::SharedExpertGate(layer), x, b.shared_score, 1, hd),
    ]
}

/// The router's projections read `x`: the experts' scores, the shared expert's gate and up
/// projections, and its one score.
pub proof fn law_router_work<B>(
    s: Seq<Command<B>>,
    d: LayerDims,
    layer: usize,
    x: B,
    b: RouterBuffers<B>,
)
    ensures
        works(after_router(s, d, layer, x, b)) == works(s) + router_works(d, layer, x, b),
{
    let hd = d.hidden_dim;
    lemma_projection_work(s, Tensor::RouterGate(layer), x, b.gate_scores, d.num_experts, hd);
    let s1 = after_project(s, Tensor::RouterGate(layer), x, b.gate_scores, d.num_experts, hd);
    lemma_projection_work(s1, Tensor::SharedGateProj(layer), x, b.shared_gate, d.shared_inter, hd);
    let s2 = after_project(s1, Tensor::SharedGateProj(layer), x, b.shared_gate, d.shared_inter, hd);
    lemma_projection_work(s2, Tensor::SharedUpProj(layer), x, b.shared_up, d.shared_inter, hd);
    let s3 = after_project(s2, Tensor::SharedUpProj(layer), x, b.shared_up, d.shared_inter, hd);
    lemma_projection_work(s3, Tensor::SharedExpertGate(layer), x, b.shared_score, 1, hd);
}

/// Behind attention: its output is projected back and added to the residual; the sum is normed
/// with the layer's second norm; the router reads the normed sum.
pub open spec fn back_works<B>(
    d: LayerDims,
    layer: usize,
    back: Tensor,
    attn_out: B,
    attn_dim: usize,
    residual: B,
    post_norm: u64,
    b: RouterBuffers<B>,
) -> Seq<Work<B>> {
    let hd = d.hidden_dim as u32;
    seq![
        projection(back, attn_out, b.o_proj, d.hidden_dim, attn_dim),
        sum_work(b.o_proj, residual, b.temp, hd),
    ] + norm_works(
        b.temp,
        Binding { buffer: b.weights, offset: post_norm },
        b.sum_sq,
        b.normed,
        hd,
        millionth(),
    ) + router_works(d, layer, b.normed, b)
}

proof fn lemma_back<B>(
    s: Seq<Command<B>>,
    d: LayerDims,
    layer: usize,
    back: Tensor,
    attn_out: B,
    attn_dim: usize,
    residual: B,
    post_norm: u64,
    b: RouterBuffers<B>,
)
    ensures
        works(
            after_back_projection(s, d, layer, back, attn_out, attn_dim, residual, post_norm, b),
        ) == works(s) + back_works(d, layer, back, attn_out, attn_dim, residual, post_norm, b),
{
    let hd = d.hidden_dim as u32;
    lemma_projection_work(s, back, attn_out, b.o_proj, d.hidden_dim, attn_dim);
    let s1 = after_project(s, back, attn_out, b.o_proj, d.hidden_dim, attn_dim);
    law_addition_work(s1, b.o_proj, residual, b.temp, hd);
    let s2 = after_residual_add(s1, b.o_proj, residual, b.temp, hd);
    let w = at(b.weights, post_norm);
    law_norm_work(s2, b.temp, w, b.sum_sq, b.normed, hd, millionth());
    let s3 = after_rms_norm_bf16(s2, b.temp, w, b.sum_sq, b.normed, hd, millionth());
    law_router_work(s3, d, layer, b.normed, b);
}

/// The router behind deferred full attention: attention itself, the projection back of its
/// `q_dim` numbers, and the router; in one program, waited for.
pub proof fn law_full_router_work<B>(
    d: LayerDims,
    layer: usize,
    a: FullAttnCmd2State<B>,
    post_norm: u64,
    b: RouterBuffers<B>,
)
    ensures
        ({
            let s = full_router_commands(d, layer, a, post_norm, b);
            &&& works(s) == attention_works(a) + back_works(
                d,
                layer,
                a.o_proj,
                a.out_buf,
                a.q_dim as usize,
                a.hidden_buf,
                post_norm,
                b,
            )
            &&& waited_for(s)
        }),
{
    let s0 = Seq::<Command<B>>::empty();
    lemma_idle(s0);
    law_attention_work(after_open(s0), a);
    let s1 = after_attention(after_open(s0), a);
    let n = a.q_dim as usize;
    lemma_back(s1, d, layer, a.o_proj, a.out_buf, n, a.hidden_buf, post_norm, b);
    lemma_idle(
        after_back_projection(s1, d, layer, a.o_proj, a.out_buf, n, a.hidden_buf, post_norm, b),
    );
}

/// The router behind deferred linear attention: the projection back of the gated values and the
/// router; in one program, waited for.
pub proof fn law_linear_router_work<B>(
    d: LayerDims,
    layer: usize,
    gated: B,
    residual: B,
    post_norm: u64,
    b: RouterBuffers<B>,
)
    ensures
        ({
            let s = linear_router_commands(d, layer, gated, residual, post_norm, b);
            &&& works(s) == back_works(
                d,
                layer,
                Tensor::OutProj(layer),
                gated,
                d.total_value,
                residual,
                post_norm,
                b,
            )
            &&& waited_for(s)
        }),
{
    let s0 = Seq::<Command<B>>::empty();
    lemma_idle(s0);
    let s1 = after_open(s0);
    let o = Tensor::OutProj(layer);
    lemma_back(s1, d, layer, o, gated, d.total_value, residual, post_norm, b);
    lemma_idle(
        after_back_projection(s1, d, layer, o, gated, d.total_value, residual, post_norm, b),
    );
}

/// A linear layer up to its router, inside a longer program: the same work as the linear program
/// and the router behind it.
pub proof fn law_pre_expert_work<B>(
    s: Seq<Command<B>>,
    d: LayerDims,
    layer: usize,
    lin: LinearBuffers<B>,
    off: LinearOffsets,
    inv_scale: u32,
    post_norm: u64,
    b: RouterBuffers<B>,
)
    ensures
        works(after_pre_expert(s, d, layer, lin, off, inv_scale, post_norm, b)) == works(s)
            + recurrence_works(d, layer, lin, off, inv_scale) + gated_norm_works(d, lin, off)
            + back_works(
            d,
            layer,
            Tensor::OutProj(layer),
            lin.gated,
            d.total_value,
            lin.residual,
            post_norm,
            b,
        ),
{
    lemma_in_proj(s, d, layer, lin);
    let s1 = after_in_proj(s, d, layer, lin);
    let s2 = match off.conv1d {
        Some(o) => s1.push(conv_command(d, lin, o)),
        None => s1,
    };
    if off.conv1d is Some {
        lemma_step(s1, conv_command(d, lin, off.conv1d->0));
    }
    let c3 = qk_norm_command(d, lin, inv_scale);
    lemma_step(s2, c3);
    let c4 = decay_command(d, lin, off);
    lemma_step(s2.push(c3), c4);
    let c5 = delta_command(d, lin);
    lemma_step(s2.push(c3).push(c4), c5);
    let s5 = s2.push(c3).push(c4).push(c5);
    assert(works(s5) =~= works(s) + recurrence_works(d, layer, lin, off, inv_scale)) by {
        assert(d.total_key * 4 == 4 * d.total_key && 2 * d.total_key * 4 == 8 * d.total_key)
            by (nonlinear_arith);
    }
    let s6 = match off.norm {
        Some(o) => s5.push(gated_norm_command(d, lin, o)),
        None => s5,
    };
    if off.norm is Some {
        lemma_step(s5, gated_norm_command(d, lin, off.norm->0));
    }
    assert(works(s6) =~= works(s5) + gated_norm_works(d, lin, off));
    lemma_back(
        s6,
        d,
        layer,
        Tensor::OutProj(layer),
        lin.gated,
        d.total_value,
        lin.residual,
        post_norm,
        b,
    );
}

/// The query, key and value projections of `x`. A query head has a gate beside it, so there are
/// twice as many query numbers.
pub proof fn law_qkv_work<B>(
    d: LayerDims,
    layer: usize,
    x: B,
    q: B,
    k: B,
    v: B,
)
    ensures
        ({
            let s = after_qkv(Seq::empty(), d, layer, x, q, k, v);
            let hd = d.hidden_dim;
            let kv = (d.num_kv_heads * d.head_dim) as usize;
            &&& works(s) == seq![
                projection(
                    Tensor::QProj(layer),
                    x,
                    q,
                    (2 * (d.num_heads * d.head_dim)) as usize,
                    hd,
                ),
                projection(Tensor::KProj(layer), x, k, kv, hd),
                projection(Tensor::VProj(layer), x, v, kv, hd),
            ]
            &&& waited_for(s)
        }),
{
    let s0 = Seq::<Command<B>>::empty();
    lemma_idle(s0);
    let hd = d.hidden_dim;
    let s1 = after_open(s0);
    lemma_projection_work(s1, Tensor::QProj(layer), x, q, (2 * d.q_dim()) as usize, hd);
    let s2 = after_project(s1, Tensor::QProj(layer), x, q, (2 * d.q_dim()) as usize, hd);
    lemma_projection_work(s2, Tensor::KProj(layer), x, k, d.kv_dim() as usize, hd);
    let s3 = after_project(s2, Tensor::KProj(layer), x, k, d.kv_dim() as usize, hd);
    lemma_projection_work(s3, Tensor::VProj(layer), x, v, d.kv_dim() as usize, hd);
    lemma_idle(after_project(s3, Tensor::VProj(layer), x, v, d.kv_dim() as usize, hd));
}

/// The vectors of the expert in a slot. All experts share the input and the inner vectors.
pub open spec fn slot_vectors<B>(b: ExpertBuffers<B>, slot: int) -> ExpertVectors<B> {
    ExpertVectors { x: b.x, gate: b.gate, up: b.up, act: b.act, out: b.out@[slot] }
}

proof fn lemma_slot_work<B>(
    s: Seq<Command<B>>,
    has_vec4: bool,
    d: LayerDims,
    l: ExpertLayout,
    b: ExpertBuffers<B>,
    slot: int,
)
    ensures
        works(after_expert(s, has_vec4, d, l, b, slot)) == works(s) + expert_works(
            b.data@[slot],
            l,
            slot_vectors(b, slot),
            d.hidden_dim as u32,
            d.moe_inter as u32,
            64,
        ),
{
    let hd = d.hidden_dim as u32;
    let mi = d.moe_inter as u32;
    let e = b.data@[slot];
    let g_w = at(e, l.gate_w_off as u64);
    let g_s = at(e, l.gate_s_off as u64);
    let g_b = at(e, l.gate_b_off as u64);
    let u_w = at(e, l.up_w_off as u64);
    let u_s = at(e, l.up_s_off as u64);
    let u_b = at(e, l.up_b_off as u64);
    let d_w = at(e, l.down_w_off as u64);
    let d_s = at(e, l.down_s_off as u64);
    let d_b = at(e, l.down_b_off as u64);
    law_matvec_work(s, g_w, g_s, g_b, whole(b.x), whole(b.gate), mi, hd, 64, 3);
    let s1 = after_matvec(s, g_w, g_s, g_b, whole(b.x), whole(b.gate), mi, hd, 64, 3);
    law_matvec_work(s1, u_w, u_s, u_b, whole(b.x), whole(b.up), mi, hd, 64, 3);
    let s2 = after_matvec(s1, u_w, u_s, u_b, whole(b.x), whole(b.up), mi, hd, 64, 3);
    law_activation_work(s2, has_vec4, whole(b.gate), whole(b.up), whole(b.act), mi);
    let s3 = after_swiglu(s2, has_vec4, whole(b.gate), whole(b.up), whole(b.act), mi);
    law_matvec_work(s3, d_w, d_s, d_b, whole(b.act), whole(b.out@[slot]), hd, mi, 64, 3);
}

/// Slot by slot, an expert that is present adds its four pieces of work, with its own weights
/// and into its own output; one that is not adds none.
pub proof fn law_slots_work<B>(
    s: Seq<Command<B>>,
    has_vec4: bool,
    d: LayerDims,
    l: ExpertLayout,
    b: ExpertBuffers<B>,
    present: Seq<bool>,
    k: int,
)
    requires
        0 <= k,
    ensures
        works(after_experts(s, has_vec4, d, l, b, present, 0)) == works(s),
        works(after_experts(s, has_vec4, d, l, b, present, k + 1)) == works(
            after_experts(s, has_vec4, d, l, b, present, k),
        ) + (if present[k] {
            expert_works(
                b.data@[k],
                l,
                slot_vectors(b, k),
                d.hidden_dim as u32,
                d.moe_inter as u32,
                64,
            )
        } else {
            seq![]
        }),
{
    let t = after_experts(s, has_vec4, d, l, b, present, k);
    lemma_slot_work(t, has_vec4, d, l, b, k);
}

/// The shared expert: the activation of its projections where both are on the device, then the
/// down projection of the activation.
pub proof fn law_shared_work<B>(
    s: Seq<Command<B>>,
    has_vec4: bool,
    d: LayerDims,
    layer: usize,
    b: ExpertBuffers<B>,
)
    ensures
        works(after_shared(s, has_vec4, d, layer, b)) == works(s) + (if b.shared_gate is Some
            && b.shared_up is Some {
            seq![
                activation(
                    b.shared_gate->0,
                    b.shared_up->0,
                    b.shared_act,
                    d.shared_inter as u32,
                ),
            ]
        } else {
            seq![]
        }) + seq![
            projection(
                Tensor::SharedDownProj(layer),
                b.shared_act,
                b.shared_down,
                d.hidden_dim,
                d.shared_inter,
            ),
        ],
{
    let n = d.shared_inter as u32;
    let t = match (b.shared_gate, b.shared_up) {
        (Some(g), Some(u)) => {
            law_activation_work(s, has_vec4, whole(g), whole(u), whole(b.shared_act), n);
            after_swiglu(s, has_vec4, whole(g), whole(u), whole(b.shared_act), n)
        },
        _ => s,
    };
    lemma_projection_work(
        t,
        Tensor::SharedDownProj(layer),
        b.shared_act,
        b.shared_down,
        d.hidden_dim,
        d.shared_inter,
    );
}

proof fn lemma_slots_bound<B>(
    s: Seq<Command<B>>,
    b: ExpertBuffers<B>,
    present: Seq<bool>,
    k: int,
    n: int,
)
    requires
        0 <= n <= 8,
    ensures
        ({
            let t = after_slots(s, b, present, k, n);
            let a = arguments(t);
            &&& works(t) == works(s)
            &&& a.pipeline == arguments(s).pipeline
            &&& a.numbers == arguments(s).numbers
            &&& forall|i: int|
                0 <= i < n ==> #[trigger] a.buffers[(3 + i) as u64] == (if i < k && present[i] {
                    all_of(b.out@[i])
                } else {
                    all_of(b.moe_hidden)
                })
            &&& forall|j: u64| j < 3 ==> #[trigger] a.buffers[j] == arguments(s).buffers[j]
        }),
    decreases n,
{
    if n > 0 {
        lemma_slots_bound(s, b, present, k, n - 1);
        let t = after_slots(s, b, present, k, n - 1);
        let o = whole(if n - 1 < k && present[n - 1] {
            b.out@[n - 1]
        } else {
            b.moe_hidden
        });
        lemma_set_buffer(t, 3 + (n - 1), o);
    }
}

/// The sum at the end of a layer: the residual, the shared expert's output and the outputs of the
/// experts, each present one from its own slot; into the layer's output. A slot without an expert
/// is given the layer's output, which the first `k` weights do not reach.
pub proof fn law_combine_work<B>(
    s: Seq<Command<B>>,
    d: LayerDims,
    b: ExpertBuffers<B>,
    present: Seq<bool>,
    k: int,
)
    requires
        d.hidden_dim + 255 <= u32::MAX,
    ensures
        works(after_combine(s, d, b, present, k)) == works(s).push(
            Work::Combined {
                residual: all_of(b.h_mid),
                shared: all_of(b.shared_down),
                out: all_of(b.moe_hidden),
                outputs: Seq::new(
                    8,
                    |i: int|
                        if i < k && present[i] {
                            all_of(b.out@[i])
                        } else {
                            all_of(b.moe_hidden)
                        },
                ),
                params: all_of(b.params),
                dim: d.hidden_dim as u32,
                count: k as u32,
                covered: true,
            },
        ),
{
    let p = Pipeline::MoeCombineResidual;
    lemma_group_count(d.hidden_dim as u32, 256);
    lemma_set_pipeline(s, p);
    let s1 = after_pipeline(s, p);
    lemma_set_buffer(s1, 0, whole(b.h_mid));
    let s2 = after_buffer(s1, 0, whole(b.h_mid));
    lemma_set_buffer(s2, 1, whole(b.shared_down));
    let s3 = after_buffer(s2, 1, whole(b.shared_down));
    lemma_set_buffer(s3, 2, whole(b.moe_hidden));
    let s4 = after_buffer(s3, 2, whole(b.moe_hidden));
    lemma_slots_bound(s4, b, present, k, 8);
    let s5 = after_slots(s4, b, present, k, 8);
    lemma_set_buffer(s5, 11, whole(b.params));
    let s6 = after_buffer(s5, 11, whole(b.params));
    lemma_set_number(s6, 12, d.hidden_dim as u32);
    let s7 = after_u32(s6, 12, d.hidden_dim as u32);
    lemma_set_number(s7, 13, k as u32);
    let s8 = after_u32(s7, 13, k as u32);
    lemma_dispatch(s8, groups_for(d.hidden_dim as int, 256), 256);
    let outputs = Seq::new(
        8,
        |i: int|
            if i < k && present[i] {
                all_of(b.out@[i])
            } else {
                all_of(b.moe_hidden)
            },
    );
    let a = arguments(s8);
    assert(Seq::new(8, |i: int| a.buffers[(3 + i) as u64]) =~= outputs) by {
        assert forall|i: int| 0 <= i < 8 implies a.buffers[(3 + i) as u64]
            == #[trigger] outputs[i] by {
            assert(arguments(s5).buffers[(3 + i) as u64] == outputs[i]);
        }
    }
    assert(a.buffers[0] == arguments(s5).buffers[0]);
    assert(a.buffers[1] == arguments(s5).buffers[1]);
    assert(a.buffers[2] == arguments(s5).buffers[2]);
}

/// The end of a layer's program: the experts that are present, the shared expert, the sum, and
/// where the next layer's norm is known, the norm of the sum into the next layer's input.
pub proof fn law_post_expert_work<B>(
    s: Seq<Command<B>>,
    has_vec4: bool,
    d: LayerDims,
    l: ExpertLayout,
    layer: usize,
    b: ExpertBuffers<B>,
    present: Seq<bool>,
    bound: Seq<bool>,
    k: int,
    next_norm: Option<u64>,
)
    ensures
        works(
            after_post_expert(s, has_vec4, d, l, layer, b, present, bound, k, next_norm),
        ) == works(
            after_combine(
                after_shared(
                    after_experts(s, has_vec4, d, l, b, present, k),
                    has_vec4,
                    d,
                    layer,
                    b,
                ),
                d,
                b,
                bound,
                k,
            ),
        ) + (if next_norm is Some {
            norm_works(
                b.moe_hidden,
                Binding { buffer: b.weights, offset: next_norm->0 },
                b.sum_sq,
                b.next_input,
                d.hidden_dim as u32,
                millionth(),
            )
        } else {
            seq![]
        }),
{
    let t = after_combine(
        after_shared(after_experts(s, has_vec4, d, l, b, present, k), has_vec4, d, layer, b),
        d,
        b,
        bound,
        k,
    );
    if next_norm is Some {
        law_norm_work(
            t,
            b.moe_hidden,
            at(b.weights, next_norm->0),
            b.sum_sq,
            b.next_input,
            d.hidden_dim as u32,
            millionth(),
        );
    }
}

/// A product with weights of the weight file.
pub open spec fn file_product(
    wf: usize,
    spec: BatchMatvecSpec,
    x: usize,
    out: usize,
) -> Work<usize> {
    product(
        Binding { buffer: wf, offset: spec.w },
        Binding { buffer: wf, offset: spec.scales },
        Binding { buffer: wf, offset: spec.biases },
        Binding { buffer: x, offset: 0 },
        Binding { buffer: out, offset: 0 },
        spec.out_dim,
        spec.in_dim,
        spec.group_size,
    )
}

/// A batch of products: each reads the shared input and writes the output of its own slot, in the
/// order of the list, whatever the length of its rows.
pub proof fn law_batch_work(
    s: Seq<Command<usize>>,
    ctx: MetalCtx,
    wf: usize,
    specs: Seq<BatchMatvecSpec>,
    n: int,
)
    requires
        0 <= n <= specs.len(),
    ensures
        works(after_batch(s, ctx, wf, specs, n)) == works(s) + Seq::new(
            n as nat,
            |i: int|
                file_product(
                    wf,
                    specs[i],
                    ctx.buf_input,
                    ctx.batch_out@[specs[i].batch_slot as int],
                ),
        ),
    decreases n,
{
    if n > 0 {
        law_batch_work(s, ctx, wf, specs, n - 1);
        let r = after_batch(s, ctx, wf, specs, n - 1);
        lemma_idle(r);
        let t = after_open(r);
        let spec = specs[n - 1];
        let out = ctx.batch_out@[spec.batch_slot as int];
        let fast = if spec.in_dim <= 4096 {
            3i32
        } else {
            1i32
        };
        law_matvec_work(
            t,
            at(wf, spec.w),
            at(wf, spec.scales),
            at(wf, spec.biases),
            whole(ctx.buf_input),
            whole(out),
            spec.out_dim,
            spec.in_dim,
            spec.group_size,
            fast,
        );
        lemma_idle(after_file_matvec(t, wf, spec, ctx.buf_input, out));
    }
}

proof fn lemma_expert_proj(
    s: Seq<Command<usize>>,
    p: Pipeline,
    data: usize,
    w_off: i32,
    s_off: i32,
    b_off: i32,
    x: usize,
    out: usize,
    rows: u32,
    columns: u32,
    group_size: u32,
)
    requires
        p == Pipeline::MatvecV3 || p == Pipeline::Matvec2bit,
    ensures
        works(
            after_expert_proj(
                s,
                p,
                data,
                w_off,
                s_off,
                b_off,
                x,
                out,
                rows,
                columns,
                group_size,
            ),
        ) == works(s).push(
            Work::Product {
                two_bit: p == Pipeline::Matvec2bit,
                weights: at(data, w_off as u64),
                scales: at(data, s_off as u64),
                biases: at(data, b_off as u64),
                x: all_of(x),
                out: all_of(out),
                rows,
                columns,
                group_size,
                covered: true,
            },
        ),
{
    lemma_idle(s);
    let t = after_open(s);
    let groups = groups_for(rows as int, 8);
    lemma_group_count(rows, 8);
    lemma_grid_work(
        t,
        p,
        at(data, w_off as u64),
        at(data, s_off as u64),
        at(data, b_off as u64),
        whole(x),
        whole(out),
        rows,
        columns,
        group_size,
        groups,
        256,
    );
    lemma_idle(
        after_matvec_grid(
            t,
            p,
            at(data, w_off as u64),
            at(data, s_off as u64),
            at(data, b_off as u64),
            whole(x),
            whole(out),
            rows,
            columns,
            group_size,
            groups,
            256,
        ),
    );
}

/// The expert in slot `k` of the context: its four pieces of work, with the weights of the slot,
/// read by the layout of their width. The two-bit products are taken only where the weights are
/// of two bits and the device has them.
pub proof fn law_context_expert_work(
    s: Seq<Command<usize>>,
    cfg: ModelConfig,
    ctx: MetalCtx,
    k: int,
    use_2bit: bool,
)
    ensures
        ({
            let l = if use_2bit {
                cfg.layout_2bit
            } else {
                cfg.layout_4bit
            };
            let two_bit = use_2bit && ctx.pipelines.matvec_2bit;
            let data = ctx.buf_multi_expert_data@[k];
            let gate = ctx.buf_multi_expert_gate@[k];
            let up = ctx.buf_multi_expert_up@[k];
            let act = ctx.buf_multi_expert_act@[k];
            let mi = cfg.moe_intermediate as u32;
            let hd = cfg.hidden_dim as u32;
            let part = |o: i32| Binding { buffer: data, offset: o as u64 };
            let times = |w: i32, sc: i32, bi: i32, x: usize, out: usize, rows: u32, columns: u32|
                Work::Product {
                    two_bit,
                    weights: part(w),
                    scales: part(sc),
                    biases: part(bi),
                    x: all_of(x),
                    out: all_of(out),
                    rows,
                    columns,
                    group_size: cfg.group_size as u32,
                    covered: true,
                };
            let x = ctx.buf_multi_expert_input;
            let out = ctx.buf_multi_expert_out@[k];
            works(after_expert_slot(s, cfg, ctx, k, use_2bit)) == works(s) + seq![
                times(l.gate_w_off, l.gate_s_off, l.gate_b_off, x, gate, mi, hd),
                times(l.up_w_off, l.up_s_off, l.up_b_off, x, up, mi, hd),
                activation(gate, up, act, mi),
                times(l.down_w_off, l.down_s_off, l.down_b_off, act, out, hd, mi),
            ]
        }),
{
    let l = if use_2bit {
        cfg.layout_2bit
    } else {
        cfg.layout_4bit
    };
    let p = if use_2bit && ctx.pipelines.matvec_2bit {
        Pipeline::Matvec2bit
    } else {
        Pipeline::MatvecV3
    };
    let mi = cfg.moe_intermediate as u32;
    let hd = cfg.hidden_dim as u32;
    let gs = cfg.group_size as u32;
    let data = ctx.buf_multi_expert_data@[k];
    let gate = ctx.buf_multi_expert_gate@[k];
    let up = ctx.buf_multi_expert_up@[k];
    let act = ctx.buf_multi_expert_act@[k];
    let x = ctx.buf_multi_expert_input;
    let out = ctx.buf_multi_expert_out@[k];
    let (g0, g1, g2) = (l.gate_w_off, l.gate_s_off, l.gate_b_off);
    let (u0, u1, u2) = (l.up_w_off, l.up_s_off, l.up_b_off);
    let (d0, d1, d2) = (l.down_w_off, l.down_s_off, l.down_b_off);
    lemma_expert_proj(s, p, data, g0, g1, g2, x, gate, mi, hd, gs);
    let s1 = after_expert_proj(s, p, data, g0, g1, g2, x, gate, mi, hd, gs);
    lemma_expert_proj(s1, p, data, u0, u1, u2, x, up, mi, hd, gs);
    let s2 = after_expert_proj(s1, p, data, u0, u1, u2, x, up, mi, hd, gs);
    lemma_idle(s2);
    let s3 = after_open(s2);
    law_activation_work(s3, false, whole(gate), whole(up), whole(act), mi);
    let s4 = after_swiglu(s3, false, whole(gate), whole(up), whole(act), mi);
    lemma_idle(s4);
    lemma_expert_proj(after_close(s4), p, data, d0, d1, d2, act, out, hd, mi, gs);
}

/// The shared expert's activation and its down projection with weights of the weight file.
pub proof fn law_context_shared_work(
    s: Seq<Command<usize>>,
    cfg: ModelConfig,
    ctx: MetalCtx,
    wf: usize,
    w_off: u64,
    s_off: u64,
    b_off: u64,
)
    ensures
        works(after_shared_down(s, cfg, ctx, wf, w_off, s_off, b_off)) == works(s) + seq![
            activation(
                ctx.buf_shared_gate,
                ctx.buf_shared_up,
                ctx.buf_shared_act,
                cfg.shared_intermediate as u32,
            ),
            product(
                Binding { buffer: wf, offset: w_off },
                Binding { buffer: wf, offset: s_off },
                Binding { buffer: wf, offset: b_off },
                all_of(ctx.buf_shared_act),
                all_of(ctx.buf_shared_out),
                cfg.hidden_dim as u32,
                cfg.shared_intermediate as u32,
                cfg.group_size as u32,
            ),
        ],
{
    let si = cfg.shared_intermediate as u32;
    let (g, u) = (whole(ctx.buf_shared_gate), whole(ctx.buf_shared_up));
    let a = whole(ctx.buf_shared_act);
    lemma_idle(s);
    let s1 = after_open(s);
    law_activation_work(s1, false, g, u, a, si);
    let s2 = after_swiglu(s1, false, g, u, a, si);
    lemma_idle(s2);
    lemma_idle(after_close(s2));
    let s3 = after_open(after_close(s2));
    let hd = cfg.hidden_dim as u32;
    let gs = cfg.group_size as u32;
    let o = whole(ctx.buf_shared_out);
    law_matvec_work(s3, at(wf, w_off), at(wf, s_off), at(wf, b_off), a, o, hd, si, gs, 3);
    lemma_idle(after_matvec(s3, at(wf, w_off), at(wf, s_off), at(wf, b_off), a, o, hd, si, gs, 3));
}

proof fn lemma_outputs_bound(s: Seq<Command<usize>>, ctx: MetalCtx, n: int)
    requires
        0 <= n <= 8,
    ensures
        ({
            let t = after_outputs(s, ctx, n);
            let a = arguments(t);
            &&& works(t) == works(s)
            &&& a.pipeline == arguments(s).pipeline
            &&& a.numbers == arguments(s).numbers
            &&& forall|i: int|
                0 <= i < n ==> #[trigger] a.buffers[(3 + i) as u64] == all_of(
                    ctx.buf_multi_expert_out@[i],
                )
            &&& forall|j: u64| j < 3 ==> #[trigger] a.buffers[j] == arguments(s).buffers[j]
        }),
    decreases n,
{
    if n > 0 {
        lemma_outputs_bound(s, ctx, n - 1);
        let t = after_outputs(s, ctx, n - 1);
        lemma_set_buffer(t, 3 + (n - 1), whole(ctx.buf_multi_expert_out@[n - 1]));
    }
}

/// The sum at the end of a layer, from the context's buffers, and its norm into the next layer's
/// input.
pub proof fn law_context_combine_work(
    s: Seq<Command<usize>>,
    ctx: MetalCtx,
    wf: usize,
    actual_k: u32,
    next_norm: u64,
    hidden_dim: u32,
    eps: u32,
)
    ensures
        works(after_ctx_combine(s, ctx, wf, actual_k, next_norm, hidden_dim, eps)) == works(s)
            + seq![
            Work::Combined {
                residual: all_of(ctx.buf_h_mid),
                shared: all_of(ctx.buf_shared_out),
                out: all_of(ctx.buf_moe_hidden),
                outputs: Seq::new(8, |i: int| all_of(ctx.buf_multi_expert_out@[i])),
                params: all_of(ctx.buf_combine_params),
                dim: hidden_dim,
                count: actual_k,
                covered: true,
            },
        ] + norm_works(
            ctx.buf_moe_hidden,
            Binding { buffer: wf, offset: next_norm },
            ctx.buf_cmd3_sum_sq,
            ctx.buf_input,
            hidden_dim,
            eps,
        ),
{
    let p = Pipeline::MoeCombineResidual;
    lemma_group_count(hidden_dim, 256);
    lemma_idle(s);
    let s0 = after_open(s);
    lemma_set_pipeline(s0, p);
    let s1 = after_pipeline(s0, p);
    lemma_set_buffer(s1, 0, whole(ctx.buf_h_mid));
    let s2 = after_buffer(s1, 0, whole(ctx.buf_h_mid));
    lemma_set_buffer(s2, 1, whole(ctx.buf_shared_out));
    let s3 = after_buffer(s2, 1, whole(ctx.buf_shared_out));
    lemma_set_buffer(s3, 2, whole(ctx.buf_moe_hidden));
    let s4 = after_buffer(s3, 2, whole(ctx.buf_moe_hidden));
    lemma_outputs_bound(s4, ctx, 8);
    let s5 = after_outputs(s4, ctx, 8);
    lemma_set_buffer(s5, 11, whole(ctx.buf_combine_params));
    let s6 = after_buffer(s5, 11, whole(ctx.buf_combine_params));
    lemma_set_number(s6, 12, hidden_dim);
    let s7 = after_u32(s6, 12, hidden_dim);
    lemma_set_number(s7, 13, actual_k);
    let s8 = after_u32(s7, 13, actual_k);
    lemma_dispatch(s8, groups_for(hidden_dim as int, 256), 256);
    let outputs = Seq::new(8, |i: int| all_of(ctx.buf_multi_expert_out@[i]));
    let a = arguments(s8);
    assert(Seq::new(8, |i: int| a.buffers[(3 + i) as u64]) =~= outputs) by {
        assert forall|i: int| 0 <= i < 8 implies a.buffers[(3 + i) as u64]
            == #[trigger] outputs[i] by {
            assert(arguments(s5).buffers[(3 + i) as u64] == outputs[i]);
        }
    }
    assert(a.buffers[0] == arguments(s5).buffers[0]);
    assert(a.buffers[1] == arguments(s5).buffers[1]);
    assert(a.buffers[2] == arguments(s5).buffers[2]);
    let s9 = after_dispatch(s8, groups_for(hidden_dim as int, 256), 256);
    lemma_idle(s9);
    lemma_idle(after_close(s9));
    let t1 = after_open(after_close(s9));
    let m = ctx.buf_moe_hidden;
    let q = ctx.buf_cmd3_sum_sq;
    lemma_square_sum_work(t1, m, q, hidden_dim);
    let t2 = after_rms_norm_sum(t1, m, q, hidden_dim);
    lemma_idle(t2);
    lemma_idle(after_close(t2));
    let t3 = after_open(after_close(t2));
    let bf = Pipeline::RmsNormApplyBf16;
    let w = at(wf, next_norm);
    lemma_normed_work(t3, bf, m, w, q, ctx.buf_input, hidden_dim, eps);
    lemma_idle(after_rms_norm_scale(t3, bf, m, w, q, ctx.buf_input, hidden_dim, eps));
}

} // verus!
