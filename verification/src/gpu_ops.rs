//! Recording of projections and experts with the buffers of a device context.

use vstd::prelude::*;

use crate::command::{at, whole, Command, Pipeline};
use crate::constants::{MAX_K, ROWS_PER_TG, TG_SIZE};
use crate::kernels::{
    after_buffer, after_close, after_dispatch, after_finish, after_matvec, after_matvec_grid,
    after_open, after_pipeline, after_rms_norm_scale, after_rms_norm_sum, after_swiglu, after_u32,
    dispatch, encode_matvec_offset, encode_rms_norm_apply_bf16, encode_rms_norm_sum, encode_swiglu,
    end_encoding, finish, group_count, groups_for, open_encoder, record_matvec, set_buffer,
    set_pipeline, set_u32,
};
use crate::metal::MetalCtx;
use crate::moe_program::{combine_params, combine_params_spec};
use crate::quant::{dequant_matvec_4bit, matvec, overwrite};
use crate::scalar::Scalar;
use crate::types::{ExpertLayoutTable, ModelConfig};
use crate::weights::QuantMat;

verus! {

/// A projection of a batch. Weights, scales and biases are given by their offsets in the
/// weight file.
#[derive(Clone, Copy, Debug, PartialEq, Eq, Structural)]
pub struct BatchMatvecSpec {
    pub w: u64,
    pub scales: u64,
    pub biases: u64,
    pub out_dim: u32,
    pub in_dim: u32,
    pub group_size: u32,
    pub batch_slot: usize,
}

/// Widest input of the tiled matvec.
pub const TILED_MAX_IN: u32 = 4096;

/// The matvec for an input of the given width: tiled if it fits, else one row per group.
pub open spec fn speed_for(in_dim: u32) -> i32 {
    if in_dim <= TILED_MAX_IN {
        3
    } else {
        1
    }
}

/// The recording of a projection of the weight file.
pub open spec fn after_file_matvec(
    s: Seq<Command<usize>>,
    wf: usize,
    spec: BatchMatvecSpec,
    x: usize,
    out: usize,
) -> Seq<Command<usize>> {
    after_matvec(
        s,
        at(wf, spec.w),
        at(wf, spec.scales),
        at(wf, spec.biases),
        whole(x),
        whole(out),
        spec.out_dim,
        spec.in_dim,
        spec.group_size,
        speed_for(spec.in_dim),
    )
}

fn encode_file_matvec(
    enc: &mut Vec<Command<usize>>,
    wf: usize,
    spec: &BatchMatvecSpec,
    x: usize,
    out: usize,
)
    requires
        spec.out_dim + ROWS_PER_TG - 1 <= u32::MAX,
    ensures
        final(enc)@ == after_file_matvec(old(enc)@, wf, *spec, x, out),
{
    let speed: i32 = if spec.in_dim <= TILED_MAX_IN {
        3
    } else {
        1
    };
    encode_matvec_offset(
        enc,
        at(wf, spec.w),
        at(wf, spec.scales),
        at(wf, spec.biases),
        whole(x),
        whole(out),
        spec.out_dim,
        spec.in_dim,
        spec.group_size,
        speed,
    );
}

/// A projection on the device: the input buffer holds the vector, the output buffer gets the
/// product.
pub fn gpu_dequant_matvec(ctx: &MetalCtx, wf: usize, spec: &BatchMatvecSpec) -> (r: Vec<
    Command<usize>,
>)
    requires
        spec.out_dim + ROWS_PER_TG - 1 <= u32::MAX,
    ensures
        r@ == after_finish(
            after_file_matvec(
                after_open(Seq::empty()),
                wf,
                *spec,
                ctx.buf_input,
                ctx.buf_output,
            ),
        ),
{
    let mut enc: Vec<Command<usize>> = Vec::new();
    open_encoder(&mut enc);
    encode_file_matvec(&mut enc, wf, spec, ctx.buf_input, ctx.buf_output);
    finish(&mut enc);
    enc
}

/// Multiply a quantised matrix with a vector: with a weight file on the device, return the
/// commands that do it there and leave `out` alone; else do it here.
pub fn fast_dequant_matvec<S: Scalar>(
    ctx: &MetalCtx,
    spec: &BatchMatvecSpec,
    m: &QuantMat,
    x: &[S],
    out: &mut [S],
) -> (r: Option<Vec<Command<usize>>>)
    requires
        spec.out_dim + ROWS_PER_TG - 1 <= u32::MAX,
        spec.out_dim <= old(out)@.len(),
        m.fits(
            x@.len() as int,
            spec.out_dim as int,
            spec.in_dim as int,
            spec.group_size as int,
        ),
    ensures
        match ctx.wf_buf {
            Some(wf) => {
                &&& r matches Some(p)
                &&& p@ == after_finish(
                    after_file_matvec(
                        after_open(Seq::empty()),
                        wf,
                        *spec,
                        ctx.buf_input,
                        ctx.buf_output,
                    ),
                )
                &&& final(out)@ == old(out)@
            },
            None => {
                &&& r is None
                &&& final(out)@ == overwrite(
                    old(out)@,
                    0,
                    matvec(
                        m.quant(),
                        x@,
                        spec.out_dim as int,
                        spec.in_dim as int,
                        spec.group_size as int,
                    ),
                )
            },
        },
{
    match ctx.wf_buf {
        Some(wf) => Some(gpu_dequant_matvec(ctx, wf, spec)),
        None => {
            dequant_matvec_4bit(
                m.w,
                m.scales,
                m.biases,
                x,
                out,
                spec.out_dim as usize,
                spec.in_dim as usize,
                spec.group_size as usize,
            );
            None
        },
    }
}

/// The projections of a batch can be recorded.
pub open spec fn batch_fits(ctx: MetalCtx, specs: Seq<BatchMatvecSpec>) -> bool {
    forall|i: int|
        0 <= i < specs.len() ==> (#[trigger] specs[i]).out_dim + ROWS_PER_TG - 1 <= u32::MAX
            && specs[i].batch_slot < ctx.batch_out@.len()
}

/// The recording of the first `n` projections of a batch, each in an encoder of its own.
pub open spec fn after_batch(
    s: Seq<Command<usize>>,
    ctx: MetalCtx,
    wf: usize,
    specs: Seq<BatchMatvecSpec>,
    n: int,
) -> Seq<Command<usize>>
    decreases n,
{
    if n <= 0 {
        s
    } else {
        let t = after_open(after_batch(s, ctx, wf, specs, n - 1));
        let spec = specs[n - 1];
        after_close(
            after_file_matvec(t, wf, spec, ctx.buf_input, ctx.batch_out@[spec.batch_slot as int]),
        )
    }
}

/// Record projections of one input into the output slots; nothing without a weight file.
pub fn gpu_encode_batch_matvec(
    ctx: &MetalCtx,
    cmd: &mut Vec<Command<usize>>,
    specs: &[BatchMatvecSpec],
)
    requires
        batch_fits(*ctx, specs@),
    ensures
        final(cmd)@ == (match ctx.wf_buf {
            Some(wf) => after_batch(old(cmd)@, *ctx, wf, specs@, specs@.len() as int),
            None => old(cmd)@,
        }),
{
    let wf: usize = match ctx.wf_buf {
        Some(wf) => wf,
        None => {
            return ;
        },
    };
    for i in 0..specs.len()
        invariant
            batch_fits(*ctx, specs@),
            cmd@ == after_batch(old(cmd)@, *ctx, wf, specs@, i as int),
    {
        assert(specs@[i as int].batch_slot < ctx.batch_out@.len());
        let spec = specs[i];
        open_encoder(cmd);
        encode_file_matvec(cmd, wf, &spec, ctx.buf_input, ctx.batch_out[spec.batch_slot]);
        end_encoding(cmd);
    }
}

/// Take the results of a batch out of what the output slots hold.
pub fn gpu_flush_batch_results<S: Scalar>(batch_out: &[Vec<S>], specs: &[BatchMatvecSpec]) -> (r:
    Vec<Vec<S>>)
    requires
        forall|i: int|
            0 <= i < specs@.len() ==> (#[trigger] specs@[i]).batch_slot < batch_out@.len()
                && specs@[i].out_dim <= batch_out@[specs@[i].batch_slot as int]@.len(),
    ensures
        r@.len() == specs@.len(),
        forall|i: int|
            0 <= i < specs@.len() ==> (#[trigger] r@[i])@
                == batch_out@[specs@[i].batch_slot as int]@.take(specs@[i].out_dim as int),
{
    let mut r: Vec<Vec<S>> = Vec::new();
    for i in 0..specs.len()
        invariant
            forall|i: int|
                0 <= i < specs@.len() ==> (#[trigger] specs@[i]).batch_slot < batch_out@.len()
                    && specs@[i].out_dim <= batch_out@[specs@[i].batch_slot as int]@.len(),
            r@.len() == i,
            forall|j: int|
                0 <= j < i ==> (#[trigger] r@[j])@
                    == batch_out@[specs@[j].batch_slot as int]@.take(specs@[j].out_dim as int),
    {
        let spec = specs[i];
        let src: &Vec<S> = &batch_out[spec.batch_slot];
        let n: usize = spec.out_dim as usize;
        let mut out: Vec<S> = Vec::new();
        for d in 0..n
            invariant
                n <= src@.len(),
                out@ == src@.take(d as int),
        {
            assert(src@.take(d as int + 1) =~= src@.take(d as int).push(src@[d as int]));
            let v = src[d].dup();
            out.push(v);
        }
        r.push(out);
    }
    r
}

/// The dimensions of a configuration fit into the arguments of the expert kernels.
pub open spec fn cfg_args_fit(cfg: ModelConfig) -> bool {
    &&& 0 <= cfg.hidden_dim
    &&& 0 <= cfg.moe_intermediate
    &&& 0 <= cfg.shared_intermediate
    &&& 0 <= cfg.group_size
}

/// No offset of a layout is negative.
pub open spec fn offsets_valid(l: ExpertLayoutTable) -> bool {
    &&& 0 <= l.gate_w_off
    &&& 0 <= l.gate_s_off
    &&& 0 <= l.gate_b_off
    &&& 0 <= l.up_w_off
    &&& 0 <= l.up_s_off
    &&& 0 <= l.up_b_off
    &&& 0 <= l.down_w_off
    &&& 0 <= l.down_s_off
    &&& 0 <= l.down_b_off
}

/// The pipeline of an expert's projections: the tiled 4-bit matvec stands in where the 2-bit
/// one is missing.
pub open spec fn expert_pipeline(use_2bit: bool, has_2bit: bool) -> Pipeline {
    if use_2bit && has_2bit {
        Pipeline::Matvec2bit
    } else {
        Pipeline::MatvecV3
    }
}

/// The recording of a projection by a part of a packed expert, in an encoder of its own.
pub open spec fn after_expert_proj(
    s: Seq<Command<usize>>,
    pipeline: Pipeline,
    data: usize,
    w_off: i32,
    s_off: i32,
    b_off: i32,
    x: usize,
    out: usize,
    out_dim: u32,
    in_dim: u32,
    group_size: u32,
) -> Seq<Command<usize>> {
    after_close(
        after_matvec_grid(
            after_open(s),
            pipeline,
            at(data, w_off as u64),
            at(data, s_off as u64),
            at(data, b_off as u64),
            whole(x),
            whole(out),
            out_dim,
            in_dim,
            group_size,
            groups_for(out_dim as int, ROWS_PER_TG as int),
            TG_SIZE as int,
        ),
    )
}

fn encode_expert_proj(
    enc: &mut Vec<Command<usize>>,
    pipeline: Pipeline,
    data: usize,
    w_off: i32,
    s_off: i32,
    b_off: i32,
    x: usize,
    out: usize,
    out_dim: u32,
    in_dim: u32,
    group_size: u32,
)
    requires
        0 <= w_off,
        0 <= s_off,
        0 <= b_off,
        out_dim <= i32::MAX,
    ensures
        final(enc)@ == after_expert_proj(
            old(enc)@,
            pipeline,
            data,
            w_off,
            s_off,
            b_off,
            x,
            out,
            out_dim,
            in_dim,
            group_size,
        ),
{
    open_encoder(enc);
    let tgs: u64 = group_count(out_dim, ROWS_PER_TG);
    record_matvec(
        enc,
        pipeline,
        at(data, w_off as u64),
        at(data, s_off as u64),
        at(data, b_off as u64),
        whole(x),
        whole(out),
        out_dim,
        in_dim,
        group_size,
        tgs,
        TG_SIZE as u64,
    );
    end_encoding(enc);
}

/// The recording of the expert of a slot: four encoders, for gate, up, activation and down.
pub open spec fn after_expert_slot(
    s: Seq<Command<usize>>,
    cfg: ModelConfig,
    ctx: MetalCtx,
    k: int,
    use_2bit: bool,
) -> Seq<Command<usize>> {
    let l = if use_2bit {
        cfg.layout_2bit
    } else {
        cfg.layout_4bit
    };
    let p = expert_pipeline(use_2bit, ctx.pipelines.matvec_2bit);
    let mi = cfg.moe_intermediate as u32;
    let hd = cfg.hidden_dim as u32;
    let gs = cfg.group_size as u32;
    let data = ctx.buf_multi_expert_data@[k];
    let gate = ctx.buf_multi_expert_gate@[k];
    let up = ctx.buf_multi_expert_up@[k];
    let act = ctx.buf_multi_expert_act@[k];
    let x = ctx.buf_multi_expert_input;
    let s = after_expert_proj(
        s,
        p,
        data,
        l.gate_w_off,
        l.gate_s_off,
        l.gate_b_off,
        x,
        gate,
        mi,
        hd,
        gs,
    );
    let s = after_expert_proj(s, p, data, l.up_w_off, l.up_s_off, l.up_b_off, x, up, mi, hd, gs);
    let s = after_close(
        after_swiglu(after_open(s), false, whole(gate), whole(up), whole(act), mi),
    );
    after_expert_proj(
        s,
        p,
        data,
        l.down_w_off,
        l.down_s_off,
        l.down_b_off,
        act,
        ctx.buf_multi_expert_out@[k],
        hd,
        mi,
        gs,
    )
}

/// There are buffers for slot `k`.
pub open spec fn has_slot(ctx: MetalCtx, k: int) -> bool {
    &&& k < ctx.buf_multi_expert_data@.len()
    &&& k < ctx.buf_multi_expert_gate@.len()
    &&& k < ctx.buf_multi_expert_up@.len()
    &&& k < ctx.buf_multi_expert_act@.len()
    &&& k < ctx.buf_multi_expert_out@.len()
}

/// Record the expert of a slot.
pub fn gpu_encode_expert_forward_slot(
    cfg: &ModelConfig,
    ctx: &MetalCtx,
    cmd: &mut Vec<Command<usize>>,
    k: usize,
    use_2bit: bool,
)
    requires
        cfg_args_fit(*cfg),
        offsets_valid(
            if use_2bit {
                cfg.layout_2bit
            } else {
                cfg.layout_4bit
            },
        ),
        has_slot(*ctx, k as int),
    ensures
        final(cmd)@ == after_expert_slot(old(cmd)@, *cfg, *ctx, k as int, use_2bit),
{
    let l = if use_2bit {
        cfg.layout_2bit
    } else {
        cfg.layout_4bit
    };
    let p = if use_2bit && ctx.pipelines.matvec_2bit {
        Pipeline::Matvec2bit
    } else {
        Pipeline::MatvecV3
    };
    let mi: u32 = cfg.moe_intermediate as u32;
    let hd: u32 = cfg.hidden_dim as u32;
    let gs: u32 = cfg.group_size as u32;
    let data: usize = ctx.buf_multi_expert_data[k];
    let gate: usize = ctx.buf_multi_expert_gate[k];
    let up: usize = ctx.buf_multi_expert_up[k];
    let act: usize = ctx.buf_multi_expert_act[k];
    let x: usize = ctx.buf_multi_expert_input;
    encode_expert_proj(
        cmd,
        p,
        data,
        l.gate_w_off,
        l.gate_s_off,
        l.gate_b_off,
        x,
        gate,
        mi,
        hd,
        gs,
    );
    encode_expert_proj(cmd, p, data, l.up_w_off, l.up_s_off, l.up_b_off, x, up, mi, hd, gs);
    open_encoder(cmd);
    encode_swiglu(cmd, false, whole(gate), whole(up), whole(act), mi);
    end_encoding(cmd);
    encode_expert_proj(
        cmd,
        p,
        data,
        l.down_w_off,
        l.down_s_off,
        l.down_b_off,
        act,
        ctx.buf_multi_expert_out[k],
        hd,
        mi,
        gs,
    );
}

/// The recording of the shared expert's activation and down projection.
pub open spec fn after_shared_down(
    s: Seq<Command<usize>>,
    cfg: ModelConfig,
    ctx: MetalCtx,
    wf: usize,
    w_off: u64,
    s_off: u64,
    b_off: u64,
) -> Seq<Command<usize>> {
    let si = cfg.shared_intermediate as u32;
    let s = after_close(
        after_swiglu(
            after_open(s),
            false,
            whole(ctx.buf_shared_gate),
            whole(ctx.buf_shared_up),
            whole(ctx.buf_shared_act),
            si,
        ),
    );
    after_close(
        after_matvec(
            after_open(s),
            at(wf, w_off),
            at(wf, s_off),
            at(wf, b_off),
            whole(ctx.buf_shared_act),
            whole(ctx.buf_shared_out),
            cfg.hidden_dim as u32,
            si,
            cfg.group_size as u32,
            3,
        ),
    )
}

/// Record the shared expert's activation and down projection; nothing without a weight file.
/// The offsets are those of the down projection in the weight file.
pub fn gpu_encode_shared_down_swiglu(
    cfg: &ModelConfig,
    ctx: &MetalCtx,
    cmd: &mut Vec<Command<usize>>,
    w_off: u64,
    s_off: u64,
    b_off: u64,
)
    requires
        cfg_args_fit(*cfg),
    ensures
        final(cmd)@ == (match ctx.wf_buf {
            Some(wf) => after_shared_down(old(cmd)@, *cfg, *ctx, wf, w_off, s_off, b_off),
            None => old(cmd)@,
        }),
{
    let wf: usize = match ctx.wf_buf {
        Some(wf) => wf,
        None => {
            return ;
        },
    };
    let si: u32 = cfg.shared_intermediate as u32;
    open_encoder(cmd);
    encode_swiglu(
        cmd,
        false,
        whole(ctx.buf_shared_gate),
        whole(ctx.buf_shared_up),
        whole(ctx.buf_shared_act),
        si,
    );
    end_encoding(cmd);
    open_encoder(cmd);
    encode_matvec_offset(
        cmd,
        at(wf, w_off),
        at(wf, s_off),
        at(wf, b_off),
        whole(ctx.buf_shared_act),
        whole(ctx.buf_shared_out),
        cfg.hidden_dim as u32,
        si,
        cfg.group_size as u32,
        3,
    );
    end_encoding(cmd);
}

/// The recording of the output buffers of the first `n` slots.
pub open spec fn after_outputs(s: Seq<Command<usize>>, ctx: MetalCtx, n: int) -> Seq<
    Command<usize>,
>
    decreases n,
{
    if n <= 0 {
        s
    } else {
        after_buffer(
            after_outputs(s, ctx, n - 1),
            3 + (n - 1),
            whole(ctx.buf_multi_expert_out@[n - 1]),
        )
    }
}

/// The recording of the combination of the experts and of the next layer's norm, in three
/// encoders.
pub open spec fn after_ctx_combine(
    s: Seq<Command<usize>>,
    ctx: MetalCtx,
    wf: usize,
    actual_k: u32,
    next_norm: u64,
    hidden_dim: u32,
    eps: u32,
) -> Seq<Command<usize>> {
    let s = after_pipeline(after_open(s), Pipeline::MoeCombineResidual);
    let s = after_buffer(s, 0, whole(ctx.buf_h_mid));
    let s = after_buffer(s, 1, whole(ctx.buf_shared_out));
    let s = after_buffer(s, 2, whole(ctx.buf_moe_hidden));
    let s = after_outputs(s, ctx, MAX_K as int);
    let s = after_buffer(s, 11, whole(ctx.buf_combine_params));
    let s = after_u32(s, 12, hidden_dim);
    let s = after_u32(s, 13, actual_k);
    let s = after_close(after_dispatch(s, groups_for(hidden_dim as int, 256), 256));
    let s = after_close(
        after_rms_norm_sum(after_open(s), ctx.buf_moe_hidden, ctx.buf_cmd3_sum_sq, hidden_dim),
    );
    after_close(
        after_rms_norm_scale(
            after_open(s),
            Pipeline::RmsNormApplyBf16,
            ctx.buf_moe_hidden,
            at(wf, next_norm),
            ctx.buf_cmd3_sum_sq,
            ctx.buf_input,
            hidden_dim,
            eps,
        ),
    )
}

/// Record the combination of the experts and the next layer's norm; nothing without a weight
/// file or the kernel. Returns what to write into the parameter buffer. `next_norm` is the
/// offset of the norm's weights, `eps` a bit pattern.
pub fn gpu_encode_combine<S: Scalar>(
    ctx: &MetalCtx,
    cmd: &mut Vec<Command<usize>>,
    actual_k: u32,
    shared_gate_score: &S,
    expert_weights: &[S],
    next_norm: u64,
    hidden_dim: u32,
    eps: u32,
) -> (r: Option<Vec<S>>)
    requires
        ctx.buf_multi_expert_out@.len() >= MAX_K,
        expert_weights@.len() == MAX_K,
        actual_k <= MAX_K,
        hidden_dim + 255 <= u32::MAX,
    ensures
        match ctx.wf_buf {
            Some(wf) if ctx.pipelines.moe_combine_residual => {
                &&& r matches Some(p)
                &&& p@ == combine_params_spec(
                    expert_weights@.take(actual_k as int),
                    *shared_gate_score,
                )
                &&& final(cmd)@ == after_ctx_combine(
                    old(cmd)@,
                    *ctx,
                    wf,
                    actual_k,
                    next_norm,
                    hidden_dim,
                    eps,
                )
            },
            _ => r is None && final(cmd)@ == old(cmd)@,
        },
{
    if !ctx.pipelines.moe_combine_residual {
        return None;
    }
    let wf: usize = match ctx.wf_buf {
        Some(wf) => wf,
        None => {
            return None;
        },
    };
    let used = vstd::slice::slice_subrange(expert_weights, 0, actual_k as usize);
    assert(used@ =~= expert_weights@.take(actual_k as int));
    let params = combine_params(used, shared_gate_score);
    open_encoder(cmd);
    set_pipeline(cmd, Pipeline::MoeCombineResidual);
    set_buffer(cmd, 0, whole(ctx.buf_h_mid));
    set_buffer(cmd, 1, whole(ctx.buf_shared_out));
    set_buffer(cmd, 2, whole(ctx.buf_moe_hidden));
    let ghost s = cmd@;
    for k in 0..MAX_K
        invariant
            ctx.buf_multi_expert_out@.len() >= MAX_K,
            cmd@ == after_outputs(s, *ctx, k as int),
    {
        set_buffer(cmd, 3 + k as u64, whole(ctx.buf_multi_expert_out[k]));
    }
    set_buffer(cmd, 11, whole(ctx.buf_combine_params));
    set_u32(cmd, 12, hidden_dim);
    set_u32(cmd, 13, actual_k);
    let tgs: u64 = group_count(hidden_dim, 256);
    dispatch(cmd, tgs, 256);
    end_encoding(cmd);
    open_encoder(cmd);
    encode_rms_norm_sum(cmd, ctx.buf_moe_hidden, ctx.buf_cmd3_sum_sq, hidden_dim);
    end_encoding(cmd);
    open_encoder(cmd);
    encode_rms_norm_apply_bf16(
        cmd,
        ctx.buf_moe_hidden,
        at(wf, next_norm),
        ctx.buf_cmd3_sum_sq,
        ctx.buf_input,
        hidden_dim,
        eps,
    );
    end_encoding(cmd);
    Some(params)
}

} // verus!
