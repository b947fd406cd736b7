//! The order of commands in a list: work stands between the opening and the closing of an
//! encoder, and the list ends with being submitted, once.

use vstd::prelude::*;

use crate::attention_math::score_scale;
use crate::command::{whole, Binding, Command, Pipeline, Tensor};
use crate::constants::{ExpertLayout, MAX_K};
use crate::expert::{expert_commands, ExpertBindings, ExpertVectors};
use crate::full_attention::{after_qkv, FullAttnCmd2State};
use crate::full_forward::{
    after_activations, after_downs, after_projections, layer_commands, LayerBuffers,
};
use crate::gpu_forward::slots_used;
use crate::kernels::{
    after_buffer, after_close, after_commit, after_finish, after_matvec_grid, after_open,
    after_pipeline, after_project, after_residual_add, after_rms_norm_scale, after_rms_norm_sum,
    after_swiglu,
};
use crate::linear_program::{
    after_gated_norm, after_in_proj, after_recurrence, conv_command, decay_command, delta_command,
    fused_commands, gated_norm_command, qk_norm_command, recurrence_commands, split_commands,
    LinearBuffers, LinearOffsets, RecurrenceBuffers,
};
use crate::moe_program::{
    after_attention, after_back_projection, after_combine, after_experts, after_post_expert,
    after_pre_expert, after_router, after_shared, after_slots, full_router_commands,
    linear_router_commands, ExpertBuffers, RouterBuffers,
};
use crate::pipeline::{GroupAction, GroupWork, LinearGroup, PipelineBuffers};
use crate::scalar::Scalar;
use crate::schedule::GroupStep;
use crate::weights::LayerDims;

verus! {

/// Where a list of commands stands.
pub enum Phase {
    /// No encoder is open.
    Idle,
    /// An encoder is open.
    Open,
    /// The list was submitted.
    Committed,
    /// The submitted work is done.
    Waited,
    /// A command stood where it may not.
    Wrong,
}

/// Where a list stands after one more command.
pub open spec fn next_phase<B>(p: Phase, c: Command<B>) -> Phase {
    match (p, c) {
        (Phase::Idle, Command::NewEncoder) => Phase::Open,
        (Phase::Idle, Command::Commit) => Phase::Committed,
        (Phase::Committed, Command::WaitUntilCompleted) => Phase::Waited,
        (Phase::Open, Command::EndEncoding) => Phase::Idle,
        (Phase::Open, Command::NewEncoder) => Phase::Wrong,
        (Phase::Open, Command::Commit) => Phase::Wrong,
        (Phase::Open, Command::WaitUntilCompleted) => Phase::Wrong,
        (Phase::Open, _) => Phase::Open,
        _ => Phase::Wrong,
    }
}

/// Where a list of commands stands at its end.
pub open spec fn phase<B>(s: Seq<Command<B>>) -> Phase
    decreases s.len(),
{
    if s.len() == 0 {
        Phase::Idle
    } else {
        next_phase(phase(s.drop_last()), s.last())
    }
}

broadcast proof fn lemma_push<B>(s: Seq<Command<B>>, c: Command<B>)
    ensures
        #[trigger] phase(s.push(c)) == next_phase(phase(s), c),
{
    assert(s.push(c).drop_last() =~= s);
}

broadcast proof fn lemma_matvec_grid<B>(
    s: Seq<Command<B>>,
    pipeline: Pipeline,
    w: Binding<B>,
    scales: Binding<B>,
    biases: Binding<B>,
    x: Binding<B>,
    out: Binding<B>,
    out_dim: u32,
    in_dim: u32,
    group_size: u32,
    groups: int,
    threads: int,
)
    requires
        phase(s) is Open,
    ensures
        (#[trigger] phase(
            after_matvec_grid(
                s,
                pipeline,
                w,
                scales,
                biases,
                x,
                out,
                out_dim,
                in_dim,
                group_size,
                groups,
                threads,
            ),
        )) is Open,
{
    broadcast use lemma_push;

}

broadcast proof fn lemma_swiglu<B>(
    s: Seq<Command<B>>,
    has_vec4: bool,
    gate: Binding<B>,
    up: Binding<B>,
    out: Binding<B>,
    dim: u32,
)
    requires
        phase(s) is Open,
    ensures
        (#[trigger] phase(after_swiglu(s, has_vec4, gate, up, out, dim))) is Open,
{
    broadcast use lemma_push;

}

broadcast proof fn lemma_norm_sum<B>(s: Seq<Command<B>>, x: B, sum_sq: B, dim: u32)
    requires
        phase(s) is Open,
    ensures
        (#[trigger] phase(after_rms_norm_sum(s, x, sum_sq, dim))) is Open,
{
    broadcast use lemma_push;

}

broadcast proof fn lemma_norm_scale<B>(
    s: Seq<Command<B>>,
    pipeline: Pipeline,
    x: B,
    weight: Binding<B>,
    sum_sq: B,
    out: B,
    dim: u32,
    eps: u32,
)
    requires
        phase(s) is Open,
    ensures
        (#[trigger] phase(after_rms_norm_scale(s, pipeline, x, weight, sum_sq, out, dim, eps)))
            is Open,
{
    broadcast use lemma_push;

}

broadcast proof fn lemma_residual<B>(s: Seq<Command<B>>, a: B, b: B, out: B, dim: u32)
    requires
        phase(s) is Open,
    ensures
        (#[trigger] phase(after_residual_add(s, a, b, out, dim))) is Open,
{
    broadcast use lemma_push;

}

broadcast group group_inside {
    lemma_push,
    lemma_matvec_grid,
    lemma_swiglu,
    lemma_norm_sum,
    lemma_norm_scale,
    lemma_residual,
}

proof fn lemma_attention<B>(s: Seq<Command<B>>, a: FullAttnCmd2State<B>)
    requires
        phase(s) is Open,
    ensures
        phase(after_attention(s, a)) is Open,
{
    broadcast use group_inside;

}

proof fn lemma_back_projection<B>(
    s: Seq<Command<B>>,
    d: LayerDims,
    layer: usize,
    tensor: Tensor,
    x: B,
    in_dim: usize,
    residual: B,
    post_norm: u64,
    b: RouterBuffers<B>,
)
    requires
        phase(s) is Open,
    ensures
        phase(after_back_projection(s, d, layer, tensor, x, in_dim, residual, post_norm, b))
            is Open,
{
    broadcast use group_inside;

}

/// Routing behind attention, of either kind or alone, is recorded in order, submitted and
/// waited for.
pub proof fn law_routing_in_order<B>(
    d: LayerDims,
    layer: usize,
    a: FullAttnCmd2State<B>,
    gated: B,
    residual: B,
    x: B,
    post_norm: u64,
    b: RouterBuffers<B>,
)
    ensures
        phase(full_router_commands(d, layer, a, post_norm, b)) is Waited,
        phase(linear_router_commands(d, layer, gated, residual, post_norm, b)) is Waited,
        phase(after_finish(after_router(after_open(Seq::empty()), d, layer, x, b))) is Waited,
{
    broadcast use group_inside;

    let s = after_open(Seq::<Command<B>>::empty());
    assert(phase(Seq::<Command<B>>::empty()) is Idle);
    assert(phase(s) is Open);
    lemma_attention(s, a);
    lemma_back_projection(
        after_attention(s, a),
        d,
        layer,
        a.o_proj,
        a.out_buf,
        a.q_dim as usize,
        a.hidden_buf,
        post_norm,
        b,
    );
    lemma_back_projection(
        s,
        d,
        layer,
        Tensor::OutProj(layer),
        gated,
        d.total_value,
        residual,
        post_norm,
        b,
    );
}

proof fn lemma_experts<B>(
    s: Seq<Command<B>>,
    has_vec4: bool,
    d: LayerDims,
    l: ExpertLayout,
    b: ExpertBuffers<B>,
    present: Seq<bool>,
    k: int,
)
    requires
        phase(s) is Open,
    ensures
        phase(after_experts(s, has_vec4, d, l, b, present, k)) is Open,
    decreases k,
{
    broadcast use group_inside;

    if k > 0 {
        lemma_experts(s, has_vec4, d, l, b, present, k - 1);
    }
}

proof fn lemma_slots<B>(
    s: Seq<Command<B>>,
    b: ExpertBuffers<B>,
    present: Seq<bool>,
    k: int,
    n: int,
)
    requires
        phase(s) is Open,
    ensures
        phase(after_slots(s, b, present, k, n)) is Open,
    decreases n,
{
    broadcast use group_inside;

    if n > 0 {
        lemma_slots(s, b, present, k, n - 1);
    }
}

proof fn lemma_combine<B>(
    s: Seq<Command<B>>,
    d: LayerDims,
    b: ExpertBuffers<B>,
    present: Seq<bool>,
    k: int,
)
    requires
        phase(s) is Open,
    ensures
        phase(after_combine(s, d, b, present, k)) is Open,
{
    broadcast use group_inside;

    let t = after_pipeline(s, Pipeline::MoeCombineResidual);
    let t = after_buffer(t, 0, whole(b.h_mid));
    let t = after_buffer(t, 1, whole(b.shared_down));
    let t = after_buffer(t, 2, whole(b.moe_hidden));
    lemma_slots(t, b, present, k, MAX_K as int);
}

proof fn lemma_post_expert<B>(
    s: Seq<Command<B>>,
    has_vec4: bool,
    d: LayerDims,
    l: ExpertLayout,
    layer: usize,
    b: ExpertBuffers<B>,
    present: Seq<bool>,
    bound: Seq<bool>,
    k: int,
    next_norm: Option<u64>,
)
    requires
        phase(s) is Open,
    ensures
        phase(
            after_post_expert(s, has_vec4, d, l, layer, b, present, bound, k, next_norm),
        ) is Open,
{
    broadcast use group_inside;

    lemma_experts(s, has_vec4, d, l, b, present, k);
    let s = after_shared(
        after_experts(s, has_vec4, d, l, b, present, k),
        has_vec4,
        d,
        layer,
        b,
    );
    assert(phase(s) is Open);
    lemma_combine(s, d, b, bound, k);
}

proof fn lemma_pre_expert<B>(
    s: Seq<Command<B>>,
    d: LayerDims,
    layer: usize,
    lin: LinearBuffers<B>,
    off: LinearOffsets,
    inv_scale: u32,
    post_norm: u64,
    b: RouterBuffers<B>,
)
    requires
        phase(s) is Open,
    ensures
        phase(after_pre_expert(s, d, layer, lin, off, inv_scale, post_norm, b)) is Open,
{
    broadcast use group_inside;

    let t = after_in_proj(s, d, layer, lin);
    let t = match off.conv1d {
        Some(o) => t.push(conv_command(d, lin, o)),
        None => t,
    };
    let t = t.push(qk_norm_command(d, lin, inv_scale));
    let t = t.push(decay_command(d, lin, off));
    let t = t.push(delta_command(d, lin));
    let t = match off.norm {
        Some(o) => t.push(gated_norm_command(d, lin, o)),
        None => t,
    };
    assert(phase(t) is Open);
    lemma_back_projection(
        t,
        d,
        layer,
        Tensor::OutProj(layer),
        lin.gated,
        d.total_value,
        lin.residual,
        post_norm,
        b,
    );
}

/// The experts' step is recorded in order and submitted; nobody waits for it yet.
pub proof fn law_experts_in_order<B>(
    has_vec4: bool,
    d: LayerDims,
    l: ExpertLayout,
    layer: usize,
    b: ExpertBuffers<B>,
    present: Seq<bool>,
    k: int,
    next_norm: Option<u64>,
)
    ensures
        phase(
            after_commit(
                after_close(
                    after_post_expert(
                        after_open(Seq::empty()),
                        has_vec4,
                        d,
                        l,
                        layer,
                        b,
                        present,
                        present,
                        k,
                        next_norm,
                    ),
                ),
            ),
        ) is Committed,
{
    broadcast use group_inside;

    let s = after_open(Seq::<Command<B>>::empty());
    assert(phase(Seq::<Command<B>>::empty()) is Idle);
    lemma_post_expert(s, has_vec4, d, l, layer, b, present, present, k, next_norm);
}

proof fn lemma_group_pre<S: Scalar, B: Copy>(
    work: GroupWork,
    b: PipelineBuffers<B>,
    s: Seq<Command<B>>,
    layer: usize,
    place: usize,
)
    requires
        phase(s) is Open,
    ensures
        phase(work.after_pre::<S, B>(b, s, layer, place)) is Open,
{
    let off = work.offsets@[layer as int];
    lemma_pre_expert(
        s,
        *work.d,
        layer,
        b.layer_buffers(place as int),
        off.linear,
        score_scale::<S>(work.d.key_dim).s_bits(),
        off.post_norm,
        b.router,
    );
}

proof fn lemma_group_post<B: Copy>(
    work: GroupWork,
    b: PipelineBuffers<B>,
    s: Seq<Command<B>>,
    layer: usize,
    present: Seq<bool>,
    next_norm: Option<u64>,
)
    requires
        phase(s) is Open,
    ensures
        phase(work.after_post(b, s, layer, present, next_norm)) is Open,
{
    let k = slots_used(work.k as int);
    lemma_post_expert(
        s,
        work.has_vec4,
        *work.d,
        *work.l,
        layer,
        b.experts,
        present,
        Seq::new(k as nat, |i: int| true),
        k,
        next_norm,
    );
}

/// Commands in an open encoder that is then closed are submitted and waited for.
proof fn lemma_finish<B>(s: Seq<Command<B>>)
    requires
        phase(s) is Open,
    ensures
        phase(after_finish(s)) is Waited,
{
    broadcast use group_inside;

}

/// All that a pipelined group of linear-attention layers runs is recorded in order, submitted
/// and waited for.
pub proof fn law_group_in_order<S: Scalar, B: Copy>(
    g: LinearGroup<S, B>,
    work: GroupWork,
    input_norm: Option<&[u16]>,
    hidden: Seq<S>,
    present: Seq<bool>,
    r: GroupAction<S, B>,
)
    requires
        g.acts(work, input_norm, hidden, present, r),
    ensures
        r matches GroupAction::Run { params, commands } ==> phase(commands@) is Waited,
{
    let s = after_open(Seq::<Command<B>>::empty());
    assert(phase(s) is Open) by {
        broadcast use group_inside;

        assert(phase(Seq::<Command<B>>::empty()) is Idle);
    }
    if g.at != g.steps() {
        match g.step() {
            GroupStep::Pre { layer, place } => {
                lemma_group_pre::<S, B>(work, g.b, s, layer, place);
                lemma_finish(work.after_pre::<S, B>(g.b, s, layer, place));
            },
            GroupStep::PostPre { done, layer, place } => {
                let norm = work.offsets@[layer as int].input_norm;
                lemma_group_post(work, g.b, s, done, present, norm);
                let s = work.after_post(g.b, s, done, present, norm);
                lemma_group_pre::<S, B>(work, g.b, s, layer, place);
                lemma_finish(work.after_pre::<S, B>(g.b, s, layer, place));
            },
            GroupStep::Post { layer, next_norm } => {
                let norm = match next_norm {
                    Some(next) => work.offsets@[next as int].input_norm,
                    None => None,
                };
                lemma_group_post(work, g.b, s, layer, present, norm);
                lemma_finish(work.after_post(g.b, s, layer, present, norm));
            },
            _ => {},
        }
    }
}

/// Linear attention on the device, whole, in part or with inputs of the CPU, is recorded in
/// order, submitted and waited for.
pub proof fn law_linear_in_order<B>(
    d: LayerDims,
    layer: usize,
    b: LinearBuffers<B>,
    off: LinearOffsets,
    rb: RecurrenceBuffers<B>,
    inv_scale: u32,
    with_norm: bool,
)
    ensures
        phase(fused_commands(d, layer, b, off, inv_scale)) is Waited,
        phase(split_commands(d, layer, b, off, inv_scale, with_norm)) is Waited,
        phase(recurrence_commands(d, rb, inv_scale)) is Waited,
{
    broadcast use group_inside;

    assert(phase(Seq::<Command<B>>::empty()) is Idle);
    let s = after_recurrence(Seq::empty(), d, layer, b, off, inv_scale);
    assert(phase(s) is Idle);
    assert(phase(after_gated_norm(s, d, b, off)) is Idle);
}

/// The projections of full attention are recorded in order, submitted and waited for, together
/// or alone.
pub proof fn law_projections_in_order<B>(
    d: LayerDims,
    layer: usize,
    x: B,
    q: B,
    k: B,
    v: B,
    tensor: Tensor,
    out_dim: usize,
    in_dim: usize,
)
    ensures
        phase(after_qkv(Seq::empty(), d, layer, x, q, k, v)) is Waited,
        phase(
            after_finish(
                after_project(after_open(Seq::empty()), tensor, x, q, out_dim, in_dim),
            ),
        ) is Waited,
{
    broadcast use group_inside;

    assert(phase(Seq::<Command<B>>::empty()) is Idle);
}

proof fn lemma_layer_experts<B>(
    s: Seq<Command<B>>,
    d: LayerDims,
    l: ExpertLayout,
    has_vec4: bool,
    b: LayerBuffers<B>,
    n: int,
)
    requires
        phase(s) is Open,
    ensures
        phase(after_projections(s, d, l, b, n)) is Open,
        phase(after_activations(s, d, has_vec4, b, n)) is Open,
        phase(after_downs(s, d, l, b, n)) is Open,
    decreases n,
{
    broadcast use group_inside;

    if n > 0 {
        lemma_layer_experts(s, d, l, has_vec4, b, n - 1);
    }
}

/// One expert, or all of a layer, as command lists of their own are recorded in order,
/// submitted and waited for.
pub proof fn law_expert_lists_in_order<B>(
    d: LayerDims,
    l: ExpertLayout,
    has_vec4: bool,
    b: LayerBuffers<B>,
    k: int,
    p: ExpertBindings<B>,
    v: ExpertVectors<B>,
    use_fast: i32,
)
    ensures
        phase(layer_commands(d, l, has_vec4, b, k)) is Waited,
        phase(expert_commands(d, has_vec4, p, v, use_fast)) is Waited,
{
    broadcast use group_inside;

    assert(phase(Seq::<Command<B>>::empty()) is Idle);
    let s = after_open(Seq::empty());
    lemma_layer_experts(s, d, l, has_vec4, b, k);
    let s = after_open(after_close(after_projections(s, d, l, b, k)));
    lemma_layer_experts(s, d, l, has_vec4, b, k);
    let s = after_open(after_close(after_activations(s, d, has_vec4, b, k)));
    lemma_layer_experts(s, d, l, has_vec4, b, k);
}

} // verus!
