//! A linear-attention layer between CPU and device: what is computed first, what the device is
//! asked to do, and how its answer is taken up.

use vstd::prelude::*;

use crate::attention_math::{attention_scale, score_scale};
use crate::cache::LinearState;
use crate::command::{Command, Tensor};
use crate::constants::CONV_KERNEL_SIZE;
use crate::cpu_forward::{input_normed, step_input_norm};
use crate::delta_net::{lemma_stepped_len, shifted_state, stepped};
use crate::device_work::{lemma_idle, lemma_projection_work, projection, waited_for, works};
use crate::full_attention::project_program;
use crate::kernels::{after_finish, after_open, after_project};
use crate::linear_attention::{
    delta_operands, gated_output, linear_attended, linear_attention, linear_inputs, prepare_linear,
    run_recurrence, update_conv_state, LinearInputs, LinearPath, LinearSupport,
};
use crate::linear_program::{
    fused_commands, fused_program, linear_args_fit, recurrence_commands, recurrence_program,
    split_commands, split_program, LinearBuffers, LinearOffsets, RecurrenceBuffers,
};
use crate::math_util::{added, copy_of, copy_range, norm_eps, norm_epsilon, residual_add, zero_seq};
use crate::program_laws::{law_fused_work, law_recurrence_work};
use crate::quant::overwrite;
use crate::scalar::{zero, zero_vec, Scalar};
use crate::weights::{projected, LayerDims, LinearWeights};

verus! {

/// What is left to do for a linear-attention layer.
pub enum LinearStart<S, B> {
    /// Write the normed hidden state and the residual, run the commands, and read the hidden
    /// state.
    Fused { normed: Vec<S>, residual: Vec<S>, commands: Vec<Command<B>> },
    /// Write the normed hidden state and run the commands; the back projection and the residual
    /// are left to the routing step.
    Split { normed: Vec<S>, residual: Vec<S>, commands: Vec<Command<B>> },
    /// Write the inputs and the recurrent state, run the commands, and read the output from
    /// `read` and the state back.
    DeviceRecurrence {
        inputs: LinearInputs<S>,
        residual: Vec<S>,
        commands: Vec<Command<B>>,
        read: B,
    },
    /// Write the gated value heads, run the commands, and read their back projection.
    ProjectBack { gated: Vec<S>, residual: Vec<S>, commands: Vec<Command<B>> },
    /// Nothing: the CPU has done it.
    Done,
}

/// The layer's normed hidden state.
pub open spec fn layer_normed<S: Scalar>(
    d: LayerDims,
    input_norm: Option<&[u16]>,
    hidden: Seq<S>,
) -> Seq<S> {
    input_normed(hidden, input_norm, zero_seq(d.hidden_dim as int), d.hidden_dim, norm_eps())
}

/// The buffers of a recurrence whose state may be on the device already.
pub open spec fn with_state<B>(b: RecurrenceBuffers<B>, resident: Option<B>) -> RecurrenceBuffers<
    B,
> {
    match resident {
        Some(s) => RecurrenceBuffers { state: s, ..b },
        None => b,
    }
}

/// What a layer can be run with.
pub open spec fn linear_layer_fits<S, B>(
    d: LayerDims,
    w: LinearWeights,
    input_norm: Option<&[u16]>,
    state: LinearState<S, B>,
) -> bool {
    &&& linear_args_fit(d)
    &&& d.linear_valid()
    &&& d.conv_kernel == CONV_KERNEL_SIZE
    &&& w.fits(d, d.hidden_dim as int, d.total_value as int)
    &&& input_norm matches Some(n) ==> d.hidden_dim <= n@.len()
    &&& state.conv_state@.len() == (CONV_KERNEL_SIZE - 1) * d.conv_dim
    &&& d.num_v_heads * (d.value_dim * d.key_dim) <= state.ssm_state@.len()
}

/// The back projection of the gated value heads as a command list of its own.
pub open spec fn back_commands<B>(d: LayerDims, layer: usize, b: LinearBuffers<B>) -> Seq<
    Command<B>,
> {
    after_finish(
        after_project(
            after_open(Seq::empty()),
            Tensor::OutProj(layer),
            b.gated,
            b.o_proj,
            d.hidden_dim,
            d.total_value,
        ),
    )
}

/// What starting a layer on `path` gives, and what it leaves of the hidden state and of the
/// layer's state. Where the device convolves, the convolution state on the CPU moves on with
/// zeros.
pub open spec fn linear_started<S: Scalar, B>(
    path: LinearPath,
    d: LayerDims,
    w: LinearWeights,
    layer: usize,
    b: LinearBuffers<B>,
    rb: RecurrenceBuffers<B>,
    off: LinearOffsets,
    with_norm: bool,
    normed: Seq<S>,
    hidden: Seq<S>,
    state: LinearState<S, B>,
    r: LinearStart<S, B>,
    new_hidden: Seq<S>,
    new_state: LinearState<S, B>,
) -> bool {
    let scale = score_scale::<S>(d.key_dim).s_bits();
    let conv = state.conv_state@;
    let aged = shifted_state(conv, zero_seq(d.conv_dim as int));
    match path {
        LinearPath::Fused => {
            &&& r matches LinearStart::Fused { normed: n, residual, commands }
            &&& n@ == normed
            &&& residual@ == hidden
            &&& commands@ == fused_commands(d, layer, b, off, scale)
            &&& new_hidden == hidden
            &&& new_state.conv_state@ == aged
            &&& new_state.ssm_state@ == state.ssm_state@
            &&& new_state.ssm_state_gpu == state.ssm_state_gpu
        },
        LinearPath::Split => {
            &&& r matches LinearStart::Split { normed: n, residual, commands }
            &&& n@ == normed
            &&& residual@ == hidden
            &&& commands@ == split_commands(d, layer, b, off, scale, with_norm)
            &&& new_hidden == hidden
            &&& new_state.conv_state@ == aged
            &&& new_state.ssm_state@ == state.ssm_state@
            &&& new_state.ssm_state_gpu == state.ssm_state_gpu
        },
        LinearPath::DeviceRecurrence => {
            let bufs = with_state(rb, state.ssm_state_gpu);
            &&& r matches LinearStart::DeviceRecurrence { inputs, residual, commands, read }
            &&& inputs@ == linear_inputs(d, w, normed, conv)
            &&& residual@ == hidden
            &&& commands@ == recurrence_commands(d, bufs, scale)
            &&& read == (if w.norm is Some {
                rb.gated
            } else {
                rb.output
            })
            &&& new_hidden == hidden
            &&& new_state.conv_state@ == shifted_state(conv, inputs@.qkv)
            &&& new_state.ssm_state@ == state.ssm_state@
            &&& new_state.ssm_state_gpu == Some(bufs.state)
        },
        LinearPath::DeviceProjection => {
            let inputs = linear_inputs(d, w, normed, conv);
            &&& r matches LinearStart::ProjectBack { gated, residual, commands }
            &&& gated@ == gated_output(d, w, inputs, state.ssm_state@)
            &&& residual@ == hidden
            &&& commands@ == back_commands(d, layer, b)
            &&& new_hidden == hidden
            &&& new_state.conv_state@ == shifted_state(conv, inputs.qkv)
            &&& new_state.ssm_state@ == stepped(
                state.ssm_state@,
                delta_operands(d, w, inputs),
                d.num_v_heads as int,
            )
            &&& new_state.ssm_state_gpu == state.ssm_state_gpu
        },
        LinearPath::Cpu => {
            let done = linear_attended(d, w, normed, hidden, hidden, conv, state.ssm_state@);
            &&& r is Done
            &&& new_hidden == done.hidden
            &&& new_state.conv_state@ == done.conv
            &&& new_state.ssm_state@ == done.ssm
            &&& new_state.ssm_state_gpu == state.ssm_state_gpu
        },
    }
}

/// Start a linear-attention layer: norm the hidden state, choose where the layer runs, do the
/// CPU's part, and record the device's.
pub fn linear_attention_forward<S: Scalar, B: Copy>(
    support: &LinearSupport,
    d: &LayerDims,
    w: &LinearWeights,
    input_norm: Option<&[u16]>,
    layer: usize,
    linear_idx: usize,
    hidden: &mut [S],
    state: &mut LinearState<S, B>,
    b: &LinearBuffers<B>,
    rb: &RecurrenceBuffers<B>,
    off: &LinearOffsets,
    with_norm: bool,
) -> (r: LinearStart<S, B>)
    requires
        linear_layer_fits(*d, *w, input_norm, *old(state)),
        old(hidden)@.len() == d.hidden_dim,
        rb.norm is Some <==> w.norm is Some,
    ensures
        linear_started(
            support.path(d.key_dim as int, d.value_dim as int, linear_idx as int),
            *d,
            *w,
            layer,
            *b,
            *rb,
            *off,
            with_norm,
            layer_normed(*d, input_norm, old(hidden)@),
            old(hidden)@,
            *old(state),
            r,
            final(hidden)@,
            *final(state),
        ),
{
    let mut normed: Vec<S> = zero_vec(d.hidden_dim);
    step_input_norm(hidden, input_norm, normed.as_mut_slice(), d.hidden_dim, &norm_epsilon());
    let residual: Vec<S> = copy_of(hidden);
    let inv_scale: S = attention_scale(d.key_dim);
    let scale: u32 = inv_scale.bits();
    match support.choose_path(d.key_dim, d.value_dim, linear_idx) {
        LinearPath::Fused => {
            update_conv_state(state, d.conv_dim);
            LinearStart::Fused {
                normed,
                residual,
                commands: fused_program(d, layer, b, off, scale),
            }
        },
        LinearPath::Split => {
            update_conv_state(state, d.conv_dim);
            LinearStart::Split {
                normed,
                residual,
                commands: split_program(d, layer, b, off, scale, with_norm),
            }
        },
        LinearPath::DeviceRecurrence => {
            let bufs: RecurrenceBuffers<B> = match state.ssm_state_gpu {
                Some(s) => RecurrenceBuffers { state: s, ..*rb },
                None => *rb,
            };
            state.ssm_state_gpu = Some(bufs.state);
            let inputs = prepare_linear(d, w, normed.as_slice(), &mut state.conv_state);
            let (commands, read) = recurrence_program(d, &bufs, scale);
            LinearStart::DeviceRecurrence { inputs, residual, commands, read }
        },
        LinearPath::DeviceProjection => {
            let inputs = prepare_linear(d, w, normed.as_slice(), &mut state.conv_state);
            let gated = run_recurrence(d, w, &inputs, &mut state.ssm_state);
            let commands = back_program(d, layer, b);
            LinearStart::ProjectBack { gated, residual, commands }
        },
        LinearPath::Cpu => {
            linear_attention(d, w, normed.as_slice(), residual.as_slice(), hidden, state);
            LinearStart::Done
        },
    }
}

fn back_program<B: Copy>(d: &LayerDims, layer: usize, b: &LinearBuffers<B>) -> (r: Vec<Command<B>>)
    ensures
        r@ == back_commands(*d, layer, *b),
{
    project_program(Tensor::OutProj(layer), b.gated, b.o_proj, d.hidden_dim, d.total_value)
}

/// The hidden state behind a back projection: its sum with the residual.
pub open spec fn projected_back<S: Scalar>(
    d: LayerDims,
    residual: Seq<S>,
    attn_out: Seq<S>,
    hidden: Seq<S>,
) -> Seq<S> {
    overwrite(hidden, 0, added(residual, attn_out, d.hidden_dim as int))
}

/// Take up the recurrence that the device has done: keep the new state. The output that was
/// read is to be written to the buffer of the gated value heads, and the commands that are
/// returned project it back.
pub fn finish_recurrence<S: Scalar, B: Copy>(
    d: &LayerDims,
    layer: usize,
    ssm: &[S],
    state: &mut LinearState<S, B>,
    b: &LinearBuffers<B>,
) -> (r: Vec<Command<B>>)
    requires
        ssm@.len() == d.num_v_heads * (d.value_dim * d.key_dim),
        ssm@.len() <= old(state).ssm_state@.len(),
    ensures
        r@ == back_commands(*d, layer, *b),
        final(state).ssm_state@ == overwrite(old(state).ssm_state@, 0, ssm@),
        final(state).conv_state@ == old(state).conv_state@,
        final(state).ssm_state_gpu == old(state).ssm_state_gpu,
{
    copy_range(state.ssm_state.as_mut_slice(), 0, ssm, 0, ssm.len());
    assert(state.ssm_state@ =~= overwrite(old(state).ssm_state@, 0, ssm@));
    back_program(d, layer, b)
}

/// Take up the back projection that the device has done: add it to the residual.
pub fn finish_projection<S: Scalar>(
    d: &LayerDims,
    residual: &[S],
    attn_out: &[S],
    hidden: &mut [S],
)
    requires
        residual@.len() == d.hidden_dim,
        attn_out@.len() == d.hidden_dim,
        old(hidden)@.len() == d.hidden_dim,
    ensures
        final(hidden)@ == projected_back(*d, residual@, attn_out@, old(hidden)@),
{
    residual_add(residual, attn_out, hidden, d.hidden_dim);
}

/// Take up a layer that the device has run to its end.
pub fn finish_fused<S: Scalar>(d: &LayerDims, read: &[S], hidden: &mut [S])
    requires
        d.hidden_dim <= read@.len(),
        old(hidden)@.len() == d.hidden_dim,
    ensures
        final(hidden)@ == read@.take(d.hidden_dim as int),
{
    copy_range(hidden, 0, read, 0, d.hidden_dim);
    assert(hidden@ =~= read@.take(d.hidden_dim as int));
}

/// Where the recurrence and the back projection run on the device, or the back projection
/// alone, and the device answers with what they give, the layer ends as on the CPU.
pub proof fn law_device_recurrence_agrees<S: Scalar>(
    d: LayerDims,
    w: LinearWeights,
    normed: Seq<S>,
    hidden: Seq<S>,
    conv: Seq<S>,
    ssm: Seq<S>,
)
    requires
        d.linear_valid(),
        ssm.len() == d.num_v_heads * (d.value_dim * d.key_dim),
    ensures
        ({
            let inputs = linear_inputs(d, w, normed, conv);
            let done = linear_attended(d, w, normed, hidden, hidden, conv, ssm);
            let answer = stepped(ssm, delta_operands(d, w, inputs), d.num_v_heads as int);
            let hd = d.hidden_dim as int;
            let attn_out = projected(
                w.out_proj,
                gated_output(d, w, inputs, ssm),
                zero_seq(hd),
                hd,
                d.total_value as int,
                d.group_size as int,
            );
            &&& projected_back(d, hidden, attn_out, hidden) == done.hidden
            &&& overwrite(ssm, 0, answer) == done.ssm
            &&& shifted_state(conv, inputs.qkv) == done.conv
        }),
{
    let inputs = linear_inputs(d, w, normed, conv);
    let a = delta_operands(d, w, inputs);
    let answer = stepped(ssm, a, d.num_v_heads as int);
    lemma_stepped_len(ssm, a, d.num_v_heads as int);
    assert(overwrite(ssm, 0, answer) =~= answer);
}

/// A linear-attention layer behind a layer whose experts the device has combined: the split
/// form then reads the normed hidden state where the device left it, and nothing is to be
/// written. Returns whether the normed hidden state is to be written.
pub fn gpu_linear_attention<S: Scalar, B: Copy>(
    support: &LinearSupport,
    d: &LayerDims,
    w: &LinearWeights,
    input_norm: Option<&[u16]>,
    layer: usize,
    linear_idx: usize,
    hidden: &mut [S],
    state: &mut LinearState<S, B>,
    b: &LinearBuffers<B>,
    rb: &RecurrenceBuffers<B>,
    off: &LinearOffsets,
    prev_gpu_combined: bool,
    buf_input: Option<B>,
) -> (r: (LinearStart<S, B>, bool))
    requires
        linear_layer_fits(*d, *w, input_norm, *old(state)),
        old(hidden)@.len() == d.hidden_dim,
        rb.norm is Some <==> w.norm is Some,
    ensures
        ({
            let path = support.path(d.key_dim as int, d.value_dim as int, linear_idx as int);
            let resident = path is Split && prev_gpu_combined && buf_input is Some;
            &&& r.1 == !resident
            &&& linear_started(
                path,
                *d,
                *w,
                layer,
                if resident {
                    (LinearBuffers { input: buf_input->0, ..*b })
                } else {
                    *b
                },
                *rb,
                *off,
                true,
                layer_normed(*d, input_norm, old(hidden)@),
                old(hidden)@,
                *old(state),
                r.0,
                final(hidden)@,
                *final(state),
            )
        }),
{
    let path = support.choose_path(d.key_dim, d.value_dim, linear_idx);
    let split = match path {
        LinearPath::Split => true,
        _ => false,
    };
    let mut bufs: LinearBuffers<B> = *b;
    let mut write = true;
    if split && prev_gpu_combined {
        if let Some(x) = buf_input {
            bufs = LinearBuffers { input: x, ..*b };
            write = false;
        }
    }
    let start = linear_attention_forward(
        support,
        d,
        w,
        input_norm,
        layer,
        linear_idx,
        hidden,
        state,
        &bufs,
        rb,
        off,
        true,
    );
    (start, write)
}

/// How a linear layer starts, whichever way it goes. Where the device has work left, the hidden
/// state is handed on as the residual and stays as it is; only the processor alone finishes it.
/// The state of the convolution moves up by one token on every way; what is appended is the
/// token's projection where the processor computed it. The recurrent state of the processor is
/// left alone where the device keeps its own.
pub proof fn law_linear_start<S: Scalar, B>(
    path: LinearPath,
    d: LayerDims,
    w: LinearWeights,
    layer: usize,
    b: LinearBuffers<B>,
    rb: RecurrenceBuffers<B>,
    off: LinearOffsets,
    with_norm: bool,
    normed: Seq<S>,
    hidden: Seq<S>,
    state: LinearState<S, B>,
    r: LinearStart<S, B>,
    new_hidden: Seq<S>,
    new_state: LinearState<S, B>,
    j: int,
)
    requires
        linear_started(
            path,
            d,
            w,
            layer,
            b,
            rb,
            off,
            with_norm,
            normed,
            hidden,
            state,
            r,
            new_hidden,
            new_state,
        ),
        d.conv_kernel == 4,
        state.conv_state@.len() == 3 * d.conv_dim,
        linear_inputs(d, w, normed, state.conv_state@).qkv.len() == d.conv_dim,
        0 <= j < d.conv_dim,
    ensures
        ({
            let old = state.conv_state@;
            let new = new_state.conv_state@;
            let n = d.conv_dim as int;
            let qkv = linear_inputs(d, w, normed, old).qkv;
            let device = path == LinearPath::Fused || path == LinearPath::Split;
            &&& new.len() == old.len()
            &&& new[j] == old[n + j]
            &&& new[n + j] == old[2 * n + j]
            &&& device ==> new[2 * n + j] == zero::<S>()
            &&& !device ==> new[2 * n + j] == qkv[j]
            &&& path != LinearPath::Cpu ==> new_hidden == hidden
            &&& device || path == LinearPath::DeviceRecurrence ==> new_state.ssm_state@
                == state.ssm_state@
            &&& path != LinearPath::DeviceRecurrence ==> new_state.ssm_state_gpu
                == state.ssm_state_gpu
            &&& path == LinearPath::DeviceRecurrence ==> new_state.ssm_state_gpu == Some(
                match state.ssm_state_gpu {
                    Some(s) => s,
                    None => rb.state,
                },
            )
            &&& match r {
                LinearStart::Fused { normed: x, residual, commands } => path == LinearPath::Fused
                    && x@ == normed && residual@ == hidden && waited_for(commands@),
                LinearStart::Split { normed: x, residual, commands } => path == LinearPath::Split
                    && x@ == normed && residual@ == hidden,
                LinearStart::DeviceRecurrence { inputs, residual, commands, read } => path
                    == LinearPath::DeviceRecurrence && inputs@.qkv == qkv && residual@ == hidden
                    && waited_for(commands@) && read == (if w.norm is Some {
                    rb.gated
                } else {
                    rb.output
                }),
                LinearStart::ProjectBack { gated, residual, commands } => path
                    == LinearPath::DeviceProjection && residual@ == hidden && works(commands@)
                    == seq![
                    projection(
                        Tensor::OutProj(layer),
                        b.gated,
                        b.o_proj,
                        d.hidden_dim,
                        d.total_value,
                    ),
                ],
                LinearStart::Done => path == LinearPath::Cpu,
            }
        }),
{
    let scale = score_scale::<S>(d.key_dim).s_bits();
    law_fused_work(d, layer, b, off, scale);
    law_recurrence_work(d, with_state(rb, state.ssm_state_gpu), scale);
    let s0 = Seq::<Command<B>>::empty();
    lemma_idle(s0);
    let s1 = after_open(s0);
    let o = Tensor::OutProj(layer);
    lemma_projection_work(s1, o, b.gated, b.o_proj, d.hidden_dim, d.total_value);
    lemma_idle(after_project(s1, o, b.gated, b.o_proj, d.hidden_dim, d.total_value));
}

} // verus!
