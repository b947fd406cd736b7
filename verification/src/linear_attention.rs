//! Linear attention of one token on the CPU, and the choice of where it runs.

use vstd::prelude::*;

use crate::attention_math::{attention_scale, score_scale, NormOrder};
use crate::cache::LinearState;
use crate::constants::CONV_KERNEL_SIZE;
use crate::cpu_forward::lemma_linear_sizes;
use crate::deferred::PipelineMode;
use crate::delta_net::{
    conv1d_step, conv_step, decay_heads, decays, delta_output, gate_heads, gate_value_heads,
    gated_delta_net_step, gates, key_normed, maybe_gated, norm_key_heads, shift_conv_state,
    shifted_state, stepped, DeltaView,
};
use crate::math_util::{
    added, copy_of, inv_rms, inverse_rms, norm_eps, norm_epsilon, residual_add, silu_of, silu_value,
    square_sum, zero_seq,
};
use crate::quant::{bf16_scalar, bf16_value, lemma_within, overwrite};
use crate::scalar::{one, one_of, zero_vec, Scalar};
use crate::weights::{dequant_proj, projected, LayerDims, LinearWeights};

verus! {

/// What the projections and the convolution of a token give.
pub struct LinearInputs<S> {
    pub qkv: Vec<S>,
    pub z: Vec<S>,
    pub beta: Vec<S>,
    pub alpha: Vec<S>,
    pub conv_out: Vec<S>,
}

/// What the projections and the convolution of a token give.
pub struct LinearInputsView<S> {
    pub qkv: Seq<S>,
    pub z: Seq<S>,
    pub beta: Seq<S>,
    pub alpha: Seq<S>,
    pub conv_out: Seq<S>,
}

impl<S> View for LinearInputs<S> {
    type V = LinearInputsView<S>;

    open spec fn view(&self) -> LinearInputsView<S> {
        LinearInputsView {
            qkv: self.qkv@,
            z: self.z@,
            beta: self.beta@,
            alpha: self.alpha@,
            conv_out: self.conv_out@,
        }
    }
}

/// Project a token and convolve it with the last inputs; without convolution weights the
/// projection is passed on.
pub open spec fn linear_inputs<S: Scalar>(
    d: LayerDims,
    w: LinearWeights,
    normed: Seq<S>,
    conv_state: Seq<S>,
) -> LinearInputsView<S> {
    let hd = d.hidden_dim as int;
    let gs = d.group_size as int;
    let dim = d.conv_dim as int;
    let tv = d.total_value as int;
    let n_v = d.num_v_heads as int;
    let qkv = projected(w.qkv, normed, zero_seq(dim), dim, hd, gs);
    LinearInputsView {
        qkv,
        z: projected(w.z, normed, zero_seq(tv), tv, hd, gs),
        beta: projected(w.b, normed, zero_seq(n_v), n_v, hd, gs),
        alpha: projected(w.a, normed, zero_seq(n_v), n_v, hd, gs),
        conv_out: match w.conv1d {
            Some(cw) => conv_step(conv_state, qkv, cw@, dim, d.conv_kernel as int),
            None => qkv,
        },
    }
}

impl<S: Scalar> LinearInputsView<S> {
    /// The vectors have the model's sizes.
    pub open spec fn sized(self, d: LayerDims) -> bool {
        &&& self.qkv.len() == d.conv_dim
        &&& self.z.len() == d.total_value
        &&& self.beta.len() == d.num_v_heads
        &&& self.alpha.len() == d.num_v_heads
        &&& self.conv_out.len() == d.conv_dim
    }
}

/// Project a token, convolve it, and move it into the convolution state.
pub fn prepare_linear<S: Scalar>(
    d: &LayerDims,
    w: &LinearWeights,
    normed: &[S],
    conv_state: &mut Vec<S>,
) -> (r: LinearInputs<S>)
    requires
        d.linear_valid(),
        2 <= d.conv_kernel,
        w.fits(*d, normed@.len() as int, d.total_value as int),
        old(conv_state)@.len() == (d.conv_kernel - 1) * d.conv_dim,
    ensures
        r@ == linear_inputs(*d, *w, normed@, old(conv_state)@),
        r@.sized(*d),
        final(conv_state)@ == shifted_state(old(conv_state)@, r.qkv@),
        final(conv_state)@.len() == old(conv_state)@.len(),
{
    let hd: usize = d.hidden_dim;
    let gs: usize = d.group_size;
    let mut qkv: Vec<S> = zero_vec(d.conv_dim);
    let mut z: Vec<S> = zero_vec(d.total_value);
    let mut beta: Vec<S> = zero_vec(d.num_v_heads);
    let mut alpha: Vec<S> = zero_vec(d.num_v_heads);
    dequant_proj(w.qkv, normed, qkv.as_mut_slice(), d.conv_dim, hd, gs);
    dequant_proj(w.z, normed, z.as_mut_slice(), d.total_value, hd, gs);
    dequant_proj(w.b, normed, beta.as_mut_slice(), d.num_v_heads, hd, gs);
    dequant_proj(w.a, normed, alpha.as_mut_slice(), d.num_v_heads, hd, gs);
    let conv_out: Vec<S> = match w.conv1d {
        Some(cw) => {
            let mut out: Vec<S> = zero_vec(d.conv_dim);
            conv1d_step(
                conv_state.as_slice(),
                qkv.as_slice(),
                cw,
                out.as_mut_slice(),
                d.conv_dim,
                d.conv_kernel,
            );
            assert(out@ =~= conv_step(
                conv_state@,
                qkv@,
                cw@,
                d.conv_dim as int,
                d.conv_kernel as int,
            ));
            out
        },
        None => copy_of(qkv.as_slice()),
    };
    proof {
        lemma_within(0, d.conv_kernel - 1, d.conv_dim as int, d.conv_dim as int);
    }
    shift_conv_state(conv_state, qkv.as_slice(), d.conv_dim);
    LinearInputs { qkv, z, beta, alpha, conv_out }
}

/// The operands of the recurrence, from the inputs of a token.
pub open spec fn delta_operands<S: Scalar>(
    d: LayerDims,
    w: LinearWeights,
    i: LinearInputsView<S>,
) -> DeltaView<S> {
    let tk = d.total_key as int;
    let n_k = d.num_k_heads as int;
    let n_v = d.num_v_heads as int;
    let scale = score_scale::<S>(d.key_dim);
    let order = NormOrder::ScaleFirst;
    DeltaView {
        q: key_normed(
            order,
            zero_seq(tk),
            i.conv_out,
            0,
            n_k,
            d.key_dim,
            norm_eps(),
            scale.s_times(scale),
        ),
        k: key_normed(order, zero_seq(tk), i.conv_out, tk, n_k, d.key_dim, norm_eps(), scale),
        v: i.conv_out,
        q_base: 0,
        k_base: 0,
        v_base: 2 * tk,
        g_decay: decays(i.alpha, w.a_log, w.dt_bias, n_v),
        beta_gate: gates(i.beta, n_v),
        k_heads_per_v: d.k_heads_per_v(),
        key_dim: d.key_dim as int,
        value_dim: d.value_dim as int,
    }
}

/// The gated output of the recurrence.
pub open spec fn gated_output<S: Scalar>(
    d: LayerDims,
    w: LinearWeights,
    i: LinearInputsView<S>,
    ssm: Seq<S>,
) -> Seq<S> {
    let tv = d.total_value as int;
    let n_v = d.num_v_heads as int;
    let values = delta_output(zero_seq(tv), ssm, delta_operands(d, w, i), n_v);
    maybe_gated(zero_seq(tv), values, i.z, w.norm, n_v, d.value_dim, norm_eps())
}

/// Make a step of the recurrence, and norm and gate its output.
pub fn run_recurrence<S: Scalar>(
    d: &LayerDims,
    w: &LinearWeights,
    i: &LinearInputs<S>,
    ssm: &mut Vec<S>,
) -> (r: Vec<S>)
    requires
        d.linear_valid(),
        i@.sized(*d),
        w.a_log matches Some(a) ==> d.num_v_heads <= a@.len(),
        w.dt_bias matches Some(b) ==> d.num_v_heads <= b@.len(),
        w.norm matches Some(n) ==> d.value_dim <= n@.len(),
        d.num_v_heads * (d.value_dim * d.key_dim) <= old(ssm)@.len(),
    ensures
        r@ == gated_output(*d, *w, i@, old(ssm)@),
        r@.len() == d.total_value,
        final(ssm)@ == stepped(
            old(ssm)@,
            delta_operands(*d, *w, i@),
            d.num_v_heads as int,
        ),
        final(ssm)@.len() == old(ssm)@.len(),
{
    proof {
        lemma_linear_sizes(*d);
    }
    let tk: usize = d.total_key;
    let eps: S = norm_epsilon();
    let scale: S = attention_scale(d.key_dim);
    let q_scale: S = scale.times(&scale);
    let mut q: Vec<S> = zero_vec(tk);
    let mut k: Vec<S> = zero_vec(tk);
    let order = NormOrder::ScaleFirst;
    norm_key_heads(
        order,
        i.conv_out.as_slice(),
        0,
        q.as_mut_slice(),
        d.num_k_heads,
        d.key_dim,
        &eps,
        &q_scale,
    );
    norm_key_heads(
        order,
        i.conv_out.as_slice(),
        tk,
        k.as_mut_slice(),
        d.num_k_heads,
        d.key_dim,
        &eps,
        &scale,
    );
    let g_decay: Vec<S> = decay_heads(i.alpha.as_slice(), w.a_log, w.dt_bias, d.num_v_heads);
    let beta_gate: Vec<S> = gate_heads(i.beta.as_slice(), d.num_v_heads);
    let mut values: Vec<S> = zero_vec(d.total_value);
    gated_delta_net_step(
        ssm.as_mut_slice(),
        q.as_slice(),
        0,
        k.as_slice(),
        0,
        i.conv_out.as_slice(),
        2 * tk,
        g_decay.as_slice(),
        beta_gate.as_slice(),
        values.as_mut_slice(),
        d.num_v_heads,
        d.num_v_heads / d.num_k_heads,
        d.key_dim,
        d.value_dim,
    );
    let mut gated: Vec<S> = zero_vec(d.total_value);
    gate_value_heads(
        values.as_slice(),
        i.z.as_slice(),
        w.norm,
        gated.as_mut_slice(),
        d.num_v_heads,
        d.value_dim,
        &eps,
    );
    gated
}

/// What a token's linear attention leaves.
pub struct LinearDone<S> {
    pub hidden: Seq<S>,
    pub conv: Seq<S>,
    pub ssm: Seq<S>,
}

/// Linear attention of one token on the CPU.
pub open spec fn linear_attended<S: Scalar>(
    d: LayerDims,
    w: LinearWeights,
    normed: Seq<S>,
    residual: Seq<S>,
    hidden: Seq<S>,
    conv: Seq<S>,
    ssm: Seq<S>,
) -> LinearDone<S> {
    let hd = d.hidden_dim as int;
    let i = linear_inputs(d, w, normed, conv);
    let gated = gated_output(d, w, i, ssm);
    let out = projected(
        w.out_proj,
        gated,
        zero_seq(hd),
        hd,
        d.total_value as int,
        d.group_size as int,
    );
    LinearDone {
        hidden: overwrite(hidden, 0, added(residual, out, hd)),
        conv: shifted_state(conv, i.qkv),
        ssm: stepped(ssm, delta_operands(d, w, i), d.num_v_heads as int),
    }
}

/// Linear attention of one token on the CPU: project, convolve, make a step of the recurrence,
/// norm and gate, project back, and add to the residual.
pub fn linear_attention<S: Scalar, B>(
    d: &LayerDims,
    w: &LinearWeights,
    normed: &[S],
    residual: &[S],
    hidden: &mut [S],
    state: &mut LinearState<S, B>,
)
    requires
        d.linear_valid(),
        2 <= d.conv_kernel,
        w.fits(*d, normed@.len() as int, d.total_value as int),
        residual@.len() == d.hidden_dim,
        old(hidden)@.len() == d.hidden_dim,
        old(state).conv_state@.len() == (d.conv_kernel - 1) * d.conv_dim,
        d.num_v_heads * (d.value_dim * d.key_dim) <= old(state).ssm_state@.len(),
    ensures
        ({
            let r = linear_attended(
                *d,
                *w,
                normed@,
                residual@,
                old(hidden)@,
                old(state).conv_state@,
                old(state).ssm_state@,
            );
            &&& final(hidden)@ == r.hidden
            &&& final(state).conv_state@ == r.conv
            &&& final(state).ssm_state@ == r.ssm
            &&& final(state).ssm_state_gpu == old(state).ssm_state_gpu
        }),
{
    let hd: usize = d.hidden_dim;
    let i: LinearInputs<S> = prepare_linear(d, w, normed, &mut state.conv_state);
    let gated: Vec<S> = run_recurrence(d, w, &i, &mut state.ssm_state);
    let mut out: Vec<S> = zero_vec(hd);
    dequant_proj(w.out_proj, gated.as_slice(), out.as_mut_slice(), hd, d.total_value, d.group_size);
    residual_add(residual, out.as_slice(), hidden, hd);
}

/// The convolution state after a step on the device: shifted, the newest inputs left zero.
pub fn update_conv_state<S: Scalar, B>(state: &mut LinearState<S, B>, qkv_dim: usize)
    requires
        old(state).conv_state@.len() == (CONV_KERNEL_SIZE - 1) * qkv_dim,
    ensures
        final(state).conv_state@ == shifted_state(
            old(state).conv_state@,
            zero_seq(qkv_dim as int),
        ),
        final(state).conv_state@.len() == old(state).conv_state@.len(),
        final(state).ssm_state@ == old(state).ssm_state@,
        final(state).ssm_state_gpu == old(state).ssm_state_gpu,
{
    proof {
        lemma_within(0, CONV_KERNEL_SIZE - 1, qkv_dim as int, qkv_dim as int);
    }
    let newest: Vec<S> = zero_vec(qkv_dim);
    shift_conv_state(&mut state.conv_state, newest.as_slice(), qkv_dim);
}

/// A weight that may be missing; it is then one.
pub open spec fn weight_or_one<S: Scalar>(w: Option<&[u16]>, i: int) -> S {
    match w {
        Some(w) => bf16_value(w@[i]),
        None => one(),
    }
}

/// Value heads normed, weighted by weights that may be missing, and gated by the SiLU of `z`.
pub open spec fn gated_with_ones<S: Scalar>(
    values: Seq<S>,
    z: Seq<S>,
    w: Option<&[u16]>,
    heads: int,
    value_dim: usize,
) -> Seq<S>
    decreases heads,
{
    if heads <= 0 {
        values
    } else {
        let base = (heads - 1) * value_dim;
        let before = gated_with_ones(values, z, w, heads - 1, value_dim);
        let inv = inv_rms(before, base, value_dim, norm_eps());
        overwrite(
            before,
            base,
            Seq::new(
                value_dim as nat,
                |i: int|
                    before[base + i].s_times(inv).s_times(weight_or_one(w, i)).s_times(
                        silu_value(z[base + i]),
                    ),
            ),
        )
    }
}

/// Norm and gate what the device read from the recurrence, in place.
pub fn gate_device_output<S: Scalar>(
    values: &mut Vec<S>,
    z: &[S],
    w: Option<&[u16]>,
    num_v_heads: usize,
    value_dim: usize,
)
    requires
        num_v_heads * value_dim <= old(values)@.len(),
        num_v_heads * value_dim <= z@.len(),
        w matches Some(n) ==> value_dim <= n@.len(),
    ensures
        final(values)@ == gated_with_ones(old(values)@, z@, w, num_v_heads as int, value_dim),
        final(values)@.len() == old(values)@.len(),
{
    let eps: S = norm_epsilon();
    for h in 0..num_v_heads
        invariant
            num_v_heads * value_dim <= values@.len(),
            num_v_heads * value_dim <= z@.len(),
            w matches Some(n) ==> value_dim <= n@.len(),
            eps == norm_eps::<S>(),
            values@.len() == old(values)@.len(),
            values@ == gated_with_ones(old(values)@, z@, w, h as int, value_dim),
    {
        proof {
            assert(values@.len() == values.len() && z@.len() == z.len());
            lemma_within(h as int, num_v_heads as int, value_dim as int, value_dim as int);
        }
        let base: usize = h * value_dim;
        let ghost before = values@;
        let inv: S = inverse_rms(values.as_slice(), base, value_dim, &eps);
        for i in 0..value_dim
            invariant
                base + value_dim <= values@.len(),
                base + value_dim <= z@.len(),
                w matches Some(n) ==> value_dim <= n@.len(),
                values@.len() == before.len(),
                forall|j: int|
                    0 <= j < values@.len() ==> #[trigger] values@[j] == (if base <= j < base + i {
                        before[j].s_times(inv).s_times(weight_or_one(w, j - base)).s_times(
                            silu_value(z@[j]),
                        )
                    } else {
                        before[j]
                    }),
        {
            assert(values@.len() == values.len() && z@.len() == z.len());
            let wi: S = match w {
                Some(n) => bf16_scalar(n[i]),
                None => one_of(),
            };
            let gated: S = values[base + i].times(&inv).times(&wi).times(&silu_of(&z[base + i]));
            values.set(base + i, gated);
        }
        assert(values@ =~= gated_with_ones(old(values)@, z@, w, h + 1, value_dim));
    }
}

/// What decides where linear attention runs.
#[derive(Clone, Copy, Debug, PartialEq, Eq, Structural)]
pub struct LinearSupport {
    pub mode: PipelineMode,
    pub has_context: bool,
    pub has_weights: bool,
    /// The whole layer in one command buffer was asked for.
    pub fused_requested: bool,
    /// The layer without its output projection was asked for.
    pub split_requested: bool,
    /// Output slots that the split form needs.
    pub split_slots: usize,
    pub conv_output: bool,
    pub conv_states: usize,
    pub delta_states: usize,
    pub batch_slots: usize,
    pub residual_kernel: bool,
}

/// Where linear attention runs.
#[derive(Clone, Copy, Debug, PartialEq, Eq, Structural)]
pub enum LinearPath {
    /// Everything in one command buffer, the residual sum too.
    Fused,
    /// Projections, convolution and recurrence in one command buffer; the rest in the next.
    Split,
    /// Projections on the CPU, the recurrence and then the back projection on the device.
    DeviceRecurrence,
    /// Everything on the CPU but the back projection.
    DeviceProjection,
    /// Everything on the CPU.
    Cpu,
}

impl LinearSupport {
    /// Weights and context are there, and the mode wants them.
    pub open spec fn gpu(self) -> bool {
        self.mode != PipelineMode::CpuOnly && self.has_weights && self.has_context
    }

    /// The device's recurrence is written for heads of 128.
    pub open spec fn compatible(self, key_dim: int, value_dim: int) -> bool {
        key_dim == 128 && value_dim == 128 && self.gpu()
    }

    /// The device holds the state of the layer.
    pub open spec fn resident(self, linear_idx: int) -> bool {
        self.conv_output && linear_idx < self.conv_states && linear_idx < self.delta_states
    }

    /// Where the layer runs.
    pub open spec fn path(self, key_dim: int, value_dim: int, linear_idx: int) -> LinearPath {
        let ready = self.compatible(key_dim, value_dim) && self.resident(linear_idx);
        if self.fused_requested && ready && 4 <= self.batch_slots && self.residual_kernel {
            LinearPath::Fused
        } else if self.split_requested && ready && self.split_slots <= self.batch_slots {
            LinearPath::Split
        } else if self.compatible(key_dim, value_dim) {
            LinearPath::DeviceRecurrence
        } else if self.gpu() {
            LinearPath::DeviceProjection
        } else {
            LinearPath::Cpu
        }
    }

    /// Choose where the layer runs.
    pub fn choose_path(&self, key_dim: usize, value_dim: usize, linear_idx: usize) -> (r: LinearPath)
        ensures
            r == self.path(key_dim as int, value_dim as int, linear_idx as int),
    {
        let gpu = self.mode != PipelineMode::CpuOnly && self.has_weights && self.has_context;
        let compatible = key_dim == 128 && value_dim == 128 && gpu;
        let resident = self.conv_output && linear_idx < self.conv_states && linear_idx
            < self.delta_states;
        if self.fused_requested && compatible && resident && 4 <= self.batch_slots
            && self.residual_kernel {
            LinearPath::Fused
        } else if self.split_requested && compatible && resident && self.split_slots
            <= self.batch_slots {
            LinearPath::Split
        } else if compatible {
            LinearPath::DeviceRecurrence
        } else if gpu {
            LinearPath::DeviceProjection
        } else {
            LinearPath::Cpu
        }
    }
}

/// Which way a linear layer goes. Without device, weights or a mode that wants them all stays on
/// the processor. The device's recurrence is made for keys and values of 128 numbers. The whole
/// layer in one program, or the split form, is taken only where it was asked for, where the
/// layer's states are resident, and where the slots and kernels that it writes are there; of the
/// two the whole layer goes first.
pub proof fn law_linear_path(s: LinearSupport, key_dim: int, value_dim: int, idx: int)
    ensures
        ({
            let p = s.path(key_dim, value_dim, idx);
            let device = s.mode != PipelineMode::CpuOnly && s.has_context && s.has_weights;
            let sized = key_dim == 128 && value_dim == 128;
            let resident = s.conv_output && idx < s.conv_states && idx < s.delta_states;
            let whole = s.fused_requested && s.batch_slots >= 4 && s.residual_kernel;
            let split = s.split_requested && s.batch_slots >= s.split_slots;
            &&& p == LinearPath::Cpu <==> !device
            &&& p == LinearPath::DeviceProjection <==> device && !sized
            &&& p == LinearPath::Fused <==> device && sized && resident && whole
            &&& p == LinearPath::Split <==> device && sized && resident && !whole && split
            &&& p == LinearPath::DeviceRecurrence <==> device && sized && !(resident && (whole
                || split))
        }),
{
}

/// The gated norm with weights that may be missing, number by number: a head's values over their
/// root mean square, times the weight or one, times the SiLU of `z`.
pub proof fn law_gated_with_ones<S: Scalar>(
    values: Seq<S>,
    z: Seq<S>,
    w: Option<&[u16]>,
    heads: int,
    value_dim: usize,
    h: int,
    i: int,
)
    requires
        0 <= h < heads,
        0 <= i < value_dim,
        heads * value_dim <= values.len(),
    ensures
        ({
            let at = h * value_dim + i;
            let r = gated_with_ones(values, z, w, heads, value_dim);
            let weight = match w {
                Some(w) => S::s_of_bits((w@[i] * 0x1_0000) as u32),
                None => one::<S>(),
            };
            &&& r.len() == values.len()
            &&& r[at] == values[at].s_times(
                inv_rms(values, h * value_dim, value_dim, norm_eps()),
            ).s_times(weight).s_times(silu_value(z[at]))
        }),
{
    vstd::arithmetic::div_mod::lemma_fundamental_div_mod_converse(
        h * value_dim + i,
        value_dim as int,
        h,
        i,
    );
    assert(h * value_dim + i < heads * value_dim) by (nonlinear_arith)
        requires
            0 <= h < heads,
            0 <= i < value_dim,
    ;
    assert(0 <= h * value_dim) by (nonlinear_arith)
        requires
            0 <= h,
            0 <= value_dim,
    ;
    lemma_gated_with_ones(values, z, w, heads, value_dim, heads, h * value_dim + i);
}

proof fn lemma_square_sum_local<S: Scalar>(a: Seq<S>, b: Seq<S>, base: int, n: int)
    requires
        forall|j: int| base <= j < base + n ==> #[trigger] a[j] == b[j],
    ensures
        square_sum(a, base, n) == square_sum(b, base, n),
    decreases n,
{
    if n > 0 {
        lemma_square_sum_local(a, b, base, n - 1);
        assert(a[base + n - 1] == b[base + n - 1]);
    }
}

proof fn lemma_gated_with_ones<S: Scalar>(
    values: Seq<S>,
    z: Seq<S>,
    w: Option<&[u16]>,
    heads: int,
    value_dim: usize,
    n: int,
    at: int,
)
    requires
        0 < value_dim,
        0 <= n <= heads,
        heads * value_dim <= values.len(),
        0 <= at < values.len(),
    ensures
        ({
            let r = gated_with_ones(values, z, w, n, value_dim);
            let h = at / value_dim as int;
            let i = at % value_dim as int;
            &&& r.len() == values.len()
            &&& at >= n * value_dim ==> r[at] == values[at]
            &&& at < n * value_dim ==> r[at] == values[at].s_times(
                inv_rms(values, h * value_dim, value_dim, norm_eps()),
            ).s_times(weight_or_one(w, i)).s_times(silu_value(z[at]))
        }),
    decreases n,
{
    if n > 0 {
        let vd = value_dim as int;
        let base = (n - 1) * value_dim;
        let before = gated_with_ones(values, z, w, n - 1, value_dim);
        lemma_gated_with_ones(values, z, w, heads, value_dim, n - 1, at);
        assert(base + vd == n * vd) by (nonlinear_arith)
            requires
                base == (n - 1) * vd,
        ;
        assert(n * vd <= heads * vd) by (nonlinear_arith)
            requires
                n <= heads,
                0 < vd,
        ;
        assert(0 <= base) by (nonlinear_arith)
            requires
                base == (n - 1) * vd,
                0 < n,
                0 < vd,
        ;
        assert forall|j: int| base <= j < base + vd implies #[trigger] before[j] == values[j] by {
            lemma_gated_with_ones(values, z, w, heads, value_dim, n - 1, j);
        }
        lemma_gated_with_ones(values, z, w, heads, value_dim, n - 1, base);
        lemma_square_sum_local(before, values, base, vd);
        if base <= at < base + vd {
            vstd::arithmetic::div_mod::lemma_fundamental_div_mod_converse(at, vd, n - 1, at - base);
        }
    }
}

} // verus!
