//! Gated delta network: convolution, decay, recurrence and gated norm on the CPU.

use vstd::arithmetic::mul::lemma_mul_inequality;
use vstd::prelude::*;

use crate::attention_math::{dot, dot_product, law_dot, NormOrder};
use crate::math_util::{
    copy_range, gated_normed, inv_rms, inverse_rms, law_inv_rms, rms_norm_gated, sigmoid,
    sigmoid_value, silu, silu_of, silu_value,
};
use crate::quant::{bf16_scalar, bf16_value, lemma_within, overwrite};
use crate::scalar::{one, one_of, zero, zero_of, Scalar};
use crate::stored::lemma_plain_numbers;
use crate::sums::{inner, lemma_take_all, lemma_total_step, total};

verus! {

/// The part of a channel's convolution that comes from the first `k` states.
pub open spec fn conv_sum<S: Scalar>(
    state: Seq<S>,
    w: Seq<u16>,
    channels: int,
    kernel_size: int,
    c: int,
    k: int,
) -> S
    decreases k,
{
    if k <= 0 {
        zero()
    } else {
        conv_sum(state, w, channels, kernel_size, c, k - 1).s_plus(
            state[(k - 1) * channels + c].s_times(bf16_value(w[c * kernel_size + k - 1])),
        )
    }
}

/// One step of a causal convolution over all channels, before the activation.
pub open spec fn convolved<S: Scalar>(
    state: Seq<S>,
    input: Seq<S>,
    w: Seq<u16>,
    channels: int,
    kernel_size: int,
) -> Seq<S> {
    Seq::new(
        channels as nat,
        |c: int|
            conv_sum(state, w, channels, kernel_size, c, kernel_size - 1).s_plus(
                input[c].s_times(bf16_value(w[c * kernel_size + kernel_size - 1])),
            ),
    )
}

/// One step of a causal convolution with its SiLU activation.
pub open spec fn conv_step<S: Scalar>(
    state: Seq<S>,
    input: Seq<S>,
    w: Seq<u16>,
    channels: int,
    kernel_size: int,
) -> Seq<S> {
    let raw = convolved(state, input, w, channels, kernel_size);
    Seq::new(channels as nat, |c: int| silu_value(raw[c]))
}

/// One step of the causal convolution: the state holds the last `kernel_size - 1` inputs.
pub fn conv1d_step<S: Scalar>(
    conv_state: &[S],
    new_input: &[S],
    weight_bf16: &[u16],
    out: &mut [S],
    channels: usize,
    kernel_size: usize,
)
    requires
        0 < kernel_size,
        (kernel_size - 1) * channels <= conv_state@.len(),
        channels <= new_input@.len(),
        channels * kernel_size <= weight_bf16@.len(),
        channels <= old(out)@.len(),
    ensures
        final(out)@ == overwrite(
            old(out)@,
            0,
            conv_step(
                conv_state@,
                new_input@,
                weight_bf16@,
                channels as int,
                kernel_size as int,
            ),
        ),
{
    let ghost raw = convolved(
        conv_state@,
        new_input@,
        weight_bf16@,
        channels as int,
        kernel_size as int,
    );
    for c in 0..channels
        invariant
            0 < kernel_size,
            (kernel_size - 1) * channels <= conv_state@.len(),
            channels <= new_input@.len(),
            channels * kernel_size <= weight_bf16@.len(),
            channels <= out@.len(),
            raw == convolved(
                conv_state@,
                new_input@,
                weight_bf16@,
                channels as int,
                kernel_size as int,
            ),
            out@.len() == old(out)@.len(),
            forall|i: int| 0 <= i < c ==> out@[i] == raw[i],
            forall|i: int| c <= i < out@.len() ==> out@[i] == old(out)@[i],
    {
        proof {
            assert(weight_bf16@.len() == weight_bf16.len());
            lemma_within(c as int, channels as int, kernel_size as int, kernel_size as int);
        }
        let w_base: usize = c * kernel_size;
        let mut acc: S = zero_of();
        for k in 0..kernel_size - 1
            invariant
                0 < kernel_size,
                c < channels,
                (kernel_size - 1) * channels <= conv_state@.len(),
                w_base == c * kernel_size,
                w_base + kernel_size <= weight_bf16@.len(),
                acc == conv_sum(
                    conv_state@,
                    weight_bf16@,
                    channels as int,
                    kernel_size as int,
                    c as int,
                    k as int,
                ),
        {
            proof {
                assert(weight_bf16@.len() == weight_bf16.len() && conv_state@.len()
                    == conv_state.len());
                lemma_within(k as int, kernel_size - 1, channels as int, channels as int);
            }
            let w: S = bf16_scalar(weight_bf16[w_base + k]);
            acc = acc.plus(&conv_state[k * channels + c].times(&w));
        }
        let w: S = bf16_scalar(weight_bf16[w_base + (kernel_size - 1)]);
        out[c] = acc.plus(&new_input[c].times(&w));
    }
    let ghost before = out@;
    silu(out, channels);
    assert(out@ =~= overwrite(
        old(out)@,
        0,
        conv_step(conv_state@, new_input@, weight_bf16@, channels as int, kernel_size as int),
    ));
}

/// A state with its oldest inputs dropped and new ones appended.
pub open spec fn shifted_state<S: Scalar>(state: Seq<S>, newest: Seq<S>) -> Seq<S> {
    state.skip(newest.len() as int) + newest
}

/// Drop the oldest `channels` numbers of the state and append the newest.
pub fn shift_conv_state<S: Scalar>(state: &mut Vec<S>, newest: &[S], channels: usize)
    requires
        channels <= old(state)@.len(),
        channels == newest@.len(),
    ensures
        final(state)@ == shifted_state(old(state)@, newest@),
{
    let n: usize = state.len();
    let keep: usize = n - channels;
    for i in 0..keep
        invariant
            n == state@.len(),
            keep + channels == n,
            state@.len() == old(state)@.len(),
            forall|j: int| 0 <= j < i ==> state@[j] == old(state)@[j + channels],
            forall|j: int| i <= j < n ==> state@[j] == old(state)@[j],
    {
        let moved: S = state[i + channels].dup();
        state.set(i, moved);
    }
    for i in 0..channels
        invariant
            n == state@.len(),
            keep + channels == n,
            channels == newest@.len(),
            state@.len() == old(state)@.len(),
            forall|j: int| 0 <= j < keep ==> state@[j] == old(state)@[j + channels],
            forall|j: int| 0 <= j < i ==> #[trigger] state@[keep + j] == newest@[j],
    {
        state.set(keep + i, newest[i].dup());
    }
    assert forall|j: int| 0 <= j < n implies state@[j] == shifted_state(
        old(state)@,
        newest@,
    )[j] by {
        if j >= keep {
            assert(state@[keep + (j - keep)] == newest@[j - keep]);
        }
    }
    assert(state@ =~= shifted_state(old(state)@, newest@));
}

/// The decay of a value head: `exp(-exp(a_log) * ln(1 + exp(alpha + dt_bias)))`.
pub open spec fn decay_value<S: Scalar>(alpha: S, a_log: S, dt_bias: S) -> S {
    let softplus = one::<S>().s_plus(alpha.s_plus(dt_bias).s_exp()).s_ln();
    a_log.s_exp().s_neg().s_times(softplus).s_exp()
}

/// The decay of a value head.
pub fn decay_of<S: Scalar>(alpha: &S, a_log: &S, dt_bias: &S) -> (r: S)
    ensures
        r == decay_value(*alpha, *a_log, *dt_bias),
{
    let softplus: S = one_of::<S>().plus(&alpha.plus(dt_bias).exponential()).logarithm();
    a_log.exponential().negated().times(&softplus).exponential()
}

/// Decay and write gate of each value head.
pub fn compute_decay_beta<S: Scalar>(
    alpha: &[S],
    beta: &[S],
    a_log: &[S],
    dt_bias: &[u16],
    g_decay: &mut [S],
    beta_gate_out: &mut [S],
    num_v_heads: usize,
)
    requires
        num_v_heads <= alpha@.len(),
        num_v_heads <= beta@.len(),
        num_v_heads <= a_log@.len(),
        num_v_heads <= dt_bias@.len(),
        num_v_heads <= old(g_decay)@.len(),
        num_v_heads <= old(beta_gate_out)@.len(),
    ensures
        final(g_decay)@ == overwrite(
            old(g_decay)@,
            0,
            Seq::new(
                num_v_heads as nat,
                |h: int| decay_value(alpha@[h], a_log@[h], bf16_value(dt_bias@[h])),
            ),
        ),
        final(beta_gate_out)@ == overwrite(
            old(beta_gate_out)@,
            0,
            Seq::new(num_v_heads as nat, |h: int| sigmoid_value(beta@[h])),
        ),
{
    for h in 0..num_v_heads
        invariant
            num_v_heads <= alpha@.len(),
            num_v_heads <= beta@.len(),
            num_v_heads <= a_log@.len(),
            num_v_heads <= dt_bias@.len(),
            num_v_heads <= g_decay@.len(),
            num_v_heads <= beta_gate_out@.len(),
            g_decay@.len() == old(g_decay)@.len(),
            beta_gate_out@.len() == old(beta_gate_out)@.len(),
            forall|i: int|
                0 <= i < h ==> g_decay@[i] == decay_value(
                    alpha@[i],
                    a_log@[i],
                    bf16_value(dt_bias@[i]),
                ),
            forall|i: int| h <= i < g_decay@.len() ==> g_decay@[i] == old(g_decay)@[i],
            forall|i: int| 0 <= i < h ==> beta_gate_out@[i] == sigmoid_value(beta@[i]),
            forall|i: int|
                h <= i < beta_gate_out@.len() ==> beta_gate_out@[i] == old(beta_gate_out)@[i],
    {
        g_decay[h] = decay_of(&alpha[h], &a_log[h], &bf16_scalar(dt_bias[h]));
        beta_gate_out[h] = sigmoid(&beta[h]);
    }
    assert(g_decay@ =~= overwrite(
        old(g_decay)@,
        0,
        Seq::new(
            num_v_heads as nat,
            |h: int| decay_value(alpha@[h], a_log@[h], bf16_value(dt_bias@[h])),
        ),
    ));
    assert(beta_gate_out@ =~= overwrite(
        old(beta_gate_out)@,
        0,
        Seq::new(num_v_heads as nat, |h: int| sigmoid_value(beta@[h])),
    ));
}

/// The decays of the value heads, with weights that may be missing: `a_log` is then one and
/// the bias zero.
pub open spec fn decays<S: Scalar>(
    alpha: Seq<S>,
    a_log: Option<&[u32]>,
    dt_bias: Option<&[u16]>,
    n: int,
) -> Seq<S> {
    Seq::new(
        n as nat,
        |h: int|
            decay_value(
                alpha[h],
                match a_log {
                    Some(a) => S::s_of_bits(a@[h]),
                    None => one(),
                },
                match dt_bias {
                    Some(b) => bf16_value(b@[h]),
                    None => zero(),
                },
            ),
    )
}

/// The decays of the value heads, with weights that may be missing.
pub fn decay_heads<S: Scalar>(
    alpha: &[S],
    a_log: Option<&[u32]>,
    dt_bias: Option<&[u16]>,
    n: usize,
) -> (r: Vec<S>)
    requires
        n <= alpha@.len(),
        a_log matches Some(a) ==> n <= a@.len(),
        dt_bias matches Some(b) ==> n <= b@.len(),
    ensures
        r@ == decays(alpha@, a_log, dt_bias, n as int),
{
    let mut v: Vec<S> = Vec::new();
    for h in 0..n
        invariant
            n <= alpha@.len(),
            a_log matches Some(a) ==> n <= a@.len(),
            dt_bias matches Some(b) ==> n <= b@.len(),
            v@ == decays(alpha@, a_log, dt_bias, h as int),
    {
        let a: S = match a_log {
            Some(a) => S::of_bits(a[h]),
            None => one_of(),
        };
        let b: S = match dt_bias {
            Some(b) => bf16_scalar(b[h]),
            None => zero_of(),
        };
        v.push(decay_of(&alpha[h], &a, &b));
        assert(v@ =~= decays(alpha@, a_log, dt_bias, h + 1));
    }
    v
}

/// The logistic functions of the first `n` numbers.
pub open spec fn gates<S: Scalar>(beta: Seq<S>, n: int) -> Seq<S> {
    Seq::new(n as nat, |h: int| sigmoid_value(beta[h]))
}

/// The logistic functions of the first `n` numbers.
pub fn gate_heads<S: Scalar>(beta: &[S], n: usize) -> (r: Vec<S>)
    requires
        n <= beta@.len(),
    ensures
        r@ == gates(beta@, n as int),
{
    let mut v: Vec<S> = Vec::new();
    for h in 0..n
        invariant
            n <= beta@.len(),
            v@ == gates(beta@, h as int),
    {
        v.push(sigmoid(&beta[h]));
        assert(v@ =~= gates(beta@, h + 1));
    }
    v
}

/// A row of the recurrent state after decay.
pub open spec fn decayed_row<S: Scalar>(state: Seq<S>, row: int, key_dim: int, g: S) -> Seq<S> {
    Seq::new(key_dim as nat, |i: int| state[row + i].s_times(g))
}

/// The correction of a row: what the value lacks over what the decayed row recalls for the
/// key, times the write gate.
pub open spec fn row_delta<S: Scalar>(
    state: Seq<S>,
    row: int,
    k: Seq<S>,
    k_base: int,
    value: S,
    key_dim: int,
    g: S,
    beta: S,
) -> S {
    value.s_minus(dot(decayed_row(state, row, key_dim, g), 0, k, k_base, key_dim)).s_times(beta)
}

/// A row of the recurrent state after one step.
pub open spec fn stepped_row<S: Scalar>(
    state: Seq<S>,
    row: int,
    k: Seq<S>,
    k_base: int,
    value: S,
    key_dim: int,
    g: S,
    beta: S,
) -> Seq<S> {
    let delta = row_delta(state, row, k, k_base, value, key_dim, g, beta);
    Seq::new(
        key_dim as nat,
        |i: int| state[row + i].s_times(g).s_plus(k[k_base + i].s_times(delta)),
    )
}

/// The first `n` rows of a value head after one step.
pub open spec fn stepped_head<S: Scalar>(
    state: Seq<S>,
    base: int,
    k: Seq<S>,
    k_base: int,
    v: Seq<S>,
    v_base: int,
    key_dim: int,
    g: S,
    beta: S,
    n: int,
) -> Seq<S>
    decreases n,
{
    if n <= 0 {
        state
    } else {
        let before = stepped_head(state, base, k, k_base, v, v_base, key_dim, g, beta, n - 1);
        overwrite(
            before,
            base + (n - 1) * key_dim,
            stepped_row(
                before,
                base + (n - 1) * key_dim,
                k,
                k_base,
                v[v_base + n - 1],
                key_dim,
                g,
                beta,
            ),
        )
    }
}

/// What the operands of one step of the recurrence are.
pub struct DeltaView<S> {
    pub q: Seq<S>,
    pub k: Seq<S>,
    pub v: Seq<S>,
    /// Where the queries, keys and values start.
    pub q_base: int,
    pub k_base: int,
    pub v_base: int,
    pub g_decay: Seq<S>,
    pub beta_gate: Seq<S>,
    pub k_heads_per_v: int,
    pub key_dim: int,
    pub value_dim: int,
}

/// The state after the first `heads` value heads made a step.
pub open spec fn stepped<S: Scalar>(state: Seq<S>, a: DeltaView<S>, heads: int) -> Seq<S>
    decreases heads,
{
    if heads <= 0 {
        state
    } else {
        let h = heads - 1;
        stepped_head(
            stepped(state, a, h),
            h * (a.value_dim * a.key_dim),
            a.k,
            a.k_base + (h / a.k_heads_per_v) * a.key_dim,
            a.v,
            a.v_base + h * a.value_dim,
            a.key_dim,
            a.g_decay[h],
            a.beta_gate[h],
            a.value_dim,
        )
    }
}

proof fn lemma_stepped_head_len<S: Scalar>(
    state: Seq<S>,
    base: int,
    k: Seq<S>,
    k_base: int,
    v: Seq<S>,
    v_base: int,
    key_dim: int,
    g: S,
    beta: S,
    n: int,
)
    ensures
        stepped_head(state, base, k, k_base, v, v_base, key_dim, g, beta, n).len() == state.len(),
    decreases n,
{
    if n > 0 {
        lemma_stepped_head_len(state, base, k, k_base, v, v_base, key_dim, g, beta, n - 1);
    }
}

/// A step keeps the size of the state.
pub(crate) proof fn lemma_stepped_len<S: Scalar>(state: Seq<S>, a: DeltaView<S>, heads: int)
    ensures
        stepped(state, a, heads).len() == state.len(),
    decreases heads,
{
    if heads > 0 {
        let h = heads - 1;
        lemma_stepped_len(state, a, h);
        lemma_stepped_head_len(
            stepped(state, a, h),
            h * (a.value_dim * a.key_dim),
            a.k,
            a.k_base + (h / a.k_heads_per_v) * a.key_dim,
            a.v,
            a.v_base + h * a.value_dim,
            a.key_dim,
            a.g_decay[h],
            a.beta_gate[h],
            a.value_dim,
        );
    }
}

/// What a value head reads from its state: each row times the query.
pub open spec fn head_output<S: Scalar>(state: Seq<S>, a: DeltaView<S>, h: int) -> Seq<S> {
    Seq::new(
        a.value_dim as nat,
        |vi: int|
            dot(
                state,
                h * (a.value_dim * a.key_dim) + vi * a.key_dim,
                a.q,
                a.q_base + (h / a.k_heads_per_v) * a.key_dim,
                a.key_dim,
            ),
    )
}

/// What the first `heads` value heads read, each after its own step.
pub open spec fn delta_output<S: Scalar>(
    out: Seq<S>,
    state: Seq<S>,
    a: DeltaView<S>,
    heads: int,
) -> Seq<S>
    decreases heads,
{
    if heads <= 0 {
        out
    } else {
        overwrite(
            delta_output(out, state, a, heads - 1),
            (heads - 1) * a.value_dim,
            head_output(stepped(state, a, heads), a, heads - 1),
        )
    }
}

/// One row of the recurrence.
fn step_row<S: Scalar>(
    state: &mut [S],
    row: usize,
    k: &[S],
    k_base: usize,
    value: &S,
    key_dim: usize,
    g: &S,
    beta: &S,
)
    requires
        row + key_dim <= old(state)@.len(),
        k_base + key_dim <= k@.len(),
    ensures
        final(state)@ == overwrite(
            old(state)@,
            row as int,
            stepped_row(
                old(state)@,
                row as int,
                k@,
                k_base as int,
                *value,
                key_dim as int,
                *g,
                *beta,
            ),
        ),
{
    let ghost faded = decayed_row(old(state)@, row as int, key_dim as int, *g);
    let mut kv_mem: S = zero_of();
    for ki in 0..key_dim
        invariant
            row + key_dim <= state@.len(),
            k_base + key_dim <= k@.len(),
            state@.len() == old(state)@.len(),
            faded == decayed_row(old(state)@, row as int, key_dim as int, *g),
            kv_mem == dot(faded, 0, k@, k_base as int, ki as int),
            forall|j: int|
                0 <= j < state@.len() ==> #[trigger] state@[j] == (if row <= j < row + ki {
                    faded[j - row]
                } else {
                    old(state)@[j]
                }),
    {
        assert(state@.len() == state.len() && k@.len() == k.len());
        let s: S = state[row + ki].times(g);
        assert(s == faded[ki as int]);
        kv_mem = kv_mem.plus(&s.times(&k[k_base + ki]));
        state[row + ki] = s;
    }
    let delta: S = value.minus(&kv_mem).times(beta);
    for ki in 0..key_dim
        invariant
            row + key_dim <= state@.len(),
            k_base + key_dim <= k@.len(),
            state@.len() == old(state)@.len(),
            faded == decayed_row(old(state)@, row as int, key_dim as int, *g),
            forall|j: int|
                0 <= j < state@.len() ==> #[trigger] state@[j] == (if row <= j < row + ki {
                    faded[j - row].s_plus(k@[k_base + (j - row)].s_times(delta))
                } else if row <= j < row + key_dim {
                    faded[j - row]
                } else {
                    old(state)@[j]
                }),
    {
        assert(state@.len() == state.len() && k@.len() == k.len());
        state[row + ki] = state[row + ki].plus(&k[k_base + ki].times(&delta));
    }
    assert(state@ =~= overwrite(
        old(state)@,
        row as int,
        stepped_row(
            old(state)@,
            row as int,
            k@,
            k_base as int,
            *value,
            key_dim as int,
            *g,
            *beta,
        ),
    ));
}

/// The operands of a step lie in their slices.
pub open spec fn delta_fits(
    state_len: int,
    q_len: int,
    k_len: int,
    v_len: int,
    g_len: int,
    beta_len: int,
    out_len: int,
    q_base: int,
    k_base: int,
    v_base: int,
    num_v_heads: int,
    k_heads_per_v: int,
    key_dim: int,
    value_dim: int,
) -> bool {
    &&& num_v_heads > 0 ==> 0 < k_heads_per_v
    &&& num_v_heads * (value_dim * key_dim) <= state_len
    &&& num_v_heads > 0 ==> q_base + ((num_v_heads - 1) / k_heads_per_v) * key_dim + key_dim
        <= q_len
    &&& num_v_heads > 0 ==> k_base + ((num_v_heads - 1) / k_heads_per_v) * key_dim + key_dim
        <= k_len
    &&& v_base + num_v_heads * value_dim <= v_len
    &&& num_v_heads <= g_len
    &&& num_v_heads <= beta_len
    &&& num_v_heads * value_dim <= out_len
}

/// One step of the gated delta recurrence for all value heads: decay the state, write the
/// correction for the key, and read with the query. The queries, keys and values start at
/// their bases.
pub fn gated_delta_net_step<S: Scalar>(
    state: &mut [S],
    q: &[S],
    q_base: usize,
    k: &[S],
    k_base: usize,
    v: &[S],
    v_base: usize,
    g_decay: &[S],
    beta_gate: &[S],
    output: &mut [S],
    num_v_heads: usize,
    k_heads_per_v: usize,
    key_dim: usize,
    value_dim: usize,
)
    requires
        value_dim * key_dim <= usize::MAX,
        delta_fits(
            old(state)@.len() as int,
            q@.len() as int,
            k@.len() as int,
            v@.len() as int,
            g_decay@.len() as int,
            beta_gate@.len() as int,
            old(output)@.len() as int,
            q_base as int,
            k_base as int,
            v_base as int,
            num_v_heads as int,
            k_heads_per_v as int,
            key_dim as int,
            value_dim as int,
        ),
    ensures
        final(state)@.len() == old(state)@.len(),
        final(output)@.len() == old(output)@.len(),
        ({
            let a = DeltaView {
                q: q@,
                k: k@,
                v: v@,
                q_base: q_base as int,
                k_base: k_base as int,
                v_base: v_base as int,
                g_decay: g_decay@,
                beta_gate: beta_gate@,
                k_heads_per_v: k_heads_per_v as int,
                key_dim: key_dim as int,
                value_dim: value_dim as int,
            };
            &&& final(state)@ == stepped(old(state)@, a, num_v_heads as int)
            &&& final(output)@ == delta_output(old(output)@, old(state)@, a, num_v_heads as int)
        }),
{
    let ghost a = DeltaView {
        q: q@,
        k: k@,
        v: v@,
        q_base: q_base as int,
        k_base: k_base as int,
        v_base: v_base as int,
        g_decay: g_decay@,
        beta_gate: beta_gate@,
        k_heads_per_v: k_heads_per_v as int,
        key_dim: key_dim as int,
        value_dim: value_dim as int,
    };
    let head_len: usize = value_dim * key_dim;
    for h in 0..num_v_heads
        invariant
            head_len == value_dim * key_dim,
            a == (DeltaView {
                q: q@,
                k: k@,
                v: v@,
                q_base: q_base as int,
                k_base: k_base as int,
                v_base: v_base as int,
                g_decay: g_decay@,
                beta_gate: beta_gate@,
                k_heads_per_v: k_heads_per_v as int,
                key_dim: key_dim as int,
                value_dim: value_dim as int,
            }),
            delta_fits(
                state@.len() as int,
                q@.len() as int,
                k@.len() as int,
                v@.len() as int,
                g_decay@.len() as int,
                beta_gate@.len() as int,
                output@.len() as int,
                q_base as int,
                k_base as int,
                v_base as int,
                num_v_heads as int,
                k_heads_per_v as int,
                key_dim as int,
                value_dim as int,
            ),
            state@.len() == old(state)@.len(),
            output@.len() == old(output)@.len(),
            state@ == stepped(old(state)@, a, h as int),
            output@ == delta_output(old(output)@, old(state)@, a, h as int),
    {
        proof {
            assert(state@.len() == state.len() && q@.len() == q.len() && k@.len() == k.len()
                && v@.len() == v.len() && output@.len() == output.len());
            lemma_within(h as int, num_v_heads as int, head_len as int, head_len as int);
            lemma_within(h as int, num_v_heads as int, value_dim as int, value_dim as int);
            vstd::arithmetic::div_mod::lemma_div_is_ordered(
                h as int,
                num_v_heads - 1,
                k_heads_per_v as int,
            );
            vstd::arithmetic::div_mod::lemma_div_pos_is_pos(h as int, k_heads_per_v as int);
            lemma_mul_inequality(
                h as int / k_heads_per_v as int,
                (num_v_heads - 1) / k_heads_per_v as int,
                key_dim as int,
            );
            lemma_mul_inequality(0, h as int / k_heads_per_v as int, key_dim as int);
        }
        let state_base: usize = h * head_len;
        let kh: usize = (h / k_heads_per_v) * key_dim;
        let kb: usize = k_base + kh;
        let qb: usize = q_base + kh;
        let vb: usize = v_base + h * value_dim;
        let out_base: usize = h * value_dim;
        let ghost before = state@;
        for vi in 0..value_dim
            invariant
                head_len == value_dim * key_dim,
                state_base + head_len <= state@.len(),
                kb + key_dim <= k@.len(),
                vb + value_dim <= v@.len(),
                h < g_decay@.len(),
                h < beta_gate@.len(),
                state@.len() == before.len(),
                state@ == stepped_head(
                    before,
                    state_base as int,
                    k@,
                    kb as int,
                    v@,
                    vb as int,
                    key_dim as int,
                    g_decay@[h as int],
                    beta_gate@[h as int],
                    vi as int,
                ),
        {
            proof {
                assert(state@.len() == state.len() && v@.len() == v.len());
                lemma_within(vi as int, value_dim as int, key_dim as int, key_dim as int);
            }
            step_row(
                state,
                state_base + vi * key_dim,
                k,
                kb,
                &v[vb + vi],
                key_dim,
                &g_decay[h],
                &beta_gate[h],
            );
        }
        let ghost after = state@;
        assert(after == stepped(old(state)@, a, h + 1));
        let ghost out_before = output@;
        for vi in 0..value_dim
            invariant
                head_len == value_dim * key_dim,
                state@ == after,
                state_base == h * head_len,
                state_base + head_len <= state@.len(),
                qb + key_dim <= q@.len(),
                out_base + value_dim <= output@.len(),
                output@.len() == out_before.len(),
                forall|j: int|
                    0 <= j < output@.len() ==> #[trigger] output@[j] == (if out_base <= j
                        < out_base + vi {
                        dot(
                            after,
                            state_base + (j - out_base) * key_dim,
                            q@,
                            qb as int,
                            key_dim as int,
                        )
                    } else {
                        out_before[j]
                    }),
        {
            proof {
                assert(state@.len() == state.len() && output@.len() == output.len());
                lemma_within(vi as int, value_dim as int, key_dim as int, key_dim as int);
                lemma_plain_numbers(q@);
            }
            output[out_base + vi] = dot_product(
                state,
                state_base + vi * key_dim,
                q,
                qb,
                key_dim,
            );
        }
        assert(output@ =~= overwrite(
            out_before,
            h * value_dim,
            head_output(stepped(old(state)@, a, h + 1), a, h as int),
        ));
    }
}

/// Value heads normalised, gated by the SiLU of `z`, and weighted last.
pub open spec fn gated_heads<S: Scalar>(
    out: Seq<S>,
    values: Seq<S>,
    z: Seq<S>,
    w: Seq<u16>,
    heads: int,
    value_dim: usize,
    eps: S,
) -> Seq<S>
    decreases heads,
{
    if heads <= 0 {
        out
    } else {
        let base = (heads - 1) * value_dim;
        let inv = inv_rms(values, base, value_dim, eps);
        overwrite(
            gated_heads(out, values, z, w, heads - 1, value_dim, eps),
            base,
            Seq::new(
                value_dim as nat,
                |d: int|
                    values[base + d].s_times(inv).s_times(silu_value(z[base + d])).s_times(
                        bf16_value(w[d]),
                    ),
            ),
        )
    }
}

/// Norm each value head, gate it by the SiLU of `z` and weight it.
pub fn gated_rms_norm<S: Scalar>(
    values: &[S],
    z: &[S],
    weight_bf16: &[u16],
    output: &mut [S],
    num_heads: usize,
    value_dim: usize,
    eps: &S,
)
    requires
        num_heads * value_dim <= values@.len(),
        num_heads * value_dim <= z@.len(),
        value_dim <= weight_bf16@.len(),
        num_heads * value_dim <= old(output)@.len(),
    ensures
        final(output)@.len() == old(output)@.len(),
        final(output)@ == gated_heads(
            old(output)@,
            values@,
            z@,
            weight_bf16@,
            num_heads as int,
            value_dim,
            *eps,
        ),
{
    for h in 0..num_heads
        invariant
            num_heads * value_dim <= values@.len(),
            num_heads * value_dim <= z@.len(),
            value_dim <= weight_bf16@.len(),
            num_heads * value_dim <= output@.len(),
            output@.len() == old(output)@.len(),
            output@ == gated_heads(
                old(output)@,
                values@,
                z@,
                weight_bf16@,
                h as int,
                value_dim,
                *eps,
            ),
    {
        proof {
            assert(values@.len() == values.len() && z@.len() == z.len() && output@.len()
                == output.len());
            lemma_within(h as int, num_heads as int, value_dim as int, value_dim as int);
        }
        let base: usize = h * value_dim;
        let inv: S = inverse_rms(values, base, value_dim, eps);
        let ghost before = output@;
        for d in 0..value_dim
            invariant
                base + value_dim <= values@.len(),
                base + value_dim <= z@.len(),
                value_dim <= weight_bf16@.len(),
                base + value_dim <= output@.len(),
                output@.len() == before.len(),
                forall|j: int|
                    0 <= j < output@.len() ==> #[trigger] output@[j] == (if base <= j < base + d {
                        values@[j].s_times(inv).s_times(silu_value(z@[j])).s_times(
                            bf16_value(weight_bf16@[j - base]),
                        )
                    } else {
                        before[j]
                    }),
        {
            assert(values@.len() == values.len() && z@.len() == z.len() && output@.len()
                == output.len());
            let normed: S = values[base + d].times(&inv);
            let gate: S = silu_of(&z[base + d]);
            output[base + d] = normed.times(&gate).times(&bf16_scalar(weight_bf16[d]));
        }
        assert(output@ =~= gated_heads(
            old(output)@,
            values@,
            z@,
            weight_bf16@,
            h + 1,
            value_dim,
            *eps,
        ));
    }
}

/// Value heads normalised, weighted, and gated by the SiLU of `z` last.
pub open spec fn weighted_gated_heads<S: Scalar>(
    out: Seq<S>,
    values: Seq<S>,
    z: Seq<S>,
    w: Seq<u16>,
    heads: int,
    value_dim: usize,
    eps: S,
) -> Seq<S>
    decreases heads,
{
    if heads <= 0 {
        out
    } else {
        overwrite(
            weighted_gated_heads(out, values, z, w, heads - 1, value_dim, eps),
            (heads - 1) * value_dim,
            gated_normed(values, z, (heads - 1) * value_dim, w, value_dim, eps),
        )
    }
}

/// Value heads after their gated norm; without weights they stay as they are.
pub open spec fn maybe_gated<S: Scalar>(
    out: Seq<S>,
    values: Seq<S>,
    z: Seq<S>,
    w: Option<&[u16]>,
    heads: int,
    value_dim: usize,
    eps: S,
) -> Seq<S> {
    match w {
        Some(w) => weighted_gated_heads(out, values, z, w@, heads, value_dim, eps),
        None => overwrite(out, 0, values.take(heads * value_dim)),
    }
}

/// Norm each value head and gate it by the SiLU of `z`; without weights copy it.
pub fn gate_value_heads<S: Scalar>(
    values: &[S],
    z: &[S],
    weight_bf16: Option<&[u16]>,
    output: &mut [S],
    num_heads: usize,
    value_dim: usize,
    eps: &S,
)
    requires
        num_heads * value_dim <= values@.len(),
        num_heads * value_dim <= z@.len(),
        weight_bf16 matches Some(w) ==> value_dim <= w@.len(),
        num_heads * value_dim <= old(output)@.len(),
    ensures
        final(output)@.len() == old(output)@.len(),
        final(output)@ == maybe_gated(
            old(output)@,
            values@,
            z@,
            weight_bf16,
            num_heads as int,
            value_dim,
            *eps,
        ),
{
    if let Some(w) = weight_bf16 {
        for h in 0..num_heads
            invariant
                num_heads * value_dim <= values@.len(),
                num_heads * value_dim <= z@.len(),
                value_dim <= w@.len(),
                num_heads * value_dim <= output@.len(),
                output@.len() == old(output)@.len(),
                output@ == weighted_gated_heads(
                    old(output)@,
                    values@,
                    z@,
                    w@,
                    h as int,
                    value_dim,
                    *eps,
                ),
        {
            proof {
                assert(values@.len() == values.len());
                lemma_within(h as int, num_heads as int, value_dim as int, value_dim as int);
            }
            rms_norm_gated(values, z, w, output, h * value_dim, value_dim, eps);
        }
    } else {
        proof {
            assert(values@.len() == values.len());
            lemma_mul_inequality(0, num_heads as int, value_dim as int);
        }
        let n: usize = num_heads * value_dim;
        copy_range(output, 0, values, 0, n);
        assert(values@.subrange(0, n as int) =~= values@.take(n as int));
    }
}

/// A key head after its norm: divided by its root mean square and multiplied by a factor.
pub open spec fn key_norm<S: Scalar>(
    order: NormOrder,
    x: Seq<S>,
    base: int,
    key_dim: usize,
    eps: S,
    factor: S,
) -> Seq<S> {
    let inv = inv_rms(x, base, key_dim, eps);
    Seq::new(
        key_dim as nat,
        |i: int|
            match order {
                NormOrder::ScaleFirst => x[base + i].s_times(inv).s_times(factor),
                NormOrder::WeightFirst => x[base + i].s_times(inv.s_times(factor)),
            },
    )
}

/// The first `heads` key heads after their norms, read from `x` at `base`.
pub open spec fn key_normed<S: Scalar>(
    order: NormOrder,
    out: Seq<S>,
    x: Seq<S>,
    base: int,
    heads: int,
    key_dim: usize,
    eps: S,
    factor: S,
) -> Seq<S>
    decreases heads,
{
    if heads <= 0 {
        out
    } else {
        overwrite(
            key_normed(order, out, x, base, heads - 1, key_dim, eps, factor),
            (heads - 1) * key_dim,
            key_norm(order, x, base + (heads - 1) * key_dim, key_dim, eps, factor),
        )
    }
}

/// Norm the key heads of `x` from `base` on into `out`.
pub fn norm_key_heads<S: Scalar>(
    order: NormOrder,
    x: &[S],
    base: usize,
    out: &mut [S],
    heads: usize,
    key_dim: usize,
    eps: &S,
    factor: &S,
)
    requires
        base + heads * key_dim <= x@.len(),
        heads * key_dim <= old(out)@.len(),
    ensures
        final(out)@.len() == old(out)@.len(),
        final(out)@ == key_normed(
            order,
            old(out)@,
            x@,
            base as int,
            heads as int,
            key_dim,
            *eps,
            *factor,
        ),
{
    for h in 0..heads
        invariant
            base + heads * key_dim <= x@.len(),
            heads * key_dim <= out@.len(),
            out@.len() == old(out)@.len(),
            out@ == key_normed(
                order,
                old(out)@,
                x@,
                base as int,
                h as int,
                key_dim,
                *eps,
                *factor,
            ),
    {
        proof {
            assert(x@.len() == x.len() && out@.len() == out.len());
            lemma_within(h as int, heads as int, key_dim as int, key_dim as int);
        }
        let o: usize = h * key_dim;
        let b: usize = base + o;
        let inv: S = inverse_rms(x, b, key_dim, eps);
        let ghost before = out@;
        for d in 0..key_dim
            invariant
                b + key_dim <= x@.len(),
                o + key_dim <= out@.len(),
                out@.len() == before.len(),
                inv == inv_rms(x@, b as int, key_dim, *eps),
                forall|j: int|
                    0 <= j < out@.len() ==> #[trigger] out@[j] == (if o <= j < o + d {
                        key_norm(order, x@, b as int, key_dim, *eps, *factor)[j - o]
                    } else {
                        before[j]
                    }),
        {
            assert(x@.len() == x.len() && out@.len() == out.len());
            out[o + d] = match order {
                NormOrder::ScaleFirst => x[b + d].times(&inv).times(factor),
                NormOrder::WeightFirst => x[b + d].times(&inv.times(factor)),
            };
        }
        assert(out@ =~= overwrite(
            before,
            o as int,
            key_norm(order, x@, b as int, key_dim, *eps, *factor),
        ));
    }
}

/// What a channel's convolution takes from the past and the present: the input `k` steps after
/// the oldest one that the state holds; the newest input is the last.
pub open spec fn conv_input<S: Scalar>(
    state: Seq<S>,
    input: Seq<S>,
    channels: int,
    kernel_size: int,
    c: int,
    k: int,
) -> S {
    if k < kernel_size - 1 {
        state[k * channels + c]
    } else {
        input[c]
    }
}

spec fn conv_terms<S: Scalar>(
    state: Seq<S>,
    input: Seq<S>,
    w: Seq<u16>,
    channels: int,
    kernel_size: int,
    c: int,
) -> Seq<S> {
    Seq::new(
        kernel_size as nat,
        |k: int|
            conv_input(state, input, channels, kernel_size, c, k).s_times(
                bf16_value(w[c * kernel_size + k]),
            ),
    )
}

proof fn lemma_conv_sum<S: Scalar>(
    state: Seq<S>,
    input: Seq<S>,
    w: Seq<u16>,
    channels: int,
    kernel_size: int,
    c: int,
    k: int,
)
    requires
        0 <= k < kernel_size,
    ensures
        conv_sum(state, w, channels, kernel_size, c, k) == total(
            conv_terms(state, input, w, channels, kernel_size, c).take(k),
        ),
    decreases k,
{
    if k > 0 {
        lemma_conv_sum(state, input, w, channels, kernel_size, c, k - 1);
        lemma_total_step(conv_terms(state, input, w, channels, kernel_size, c), k - 1);
    }
}

/// The convolution of a channel is the SiLU of the sum, over the whole kernel, of the channel's
/// own inputs, oldest first, times the channel's own weights.
pub proof fn law_convolution<S: Scalar>(
    state: Seq<S>,
    input: Seq<S>,
    w: Seq<u16>,
    channels: int,
    kernel_size: int,
    c: int,
)
    requires
        0 < kernel_size,
        0 <= c < channels,
    ensures
        ({
            let sum = total(
                Seq::new(
                    kernel_size as nat,
                    |k: int|
                        conv_input(state, input, channels, kernel_size, c, k).s_times(
                            S::s_of_bits((w[c * kernel_size + k] * 0x1_0000) as u32),
                        ),
                ),
            );
            &&& conv_step(state, input, w, channels, kernel_size).len() == channels
            &&& conv_step(state, input, w, channels, kernel_size)[c] == sum.s_over(
                one::<S>().s_plus(sum.s_neg().s_exp()),
            )
        }),
{
    let terms = conv_terms(state, input, w, channels, kernel_size, c);
    lemma_conv_sum(state, input, w, channels, kernel_size, c, kernel_size - 1);
    lemma_total_step(terms, kernel_size - 1);
    lemma_take_all(terms);
    assert(c * kernel_size + kernel_size - 1 == c * kernel_size + (kernel_size - 1));
    assert(terms =~= Seq::new(
        kernel_size as nat,
        |k: int|
            conv_input(state, input, channels, kernel_size, c, k).s_times(
                S::s_of_bits((w[c * kernel_size + k] * 0x1_0000) as u32),
            ),
    ));
}

/// After a shift the convolution sees each input one step further back, and the newest input as
/// the last of the past.
pub proof fn law_shift_moves_inputs_back<S: Scalar>(
    state: Seq<S>,
    newest: Seq<S>,
    next: Seq<S>,
    channels: int,
    kernel_size: int,
    c: int,
    k: int,
)
    requires
        2 <= kernel_size,
        0 <= c < channels,
        0 <= k < kernel_size - 1,
        newest.len() == channels,
        state.len() == (kernel_size - 1) * channels,
    ensures
        shifted_state(state, newest).len() == state.len(),
        conv_input(shifted_state(state, newest), next, channels, kernel_size, c, k) == conv_input(
            state,
            newest,
            channels,
            kernel_size,
            c,
            k + 1,
        ),
{
    let r = shifted_state(state, newest);
    lemma_within(k, kernel_size - 1, channels, channels);
    lemma_within(0, kernel_size - 1, channels, channels);
    assert((k + 1) * channels == k * channels + channels) by (nonlinear_arith);
    assert((kernel_size - 1) * channels == (kernel_size - 2) * channels + channels)
        by (nonlinear_arith);
    if k < kernel_size - 2 {
        lemma_within(k + 1, kernel_size - 1, channels, channels);
        assert(r[k * channels + c] == state[k * channels + c + channels]);
    } else {
        assert(r[k * channels + c] == newest[c]);
    }
}

/// The decay of a head, `exp(-exp(a) * ln(1 + exp(alpha + dt)))` of the head's own numbers, and
/// its gate, the logistic function of its own number. A missing `a` counts as one, a missing
/// `dt` as zero.
pub proof fn law_decay_and_gate<S: Scalar>(
    alpha: Seq<S>,
    beta: Seq<S>,
    a_log: Seq<u32>,
    dt_bias: Seq<u16>,
    a: &[u32],
    dt: &[u16],
    n: int,
    h: int,
)
    requires
        0 <= h < n,
        a@ == a_log,
        dt@ == dt_bias,
    ensures
        ({
            let decay = |log: S, bias: S|
                {
                    let plus = one::<S>().s_plus(alpha[h].s_plus(bias).s_exp()).s_ln();
                    log.s_exp().s_neg().s_times(plus).s_exp()
                };
            let log = S::s_of_bits(a_log[h]);
            let bias = S::s_of_bits((dt_bias[h] * 0x1_0000) as u32);
            &&& decays(alpha, Some(a), Some(dt), n)[h] == decay(log, bias)
            &&& decays(alpha, None, Some(dt), n)[h] == decay(one(), bias)
            &&& decays(alpha, Some(a), None, n)[h] == decay(log, zero())
            &&& decays(alpha, None, None, n)[h] == decay(one(), zero())
            &&& gates(beta, n)[h] == one::<S>().s_over(one::<S>().s_plus(beta[h].s_neg().s_exp()))
        }),
{
}

/// A step of a row depends on that row of the state alone.
proof fn lemma_row_is_local<S: Scalar>(
    s1: Seq<S>,
    s2: Seq<S>,
    row: int,
    k: Seq<S>,
    k_base: int,
    value: S,
    key_dim: int,
    g: S,
    beta: S,
)
    requires
        0 <= key_dim,
        forall|j: int| row <= j < row + key_dim ==> #[trigger] s1[j] == s2[j],
    ensures
        stepped_row(s1, row, k, k_base, value, key_dim, g, beta) == stepped_row(
            s2,
            row,
            k,
            k_base,
            value,
            key_dim,
            g,
            beta,
        ),
{
    assert(decayed_row(s1, row, key_dim, g) =~= decayed_row(s2, row, key_dim, g));
    assert(stepped_row(s1, row, k, k_base, value, key_dim, g, beta) =~= stepped_row(
        s2,
        row,
        k,
        k_base,
        value,
        key_dim,
        g,
        beta,
    ));
}

proof fn lemma_stepped_head_at<S: Scalar>(
    state: Seq<S>,
    base: int,
    k: Seq<S>,
    k_base: int,
    v: Seq<S>,
    v_base: int,
    key_dim: int,
    g: S,
    beta: S,
    n: int,
    j: int,
)
    requires
        0 <= base,
        0 <= n,
        0 <= key_dim,
        base + n * key_dim <= state.len(),
        0 <= j < state.len(),
    ensures
        ({
            let r = stepped_head(state, base, k, k_base, v, v_base, key_dim, g, beta, n);
            &&& r.len() == state.len()
            &&& (j < base || base + n * key_dim <= j) ==> r[j] == state[j]
            &&& forall|vi: int|
                0 <= vi < n && base + vi * key_dim <= j < base + vi * key_dim + key_dim ==> r[j]
                    == (#[trigger] stepped_row(
                    state,
                    base + vi * key_dim,
                    k,
                    k_base,
                    v[v_base + vi],
                    key_dim,
                    g,
                    beta,
                ))[j - (base + vi * key_dim)]
        }),
    decreases n,
{
    if n > 0 {
        let row = base + (n - 1) * key_dim;
        lemma_within(n - 1, n, key_dim, key_dim);
        lemma_stepped_head_at(state, base, k, k_base, v, v_base, key_dim, g, beta, n - 1, j);
        let before = stepped_head(state, base, k, k_base, v, v_base, key_dim, g, beta, n - 1);
        assert forall|i: int| row <= i < row + key_dim implies #[trigger] before[i] == state[i] by {
            lemma_stepped_head_at(state, base, k, k_base, v, v_base, key_dim, g, beta, n - 1, i);
        }
        lemma_row_is_local(
            before,
            state,
            row,
            k,
            k_base,
            v[v_base + n - 1],
            key_dim,
            g,
            beta,
        );
        let r = stepped_head(state, base, k, k_base, v, v_base, key_dim, g, beta, n);
        assert forall|vi: int|
            0 <= vi < n && base + vi * key_dim <= j < base + vi * key_dim + key_dim implies r[j]
            == (#[trigger] stepped_row(
            state,
            base + vi * key_dim,
            k,
            k_base,
            v[v_base + vi],
            key_dim,
            g,
            beta,
        ))[j - (base + vi * key_dim)] by {
            if vi < n - 1 {
                lemma_within(vi, n - 1, key_dim, key_dim);
            }
        }
    } else {
        assert(n * key_dim == 0) by (nonlinear_arith)
            requires
                n == 0,
        ;
    }
}

/// The part of the state that belongs to other heads is not touched by a head.
proof fn lemma_stepped_at<S: Scalar>(state: Seq<S>, a: DeltaView<S>, heads: int, j: int)
    requires
        0 <= heads,
        0 <= a.key_dim,
        0 <= a.value_dim,
        heads * (a.value_dim * a.key_dim) <= state.len(),
        0 <= j < state.len(),
    ensures
        ({
            let size = a.value_dim * a.key_dim;
            let r = stepped(state, a, heads);
            &&& r.len() == state.len()
            &&& heads * size <= j ==> r[j] == state[j]
            &&& forall|h: int|
                0 <= h < heads && #[trigger] (h * size) <= j < h * size + size ==> r[j] == stepped(
                    state,
                    a,
                    h + 1,
                )[j]
        }),
    decreases heads,
{
    let size = a.value_dim * a.key_dim;
    assert(0 <= size) by (nonlinear_arith)
        requires
            size == a.value_dim * a.key_dim,
            0 <= a.value_dim,
            0 <= a.key_dim,
    ;
    if heads > 0 {
        let g = heads - 1;
        lemma_within(g, heads, size, size);
        lemma_stepped_at(state, a, g, j);
        lemma_stepped_head_at(
            stepped(state, a, g),
            g * size,
            a.k,
            a.k_base + (g / a.k_heads_per_v) * a.key_dim,
            a.v,
            a.v_base + g * a.value_dim,
            a.key_dim,
            a.g_decay[g],
            a.beta_gate[g],
            a.value_dim,
            j,
        );
        let r = stepped(state, a, heads);
        assert forall|h: int|
            0 <= h < heads && #[trigger] (h * size) <= j < h * size + size implies r[j] == stepped(
            state,
            a,
            h + 1,
        )[j] by {
            if h < g {
                lemma_within(h, g, size, size);
            }
        }
    }
}

/// The keys of the key head that a value head belongs to lie in a sequence that holds those of
/// the last value head.
proof fn lemma_key_head_fits(len: int, base: int, heads: int, per: int, key_dim: int, h: int)
    requires
        0 <= h < heads,
        0 < per,
        0 <= base,
        0 <= key_dim,
        base + ((heads - 1) / per) * key_dim + key_dim <= len,
    ensures
        0 <= base + (h / per) * key_dim,
        base + (h / per) * key_dim + key_dim <= len,
{
    vstd::arithmetic::div_mod::lemma_div_is_ordered(h, heads - 1, per);
    vstd::arithmetic::div_mod::lemma_div_pos_is_pos(h, per);
    lemma_mul_inequality(h / per, (heads - 1) / per, key_dim);
    lemma_mul_inequality(0, h / per, key_dim);
}

/// The recurrence, number by number. The state of value head `h` is a matrix with a row for each
/// of its values. Each row is scaled by the head's decay; then the key of key head
/// `h / k_heads_per_v`, times what the row lacks of the value, times the head's gate, is added.
/// What a row lacks is the value less the product of the scaled row with that key.
pub proof fn law_delta_state<S: Scalar>(
    state: Seq<S>,
    a: DeltaView<S>,
    heads: int,
    h: int,
    vi: int,
    i: int,
)
    requires
        0 <= h < heads,
        0 <= vi < a.value_dim,
        0 <= i < a.key_dim,
        0 < a.k_heads_per_v,
        0 <= a.k_base,
        heads * (a.value_dim * a.key_dim) <= state.len(),
        a.k_base + ((heads - 1) / a.k_heads_per_v) * a.key_dim + a.key_dim <= a.k.len(),
    ensures
        ({
            let n = a.key_dim;
            let row = h * (a.value_dim * n) + vi * n;
            let at = a.k_base + (h / a.k_heads_per_v) * n;
            let key = a.k.subrange(at, at + n);
            let scaled = Seq::new(n as nat, |j: int| state[row + j].s_times(a.g_decay[h]));
            let lack = a.v[a.v_base + h * a.value_dim + vi].s_minus(inner(scaled, key)).s_times(
                a.beta_gate[h],
            );
            let r = stepped(state, a, heads);
            &&& r.len() == state.len()
            &&& r[row + i] == scaled[i].s_plus(key[i].s_times(lack))
            &&& forall|j: int|
                heads * (a.value_dim * n) <= j < state.len() ==> #[trigger] r[j] == state[j]
        }),
{
    let n = a.key_dim;
    let size = a.value_dim * n;
    let base = h * size;
    let row = base + vi * n;
    let at = a.k_base + (h / a.k_heads_per_v) * n;
    let key = a.k.subrange(at, at + n);
    let r = stepped(state, a, heads);
    lemma_within(vi, a.value_dim, n, n);
    lemma_within(h, heads, size, size);
    lemma_key_head_fits(a.k.len() as int, a.k_base, heads, a.k_heads_per_v, n, h);
    lemma_stepped_at(state, a, heads, row + i);
    assert(h * size <= row + i < h * size + size);
    let before = stepped(state, a, h);
    lemma_stepped_at(state, a, h, row + i);
    lemma_stepped_head_at(
        before,
        base,
        a.k,
        at,
        a.v,
        a.v_base + h * a.value_dim,
        n,
        a.g_decay[h],
        a.beta_gate[h],
        a.value_dim,
        row + i,
    );
    let value = a.v[a.v_base + h * a.value_dim + vi];
    assert forall|j: int| row <= j < row + n implies #[trigger] before[j] == state[j] by {
        lemma_stepped_at(state, a, h, j);
    }
    lemma_row_is_local(before, state, row, a.k, at, value, n, a.g_decay[h], a.beta_gate[h]);
    assert(stepped(state, a, h + 1)[row + i] == stepped_row(
        before,
        base + vi * n,
        a.k,
        at,
        a.v[a.v_base + h * a.value_dim + vi],
        n,
        a.g_decay[h],
        a.beta_gate[h],
    )[row + i - (base + vi * n)]);
    let scaled = Seq::new(n as nat, |j: int| state[row + j].s_times(a.g_decay[h]));
    assert(decayed_row(state, row, n, a.g_decay[h]) =~= scaled);
    law_dot(scaled, 0, a.k, at, n);
    assert(scaled.subrange(0, n) =~= scaled);
    assert forall|j: int|
        heads * (a.value_dim * n) <= j < state.len() implies #[trigger] r[j] == state[j] by {
        lemma_stepped_at(state, a, heads, j);
    }
}

proof fn lemma_delta_output_at<S: Scalar>(
    out: Seq<S>,
    state: Seq<S>,
    a: DeltaView<S>,
    heads: int,
    h: int,
    vi: int,
)
    requires
        0 <= h,
        0 <= heads,
        0 <= vi < a.value_dim,
        heads * a.value_dim <= out.len(),
        h * a.value_dim + vi < out.len(),
    ensures
        ({
            let r = delta_output(out, state, a, heads);
            &&& r.len() == out.len()
            &&& r[h * a.value_dim + vi] == (if h < heads {
                head_output(stepped(state, a, h + 1), a, h)[vi]
            } else {
                out[h * a.value_dim + vi]
            })
        }),
    decreases heads,
{
    let n = a.value_dim;
    if heads > 0 {
        lemma_within(heads - 1, heads, n, n);
        if h < heads - 1 {
            lemma_within(h, heads - 1, n, n);
        } else if h >= heads {
            lemma_mul_inequality(heads, h, n);
        }
        lemma_mul_inequality(0, h, n);
        lemma_delta_output_at(out, state, a, heads - 1, h, vi);
    }
}

/// The output, number by number: that of value head `h` and value `vi` is the product of row
/// `vi` of the head's new state with the query of key head `h / k_heads_per_v`. What lies behind
/// the last head stays.
pub proof fn law_delta_output<S: Scalar>(
    out: Seq<S>,
    state: Seq<S>,
    a: DeltaView<S>,
    heads: int,
    h: int,
    vi: int,
)
    requires
        0 <= h < heads,
        0 <= vi < a.value_dim,
        0 <= a.key_dim,
        0 < a.k_heads_per_v,
        0 <= a.q_base,
        heads * (a.value_dim * a.key_dim) <= state.len(),
        heads * a.value_dim <= out.len(),
        a.q_base + ((heads - 1) / a.k_heads_per_v) * a.key_dim + a.key_dim <= a.q.len(),
    ensures
        ({
            let n = a.key_dim;
            let row = h * (a.value_dim * n) + vi * n;
            let at = a.q_base + (h / a.k_heads_per_v) * n;
            let after = stepped(state, a, heads);
            let r = delta_output(out, state, a, heads);
            &&& r.len() == out.len()
            &&& r[h * a.value_dim + vi] == inner(
                after.subrange(row, row + n),
                a.q.subrange(at, at + n),
            )
            &&& forall|j: int| heads * a.value_dim <= j < out.len() ==> #[trigger] r[j] == out[j]
        }),
{
    let n = a.key_dim;
    let size = a.value_dim * n;
    let row = h * size + vi * n;
    let at = a.q_base + (h / a.k_heads_per_v) * n;
    let after = stepped(state, a, heads);
    let r = delta_output(out, state, a, heads);
    lemma_within(h, heads, a.value_dim, a.value_dim);
    lemma_within(vi, a.value_dim, n, n);
    lemma_within(h, heads, size, size);
    lemma_within(h, heads, size, 0);
    lemma_key_head_fits(a.q.len() as int, a.q_base, heads, a.k_heads_per_v, n, h);
    lemma_delta_output_at(out, state, a, heads, h, vi);
    let then = stepped(state, a, h + 1);
    assert((h + 1) * size == h * size + size) by (nonlinear_arith);
    if state.len() > 0 {
        lemma_stepped_at(state, a, heads, 0);
        lemma_stepped_at(state, a, h + 1, 0);
    } else {
        lemma_stepped_empty(state, a, heads);
        lemma_stepped_empty(state, a, h + 1);
    }
    law_dot(then, row, a.q, at, n);
    let x = then.subrange(row, row + n);
    let y = after.subrange(row, row + n);
    assert forall|i: int| 0 <= i < n implies x[i] == y[i] by {
        lemma_stepped_at(state, a, heads, row + i);
        assert(h * size <= row + i < h * size + size);
    }
    assert(x =~= y);
    assert forall|j: int| heads * a.value_dim <= j < out.len() implies #[trigger] r[j]
        == out[j] by {
        vstd::arithmetic::div_mod::lemma_fundamental_div_mod(j, a.value_dim);
        vstd::arithmetic::div_mod::lemma_mod_bound(j, a.value_dim);
        let g = j / a.value_dim;
        assert(a.value_dim * g == g * a.value_dim) by (nonlinear_arith);
        assert(heads <= g) by (nonlinear_arith)
            requires
                heads * a.value_dim <= j,
                j == g * a.value_dim + j % a.value_dim,
                0 <= j % a.value_dim < a.value_dim,
        ;
        lemma_delta_output_at(out, state, a, heads, g, j % a.value_dim);
    }
}

proof fn lemma_stepped_empty<S: Scalar>(state: Seq<S>, a: DeltaView<S>, heads: int)
    requires
        state.len() == 0,
    ensures
        stepped(state, a, heads).len() == 0,
    decreases heads,
{
    if heads > 0 {
        let h = heads - 1;
        lemma_stepped_empty(state, a, h);
        lemma_stepped_head_len(
            stepped(state, a, h),
            h * (a.value_dim * a.key_dim),
            a.k,
            a.k_base + (h / a.k_heads_per_v) * a.key_dim,
            a.v,
            a.v_base + h * a.value_dim,
            a.key_dim,
            a.g_decay[h],
            a.beta_gate[h],
            a.value_dim,
        );
    }
}

/// What a value head works with: its own values, decay and gate, and the query and key of its
/// own key head.
pub open spec fn operands_of_head<S>(a: DeltaView<S>, h: int) -> DeltaView<S> {
    let q = a.q_base + (h / a.k_heads_per_v) * a.key_dim;
    let k = a.k_base + (h / a.k_heads_per_v) * a.key_dim;
    let v = a.v_base + h * a.value_dim;
    DeltaView {
        q: a.q.subrange(q, q + a.key_dim),
        k: a.k.subrange(k, k + a.key_dim),
        v: a.v.subrange(v, v + a.value_dim),
        q_base: 0,
        k_base: 0,
        v_base: 0,
        g_decay: seq![a.g_decay[h]],
        beta_gate: seq![a.beta_gate[h]],
        k_heads_per_v: 1,
        key_dim: a.key_dim,
        value_dim: a.value_dim,
    }
}

/// A value head steps as it would alone: with nothing but its own state and its own operands, a
/// step of one head gives the same new state and the same output. So no query, key or value of
/// another head has a part in them.
pub proof fn law_delta_head_alone<S: Scalar>(
    out: Seq<S>,
    state: Seq<S>,
    a: DeltaView<S>,
    heads: int,
    h: int,
    vi: int,
    i: int,
    alone: Seq<S>,
)
    requires
        0 <= h < heads,
        0 <= vi < a.value_dim,
        0 <= i < a.key_dim,
        alone.len() == a.value_dim,
        0 <= a.q_base,
        0 <= a.k_base,
        0 <= a.v_base,
        delta_fits(
            state.len() as int,
            a.q.len() as int,
            a.k.len() as int,
            a.v.len() as int,
            a.g_decay.len() as int,
            a.beta_gate.len() as int,
            out.len() as int,
            a.q_base,
            a.k_base,
            a.v_base,
            heads,
            a.k_heads_per_v,
            a.key_dim,
            a.value_dim,
        ),
    ensures
        ({
            let size = a.value_dim * a.key_dim;
            let own = state.subrange(h * size, h * size + size);
            let b = operands_of_head(a, h);
            &&& stepped(state, a, heads)[h * size + vi * a.key_dim + i] == stepped(own, b, 1)[vi
                * a.key_dim + i]
            &&& delta_output(out, state, a, heads)[h * a.value_dim + vi] == delta_output(
                alone,
                own,
                b,
                1,
            )[vi]
        }),
{
    let n = a.key_dim;
    let size = a.value_dim * n;
    let own = state.subrange(h * size, h * size + size);
    let b = operands_of_head(a, h);
    lemma_within(h, heads, size, size);
    lemma_within(h, heads, a.value_dim, a.value_dim);
    lemma_within(vi, a.value_dim, n, n);
    lemma_key_head_fits(a.k.len() as int, a.k_base, heads, a.k_heads_per_v, n, h);
    lemma_key_head_fits(a.q.len() as int, a.q_base, heads, a.k_heads_per_v, n, h);
    assert((0int / 1) * n == 0) by (nonlinear_arith);
    assert(0 * size == 0 && 1 * size == size && 0 * a.value_dim == 0 && 1 * a.value_dim
        == a.value_dim) by (nonlinear_arith);
    assert forall|r: int, j: int|
        0 <= r < a.value_dim && 0 <= j < n implies #[trigger] stepped(state, a, heads)[h * size + r
        * n + j] == stepped(own, b, 1)[r * n + j] by {
        lemma_head_alone_state(state, a, heads, h, r, j);
    }
    assert(stepped(state, a, heads)[h * size + vi * n + i] == stepped(own, b, 1)[vi * n + i]);
    law_delta_output(out, state, a, heads, h, vi);
    law_delta_output(alone, own, b, 1, 0, vi);
    lemma_stepped_at(state, a, heads, h * size + vi * n + i);
    lemma_stepped_at(own, b, 1, vi * n + i);
    let row = h * size + vi * n;
    let x = stepped(state, a, heads).subrange(row, row + n);
    let y = stepped(own, b, 1).subrange(0 * size + vi * n, 0 * size + vi * n + n);
    assert forall|j: int| 0 <= j < n implies x[j] == y[j] by {
        assert(stepped(state, a, heads)[h * size + vi * n + j] == stepped(own, b, 1)[vi * n + j]);
    }
    assert(x =~= y);
    let at = a.q_base + (h / a.k_heads_per_v) * n;
    assert(b.q.subrange(0 + (0int / 1) * n, 0 + (0int / 1) * n + n) =~= a.q.subrange(at, at + n));
}

proof fn lemma_head_alone_state<S: Scalar>(
    state: Seq<S>,
    a: DeltaView<S>,
    heads: int,
    h: int,
    vi: int,
    i: int,
)
    requires
        0 <= h < heads,
        0 <= vi < a.value_dim,
        0 <= i < a.key_dim,
        0 < a.k_heads_per_v,
        0 <= a.k_base,
        0 <= a.v_base,
        a.v_base + heads * a.value_dim <= a.v.len(),
        heads * (a.value_dim * a.key_dim) <= state.len(),
        a.k_base + ((heads - 1) / a.k_heads_per_v) * a.key_dim + a.key_dim <= a.k.len(),
    ensures
        ({
            let size = a.value_dim * a.key_dim;
            let own = state.subrange(h * size, h * size + size);
            stepped(state, a, heads)[h * size + vi * a.key_dim + i] == stepped(
                own,
                operands_of_head(a, h),
                1,
            )[vi * a.key_dim + i]
        }),
{
    let n = a.key_dim;
    let size = a.value_dim * n;
    let own = state.subrange(h * size, h * size + size);
    let b = operands_of_head(a, h);
    lemma_within(h, heads, size, size);
    lemma_within(h, heads, a.value_dim, a.value_dim);
    lemma_within(vi, a.value_dim, n, n);
    lemma_key_head_fits(a.k.len() as int, a.k_base, heads, a.k_heads_per_v, n, h);
    assert((0int / 1) * n == 0) by (nonlinear_arith);
    assert(0 * size == 0 && 1 * size == size && 0 * a.value_dim == 0) by (nonlinear_arith);
    law_delta_state(state, a, heads, h, vi, i);
    law_delta_state(own, b, 1, 0, vi, i);
    let at = a.k_base + (h / a.k_heads_per_v) * n;
    let row = h * size + vi * n;
    let row1 = 0 * size + vi * n;
    assert(b.k.subrange(0 + (0int / 1) * n, 0 + (0int / 1) * n + n) =~= a.k.subrange(at, at + n));
    let s0 = Seq::new(n as nat, |j: int| state[row + j].s_times(a.g_decay[h]));
    let s1 = Seq::new(n as nat, |j: int| own[row1 + j].s_times(b.g_decay[0]));
    assert forall|j: int| 0 <= j < n implies s0[j] == s1[j] by {
        assert(own[row1 + j] == state[h * size + (row1 + j)]);
    }
    assert(s0 =~= s1);
}

/// The norm of queries and keys, number by number: head `h` is scaled by the inverse root of the
/// mean square of its own numbers and by the factor. What lies behind the last head stays.
pub proof fn law_key_norm<S: Scalar>(
    order: NormOrder,
    out: Seq<S>,
    x: Seq<S>,
    base: int,
    heads: int,
    key_dim: usize,
    eps: S,
    factor: S,
    h: int,
    i: int,
)
    requires
        0 <= h,
        0 <= heads,
        0 <= i < key_dim,
        0 <= base,
        heads * key_dim <= out.len(),
        h * key_dim + i < out.len(),
        base + heads * key_dim <= x.len(),
    ensures
        ({
            let n = key_dim as int;
            let r = x.subrange(base + h * n, base + h * n + n);
            let scale = one::<S>().s_over(
                inner(r, r).s_over(S::s_of_usize(key_dim)).s_plus(eps).s_sqrt(),
            );
            let y = key_normed(order, out, x, base, heads, key_dim, eps, factor);
            &&& y.len() == out.len()
            &&& y[h * n + i] == (if h < heads {
                match order {
                    NormOrder::ScaleFirst => r[i].s_times(scale).s_times(factor),
                    NormOrder::WeightFirst => r[i].s_times(scale.s_times(factor)),
                }
            } else {
                out[h * n + i]
            })
        }),
    decreases heads,
{
    let n = key_dim as int;
    lemma_mul_inequality(0, h, n);
    if heads > 0 {
        lemma_within(heads - 1, heads, n, n);
        if h < heads {
            lemma_within(h, heads, n, n);
            law_inv_rms(x, base + h * n, key_dim, eps);
        }
        if h < heads - 1 {
            lemma_within(h, heads - 1, n, n);
        } else if h >= heads {
            lemma_mul_inequality(heads, h, n);
        }
        law_key_norm(order, out, x, base, heads - 1, key_dim, eps, factor, h, i);
    }
}

/// The gated norms, number by number: head `h` is scaled by the inverse root of the mean square
/// of its own values, by its weight, and by the SiLU of its own gate; the two forms differ in the
/// order of the last two. Without weights the values are taken over as they are.
pub proof fn law_gated_norm<S: Scalar>(
    out: Seq<S>,
    values: Seq<S>,
    z: Seq<S>,
    w: Seq<u16>,
    heads: int,
    value_dim: usize,
    eps: S,
    h: int,
    i: int,
)
    requires
        0 <= h,
        0 <= heads,
        0 <= i < value_dim,
        heads * value_dim <= out.len(),
        heads * value_dim <= values.len(),
        h * value_dim + i < out.len(),
    ensures
        ({
            let n = value_dim as int;
            let j = h * n + i;
            let r = values.subrange(h * n, h * n + n);
            let scale = one::<S>().s_over(
                inner(r, r).s_over(S::s_of_usize(value_dim)).s_plus(eps).s_sqrt(),
            );
            let wi = S::s_of_bits((w[i] * 0x1_0000) as u32);
            let gate = z[j].s_over(one::<S>().s_plus(z[j].s_neg().s_exp()));
            let y = gated_heads(out, values, z, w, heads, value_dim, eps);
            let u = weighted_gated_heads(out, values, z, w, heads, value_dim, eps);
            let bare = maybe_gated(out, values, z, None, heads, value_dim, eps);
            &&& y.len() == out.len() && u.len() == out.len() && bare.len() == out.len()
            &&& h < heads ==> {
                &&& y[j] == values[j].s_times(scale).s_times(gate).s_times(wi)
                &&& u[j] == values[j].s_times(scale).s_times(wi).s_times(gate)
                &&& bare[j] == values[j]
            }
            &&& h >= heads ==> y[j] == out[j] && u[j] == out[j] && bare[j] == out[j]
        }),
    decreases heads,
{
    let n = value_dim as int;
    lemma_mul_inequality(0, h, n);
    lemma_mul_inequality(0, heads, n);
    if h < heads {
        lemma_within(h, heads, n, n);
    } else {
        lemma_mul_inequality(heads, h, n);
    }
    if heads > 0 {
        lemma_within(heads - 1, heads, n, n);
        if h < heads {
            law_inv_rms(values, h * n, value_dim, eps);
        }
        if h < heads - 1 {
            lemma_within(h, heads - 1, n, n);
        }
        law_gated_norm(out, values, z, w, heads - 1, value_dim, eps, h, i);
    }
}

/// Without weights of a norm the value heads are taken as they are.
pub proof fn law_ungated<S: Scalar>(
    out: Seq<S>,
    values: Seq<S>,
    z: Seq<S>,
    heads: int,
    value_dim: usize,
    eps: S,
    i: int,
)
    requires
        0 <= i < out.len(),
        0 <= heads * value_dim <= values.len(),
    ensures
        ({
            let r = maybe_gated(out, values, z, None, heads, value_dim, eps);
            &&& r.len() == out.len()
            &&& r[i] == (if i < heads * value_dim {
                values[i]
            } else {
                out[i]
            })
        }),
{
}

} // verus!
