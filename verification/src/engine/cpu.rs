//! The CPU engine: every product on the CPU, only the experts' bytes come from outside.

use vstd::prelude::*;

use crate::attention_math::NormOrder;
use crate::cache::{FullState, State};
use crate::constants::{GROUP_SIZE, MAX_SEQ};
use crate::cpu_forward::{
    input_normed, shared_activation, shared_gate, shared_score, step_input_norm,
};
use crate::cpu_layer::{blob_views, experts_summed, LayerWeights};
use crate::expert_math::{run_expert, vec_madd, ExpertParts};
use crate::full_attention::{
    cache_ready, full_attended, full_attention_cpu, rope_ready, GateForm, RopePairs,
};
use crate::linear_attention::{linear_attended, linear_attention};
use crate::math_util::{
    activate_expert, copy_of, final_norm, final_normed, norm_eps, norm_epsilon, normalized, sigmoid,
    sigmoid_value, softmax_of, zero_seq,
};
use crate::quant::overwrite;
use crate::routing::{best, of_bits, route, Routing};
use crate::scalar::{zero_vec, Scalar};
use crate::weights::{dequant_proj, mat_fits, projected, LayerDims, MoeWeights, QuantMat};

verus! {

/// The hidden state after the norm in front of attention or of the experts.
pub fn layer_norm<S: Scalar>(d: &LayerDims, weight: Option<&[u16]>, hidden: &[S]) -> (r: Vec<S>)
    requires
        hidden@.len() == d.hidden_dim,
        weight matches Some(w) ==> d.hidden_dim <= w@.len(),
    ensures
        r@ == input_normed(
            hidden@,
            weight,
            zero_seq(d.hidden_dim as int),
            d.hidden_dim,
            norm_eps(),
        ),
        r@.len() == d.hidden_dim,
{
    let mut out: Vec<S> = zero_vec(d.hidden_dim);
    step_input_norm(hidden, weight, out.as_mut_slice(), d.hidden_dim, &norm_epsilon());
    out
}

/// Full attention of the CPU engine.
pub fn full_attention<S: Scalar>(
    d: &LayerDims,
    w: &LayerWeights,
    normed: &[S],
    residual: &[S],
    hidden: &mut [S],
    kv: &mut FullState<S>,
    cos: &[S],
    sin: &[S],
)
    requires
        d.attention_valid(),
        w.attn.fits(*d, normed@.len() as int, d.q_dim()),
        residual@.len() == d.hidden_dim,
        old(hidden)@.len() == d.hidden_dim,
        old(kv).len < MAX_SEQ,
        cache_ready(*d, *old(kv)),
        rope_ready(*d, RopePairs::Halves, cos@.len() as int, sin@.len() as int),
    ensures
        ({
            let r = full_attended(
                *d,
                w.attn,
                NormOrder::WeightFirst,
                RopePairs::Halves,
                GateForm::Over,
                normed@,
                residual@,
                old(hidden)@,
                old(kv).k_cache@,
                old(kv).v_cache@,
                old(kv).len as int,
                cos@,
                sin@,
            );
            &&& final(hidden)@ == r.hidden
            &&& final(kv).k_cache@ == r.k_cache
            &&& final(kv).v_cache@ == r.v_cache
            &&& final(kv).len == r.len
        }),
{
    full_attention_cpu(
        d,
        &w.attn,
        NormOrder::WeightFirst,
        RopePairs::Halves,
        GateForm::Over,
        normed,
        residual,
        hidden,
        kv,
        cos,
        sin,
    );
}

/// What is computed in front of the experts.
pub struct MoeFront<S> {
    pub routing: Routing<S>,
    /// The activation of the shared expert.
    pub shared_act: Vec<S>,
    pub shared_gate_score: S,
}

/// Router probabilities of a token.
pub open spec fn moe_scores<S: Scalar>(
    d: LayerDims,
    w: MoeWeights,
    h_post: Seq<S>,
) -> Seq<S> {
    let ne = d.num_experts as int;
    let logits = projected(
        w.gate,
        h_post,
        zero_seq(ne),
        ne,
        d.hidden_dim as int,
        d.group_size as int,
    );
    softmax_of(logits, 0, ne)
}

/// Score the experts, choose the best, and start the shared expert.
pub fn moe_front<S: Scalar>(d: &LayerDims, w: &MoeWeights, h_post: &[S]) -> (r: MoeFront<S>)
    requires
        0 < d.experts_per_tok,
        w.fits(*d, h_post@.len() as int, d.shared_inter as int),
    ensures
        ({
            let chosen = best(moe_scores(*d, *w, h_post@), d.experts_per_tok);
            &&& r.routing.indices@ == chosen.indices
            &&& r.routing.weights@ == normalized(of_bits::<S>(chosen.values))
        }),
        r.routing.indices@.len() == d.experts_per_tok,
        r.routing.weights@.len() == d.experts_per_tok,
        r.shared_act@ == shared_activation(*d, *w, h_post@),
        r.shared_act@.len() == d.shared_inter,
        r.shared_gate_score == shared_score(*d, w.shared_expert_gate, h_post@),
{
    let hd: usize = d.hidden_dim;
    let gs: usize = d.group_size;
    let si: usize = d.shared_inter;
    let mut scores: Vec<S> = zero_vec(d.num_experts);
    let mut gate: Vec<S> = zero_vec(si);
    let mut up: Vec<S> = zero_vec(si);
    dequant_proj(w.gate, h_post, scores.as_mut_slice(), d.num_experts, hd, gs);
    dequant_proj(w.shared_gate, h_post, gate.as_mut_slice(), si, hd, gs);
    dequant_proj(w.shared_up, h_post, up.as_mut_slice(), si, hd, gs);
    let shared_gate_score: S = shared_gate(d, w.shared_expert_gate, h_post);
    let routing: Routing<S> = route(scores.as_mut_slice(), d.experts_per_tok);
    let mut shared_act: Vec<S> = zero_vec(si);
    activate_expert(gate.as_slice(), up.as_slice(), shared_act.as_mut_slice(), si);
    assert(shared_act@ =~= shared_activation(*d, *w, h_post@));
    MoeFront { routing, shared_act, shared_gate_score }
}

/// Residual, routed experts, and the shared expert times its gate.
pub open spec fn moe_combined<S: Scalar>(
    h_mid: Seq<S>,
    moe_out: Seq<S>,
    shared_out: Seq<S>,
    score: S,
    dim: int,
) -> Seq<S> {
    Seq::new(
        dim as nat,
        |i: int|
            h_mid[i].s_plus(moe_out[i]).s_plus(sigmoid_value(score).s_times(shared_out[i])),
    )
}

/// The hidden state after the experts whose bytes are there.
pub open spec fn moe_output<S: Scalar>(
    d: LayerDims,
    w: MoeWeights,
    parts: ExpertParts,
    blobs: Seq<Option<Seq<u8>>>,
    weights: Seq<S>,
    shared_act: Seq<S>,
    score: S,
    h_post: Seq<S>,
    hidden: Seq<S>,
) -> Seq<S> {
    let hd = d.hidden_dim as int;
    let (moe_out, tmp) = experts_summed(
        d,
        parts,
        blobs,
        weights,
        h_post,
        zero_seq(hd),
        zero_seq(hd),
        blobs.len() as int,
    );
    let shared_out = projected(
        w.shared_down,
        shared_act,
        zero_seq(hd),
        hd,
        d.shared_inter as int,
        d.group_size as int,
    );
    overwrite(hidden, 0, moe_combined(hidden, moe_out, shared_out, score, hd))
}

/// The weighted sum of the experts whose bytes could be read.
pub fn moe_experts<S: Scalar>(
    d: &LayerDims,
    parts: &ExpertParts,
    blobs: &Vec<Option<Vec<u8>>>,
    weights: &[S],
    h_post: &[S],
) -> (r: Vec<S>)
    requires
        blobs@.len() <= weights@.len(),
        forall|i: int|
            0 <= i < blobs@.len() ==> (#[trigger] blobs@[i] matches Some(data) ==> parts.fits(
                data@.len() as int,
                h_post@.len() as int,
                d.hidden_dim as int,
                d.moe_inter as int,
                d.group_size as int,
            )),
    ensures
        r@ == experts_summed(
            *d,
            *parts,
            blob_views(blobs@),
            weights@,
            h_post@,
            zero_seq(d.hidden_dim as int),
            zero_seq(d.hidden_dim as int),
            blobs@.len() as int,
        ).0,
        r@.len() == d.hidden_dim,
{
    let hd: usize = d.hidden_dim;
    let n: usize = blobs.len();
    let mut moe_out: Vec<S> = zero_vec(hd);
    let mut eout: Vec<S> = zero_vec(hd);
    for k in 0..n
        invariant
            n == blobs@.len(),
            hd == d.hidden_dim,
            n <= weights@.len(),
            forall|i: int|
                0 <= i < blobs@.len() ==> (#[trigger] blobs@[i] matches Some(data) ==> parts.fits(
                    data@.len() as int,
                    h_post@.len() as int,
                    d.hidden_dim as int,
                    d.moe_inter as int,
                    d.group_size as int,
                )),
            moe_out@.len() == hd,
            eout@.len() == hd,
            (moe_out@, eout@) == experts_summed(
                *d,
                *parts,
                blob_views(blobs@),
                weights@,
                h_post@,
                zero_seq(hd as int),
                zero_seq(hd as int),
                k as int,
            ),
    {
        match &blobs[k] {
            Some(data) => {
                run_expert(
                    data.as_slice(),
                    parts,
                    h_post,
                    eout.as_mut_slice(),
                    hd,
                    d.moe_inter,
                    d.group_size,
                );
                vec_madd(moe_out.as_mut_slice(), eout.as_slice(), &weights[k], hd);
            },
            None => {},
        }
    }
    moe_out
}

/// Add routed experts, and the shared expert times its gate, to the hidden state.
pub fn moe_combine<S: Scalar>(
    moe_out: &[S],
    shared_out: &[S],
    score: &S,
    hidden: &mut [S],
    hidden_dim: usize,
)
    requires
        moe_out@.len() == hidden_dim,
        shared_out@.len() == hidden_dim,
        old(hidden)@.len() == hidden_dim,
    ensures
        final(hidden)@ == overwrite(
            old(hidden)@,
            0,
            moe_combined(old(hidden)@, moe_out@, shared_out@, *score, hidden_dim as int),
        ),
{
    let sw: S = sigmoid(score);
    let ghost h_mid = hidden@;
    for i in 0..hidden_dim
        invariant
            hidden_dim <= moe_out@.len(),
            hidden_dim <= shared_out@.len(),
            hidden_dim == hidden@.len(),
            h_mid.len() == hidden_dim,
            forall|j: int|
                0 <= j < i ==> hidden@[j] == h_mid[j].s_plus(moe_out@[j]).s_plus(
                    sw.s_times(shared_out@[j]),
                ),
            forall|j: int| i <= j < hidden_dim ==> hidden@[j] == h_mid[j],
    {
        hidden[i] = hidden[i].plus(&moe_out[i]).plus(&sw.times(&shared_out[i]));
    }
    assert(hidden@ =~= overwrite(
        h_mid,
        0,
        moe_combined(h_mid, moe_out@, shared_out@, *score, hidden_dim as int),
    ));
}

/// Run the experts whose bytes could be read, finish the shared expert, and add everything to
/// the hidden state.
pub fn moe_finish<S: Scalar>(
    d: &LayerDims,
    w: &MoeWeights,
    parts: &ExpertParts,
    blobs: &Vec<Option<Vec<u8>>>,
    front: &MoeFront<S>,
    h_post: &[S],
    hidden: &mut [S],
)
    requires
        w.fits(*d, h_post@.len() as int, d.shared_inter as int),
        front.shared_act@.len() == d.shared_inter,
        blobs@.len() <= front.routing.weights@.len(),
        old(hidden)@.len() == d.hidden_dim,
        forall|i: int|
            0 <= i < blobs@.len() ==> (#[trigger] blobs@[i] matches Some(data) ==> parts.fits(
                data@.len() as int,
                h_post@.len() as int,
                d.hidden_dim as int,
                d.moe_inter as int,
                d.group_size as int,
            )),
    ensures
        final(hidden)@ == moe_output(
            *d,
            *w,
            *parts,
            blob_views(blobs@),
            front.routing.weights@,
            front.shared_act@,
            front.shared_gate_score,
            h_post@,
            old(hidden)@,
        ),
{
    let hd: usize = d.hidden_dim;
    let moe_out: Vec<S> = moe_experts(d, parts, blobs, front.routing.weights.as_slice(), h_post);
    let mut shared_out: Vec<S> = zero_vec(hd);
    dequant_proj(
        w.shared_down,
        front.shared_act.as_slice(),
        shared_out.as_mut_slice(),
        hd,
        d.shared_inter,
        d.group_size,
    );
    moe_combine(
        moe_out.as_slice(),
        shared_out.as_slice(),
        &front.shared_gate_score,
        hidden,
        hd,
    );
}

/// Norm the hidden state and project it to the vocabulary.
pub fn final_norm_and_lm_head<S: Scalar>(
    norm: Option<&[u16]>,
    head: Option<QuantMat>,
    hidden: &mut [S],
    logits: &mut [S],
    vocab_size: usize,
    hidden_dim: usize,
)
    requires
        hidden_dim <= old(hidden)@.len(),
        norm matches Some(w) ==> hidden_dim <= w@.len(),
        mat_fits(
            head,
            old(hidden)@.len() as int,
            vocab_size as int,
            hidden_dim as int,
            GROUP_SIZE as int,
        ),
        vocab_size <= old(logits)@.len(),
    ensures
        final(hidden)@ == match norm {
            Some(w) => overwrite(old(hidden)@, 0, final_normed(old(hidden)@, w@, hidden_dim)),
            None => old(hidden)@,
        },
        final(logits)@ == projected(
            head,
            final(hidden)@,
            old(logits)@,
            vocab_size as int,
            hidden_dim as int,
            GROUP_SIZE as int,
        ),
{
    final_norm(norm, hidden, hidden_dim);
    dequant_proj(head, hidden, logits, vocab_size, hidden_dim, GROUP_SIZE);
}

/// The CPU engine: a model's sizes, and where its experts' tensors lie.
#[derive(Clone, Copy, Debug, PartialEq, Eq, Structural)]
pub struct EngineCPU {
    pub dims: LayerDims,
    pub num_layers: usize,
    pub vocab_size: usize,
    pub parts: ExpertParts,
}

impl EngineCPU {
    /// A cache layer that the engine can run.
    pub open spec fn runs<S, B>(
        self,
        w: LayerWeights,
        state: State<S, B>,
        cos_len: int,
        sin_len: int,
    ) -> bool {
        let d = self.dims;
        let hd = d.hidden_dim as int;
        &&& w.input_norm matches Some(n) ==> hd <= n@.len()
        &&& w.post_attn_norm matches Some(n) ==> hd <= n@.len()
        &&& w.moe.fits(d, hd, d.shared_inter as int)
        &&& match state {
            State::Full(kv) => {
                &&& d.attention_valid()
                &&& w.attn.fits(d, hd, d.q_dim())
                &&& kv.len < MAX_SEQ
                &&& cache_ready(d, kv)
                &&& rope_ready(d, RopePairs::Halves, cos_len, sin_len)
            },
            State::Linear(s) => {
                &&& d.linear_valid()
                &&& 2 <= d.conv_kernel
                &&& w.linear.fits(d, hd, d.total_value as int)
                &&& s.conv_state@.len() == (d.conv_kernel - 1) * d.conv_dim
                &&& d.num_v_heads * (d.value_dim * d.key_dim) <= s.ssm_state@.len()
            },
        }
    }

    /// Attention of one layer: input norm, full or linear attention, and the norm in front of
    /// the experts, which is returned.
    pub fn attention<S: Scalar, B>(
        &self,
        w: &LayerWeights,
        hidden: &mut [S],
        state: &mut State<S, B>,
        cos: &[S],
        sin: &[S],
    ) -> (h_post: Vec<S>)
        requires
            old(hidden)@.len() == self.dims.hidden_dim,
            self.runs(*w, *old(state), cos@.len() as int, sin@.len() as int),
        ensures
            ({
                let d = self.dims;
                let hd = d.hidden_dim as int;
                let normed = input_normed(
                    old(hidden)@,
                    w.input_norm,
                    zero_seq(hd),
                    d.hidden_dim,
                    norm_eps(),
                );
                &&& match (*old(state), *final(state)) {
                    (State::Full(a), State::Full(b)) => {
                        let r = full_attended(
                            d,
                            w.attn,
                            NormOrder::WeightFirst,
                            RopePairs::Halves,
                            GateForm::Over,
                            normed,
                            old(hidden)@,
                            old(hidden)@,
                            a.k_cache@,
                            a.v_cache@,
                            a.len as int,
                            cos@,
                            sin@,
                        );
                        &&& final(hidden)@ == r.hidden
                        &&& b.k_cache@ == r.k_cache
                        &&& b.v_cache@ == r.v_cache
                        &&& b.len == r.len
                    },
                    (State::Linear(a), State::Linear(b)) => {
                        let r = linear_attended(
                            d,
                            w.linear,
                            normed,
                            old(hidden)@,
                            old(hidden)@,
                            a.conv_state@,
                            a.ssm_state@,
                        );
                        &&& final(hidden)@ == r.hidden
                        &&& b.conv_state@ == r.conv
                        &&& b.ssm_state@ == r.ssm
                        &&& b.ssm_state_gpu == a.ssm_state_gpu
                    },
                    _ => false,
                }
                &&& h_post@ == input_normed(
                    final(hidden)@,
                    w.post_attn_norm,
                    zero_seq(hd),
                    d.hidden_dim,
                    norm_eps(),
                )
            }),
            final(hidden)@.len() == self.dims.hidden_dim,
            h_post@.len() == self.dims.hidden_dim,
    {
        let d = &self.dims;
        let residual: Vec<S> = copy_of(hidden);
        let normed: Vec<S> = layer_norm(d, w.input_norm, hidden);
        match state {
            State::Full(kv) => {
                full_attention(
                    d,
                    w,
                    normed.as_slice(),
                    residual.as_slice(),
                    hidden,
                    kv,
                    cos,
                    sin,
                );
            },
            State::Linear(s) => {
                linear_attention(
                    d,
                    &w.linear,
                    normed.as_slice(),
                    residual.as_slice(),
                    hidden,
                    s,
                );
            },
        }
        layer_norm(d, w.post_attn_norm, hidden)
    }
}

} // verus!
