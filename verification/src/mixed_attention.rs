//! A full-attention layer between CPU and device: projections, attention and the projection
//! back each run where the device allows.

use vstd::prelude::*;

use crate::attention_math::NormOrder;
use crate::cache::FullState;
use crate::command::{Command, Tensor};
use crate::cpu_forward::{lemma_attention_sizes, step_input_norm};
use crate::deferred::PipelineMode;
use crate::full_attention::{
    after_qkv, attend_and_gate, attention_output, cache_ready, cmd2_fits, defer_attention,
    full_attended, prepare_attention, prepared, project_program, qkv_program, rope_ready,
    AttnBuffers, AttnInputs, AttnSupport, FullAttnCmd2State, GateForm, RopePairs,
};
use crate::kernels::{after_finish, after_open, after_project};
use crate::linear_forward::layer_normed;
use crate::math_util::{added, copy_of, norm_epsilon, residual_add, zero_seq};
use crate::quant::overwrite;
use crate::scalar::{zero_vec, Scalar};
use crate::weights::{dequant_proj, projected, AttnWeights, LayerDims};

verus! {

/// How a full-attention layer starts.
pub enum AttnStart<S, B> {
    /// Write the normed hidden state, run the commands, and read the three projections.
    Project { normed: Vec<S>, commands: Vec<Command<B>> },
    /// The projections of the CPU.
    Projected { q_proj: Vec<S>, k: Vec<S>, v: Vec<S> },
}

/// Buffers of the three projections.
#[derive(Clone, Copy, Debug)]
pub struct QkvBuffers<B> {
    pub x: B,
    pub q: B,
    pub k: B,
    pub v: B,
}

/// What is left to do behind the projections.
pub enum AttnNext<S, B> {
    /// Attention is left to the routing step: write queries and their gates, the cache's first
    /// `seq_len` positions, and the hidden state.
    Deferred { state: FullAttnCmd2State<B>, q: Vec<S>, q_gate: Vec<S> },
    /// Write the attention output, run the commands, and read its projection.
    ProjectBack { attn: Vec<S>, commands: Vec<Command<B>> },
    /// Nothing: the CPU has done it.
    Done,
}

/// Start a full-attention layer: norm the hidden state, and project it, on the device if there
/// is one.
pub fn mixed_full_attention_forward<S: Scalar, B: Copy>(
    support: &AttnSupport,
    d: &LayerDims,
    w: &AttnWeights,
    input_norm: Option<&[u16]>,
    layer: usize,
    hidden: &[S],
    b: &QkvBuffers<B>,
) -> (r: AttnStart<S, B>)
    requires
        d.attention_valid(),
        w.fits(*d, d.hidden_dim as int, d.q_dim()),
        input_norm matches Some(n) ==> d.hidden_dim <= n@.len(),
        hidden@.len() == d.hidden_dim,
    ensures
        ({
            let x = layer_normed(*d, input_norm, hidden@);
            let hd = d.hidden_dim as int;
            let gs = d.group_size as int;
            if support.has_context && support.has_weights {
                &&& r matches AttnStart::Project { normed, commands }
                &&& normed@ == x
                &&& commands@ == after_qkv(Seq::empty(), *d, layer, b.x, b.q, b.k, b.v)
            } else {
                &&& r matches AttnStart::Projected { q_proj, k, v }
                &&& q_proj@ == projected(
                    w.q,
                    x,
                    zero_seq(2 * d.q_dim()),
                    2 * d.q_dim(),
                    hd,
                    gs,
                )
                &&& k@ == projected(w.k, x, zero_seq(d.kv_dim()), d.kv_dim(), hd, gs)
                &&& v@ == projected(w.v, x, zero_seq(d.kv_dim()), d.kv_dim(), hd, gs)
                &&& q_proj@.len() == 2 * d.q_dim()
                &&& k@.len() == d.kv_dim()
                &&& v@.len() == d.kv_dim()
            }
        }),
{
    proof {
        lemma_attention_sizes(*d);
    }
    let hd: usize = d.hidden_dim;
    let gs: usize = d.group_size;
    let mut normed: Vec<S> = zero_vec(hd);
    step_input_norm(hidden, input_norm, normed.as_mut_slice(), hd, &norm_epsilon());
    if support.has_context && support.has_weights {
        let commands = qkv_program(d, layer, b.x, b.q, b.k, b.v);
        AttnStart::Project { normed, commands }
    } else {
        let kv_dim: usize = d.num_kv_heads * d.head_dim;
        let q_proj_dim: usize = d.num_heads * (2 * d.head_dim);
        let mut q_proj: Vec<S> = zero_vec(q_proj_dim);
        let mut k: Vec<S> = zero_vec(kv_dim);
        let mut v: Vec<S> = zero_vec(kv_dim);
        dequant_proj(w.q, normed.as_slice(), q_proj.as_mut_slice(), q_proj_dim, hd, gs);
        dequant_proj(w.k, normed.as_slice(), k.as_mut_slice(), kv_dim, hd, gs);
        dequant_proj(w.v, normed.as_slice(), v.as_mut_slice(), kv_dim, hd, gs);
        AttnStart::Projected { q_proj, k, v }
    }
}

/// Sum of the hidden state and a projection.
pub open spec fn with_residual<S: Scalar>(d: LayerDims, hidden: Seq<S>, o_out: Seq<S>) -> Seq<S> {
    overwrite(hidden, 0, added(hidden, o_out, d.hidden_dim as int))
}

/// Go on behind the projections: prepare the heads, append keys and values to the cache, and
/// attend, or leave attention to the routing step if the device can do it.
pub fn attend_projected<S: Scalar, B: Copy>(
    support: &AttnSupport,
    d: &LayerDims,
    w: &AttnWeights,
    pairs: RopePairs,
    layer: usize,
    q_proj: &[S],
    k: Vec<S>,
    v: Vec<S>,
    hidden: &mut [S],
    kv: &mut FullState<S>,
    cos: &[S],
    sin: &[S],
    bufs: &AttnBuffers<B>,
    back_in: B,
    back_out: B,
) -> (r: AttnNext<S, B>)
    requires
        d.attention_valid(),
        w.fits(*d, d.hidden_dim as int, d.q_dim()),
        q_proj@.len() == 2 * d.q_dim(),
        k@.len() == d.kv_dim(),
        v@.len() == d.kv_dim(),
        old(hidden)@.len() == d.hidden_dim,
        cache_ready(*d, *old(kv)),
        rope_ready(*d, pairs, cos@.len() as int, sin@.len() as int),
        cmd2_fits(*d, old(kv).len + 1),
    ensures
        ({
            let p = prepared(
                *d,
                *w,
                NormOrder::ScaleFirst,
                pairs,
                q_proj@,
                k@,
                v@,
                old(kv).k_cache@,
                old(kv).v_cache@,
                old(kv).len as int,
                cos@,
                sin@,
            );
            let out = attention_output(
                *d,
                GateForm::Times,
                p.q,
                p.q_gate,
                p.k_cache,
                p.v_cache,
                p.len,
            );
            let hd = d.hidden_dim as int;
            &&& final(kv).k_cache@ == p.k_cache
            &&& final(kv).v_cache@ == p.v_cache
            &&& final(kv).len == p.len
            &&& if support.gpu(p.len) {
                &&& r matches AttnNext::Deferred { state, q, q_gate }
                &&& state.describes::<S>(*d, layer, p.len)
                &&& state.uses(*bufs)
                &&& q@ == p.q
                &&& q_gate@ == p.q_gate
                &&& final(hidden)@ == old(hidden)@
            } else if support.mode != PipelineMode::CpuOnly && support.has_context
                && support.has_weights {
                &&& r matches AttnNext::ProjectBack { attn, commands }
                &&& attn@ == out
                &&& commands@ == after_finish(
                    after_project(
                        after_open(Seq::empty()),
                        Tensor::OProj(layer),
                        back_in,
                        back_out,
                        d.hidden_dim,
                        d.q_dim() as usize,
                    ),
                )
                &&& final(hidden)@ == old(hidden)@
            } else {
                &&& r is Done
                &&& final(hidden)@ == with_residual(
                    *d,
                    old(hidden)@,
                    projected(w.o, out, zero_seq(hd), hd, d.q_dim(), d.group_size as int),
                )
            }
        }),
{
    proof {
        lemma_attention_sizes(*d);
    }
    let hd: usize = d.hidden_dim;
    let q_dim: usize = d.num_heads * d.head_dim;
    let inputs: AttnInputs<S> = prepare_attention(
        d,
        w,
        NormOrder::ScaleFirst,
        pairs,
        q_proj,
        k,
        v,
        kv,
        cos,
        sin,
    );
    if support.use_gpu_attn(kv.len) {
        let state = defer_attention::<S, B>(d, layer, kv.len, bufs);
        return AttnNext::Deferred { state, q: inputs.q, q_gate: inputs.q_gate };
    }
    let attn: Vec<S> = attend_and_gate(
        d,
        GateForm::Times,
        inputs.q.as_slice(),
        inputs.q_gate.as_slice(),
        kv,
    );
    if support.mode != PipelineMode::CpuOnly && support.has_context && support.has_weights {
        let commands = project_program(Tensor::OProj(layer), back_in, back_out, hd, q_dim);
        AttnNext::ProjectBack { attn, commands }
    } else {
        let mut o_out: Vec<S> = zero_vec(hd);
        dequant_proj(w.o, attn.as_slice(), o_out.as_mut_slice(), hd, q_dim, d.group_size);
        finish_full_attention(d, o_out.as_slice(), hidden);
        AttnNext::Done
    }
}

/// Add the projection that was read to the hidden state.
pub fn finish_full_attention<S: Scalar>(d: &LayerDims, o_out: &[S], hidden: &mut [S])
    requires
        o_out@.len() == d.hidden_dim,
        old(hidden)@.len() == d.hidden_dim,
    ensures
        final(hidden)@ == with_residual(*d, old(hidden)@, o_out@),
{
    let residual: Vec<S> = copy_of(hidden);
    residual_add(residual.as_slice(), o_out, hidden, d.hidden_dim);
}

/// A device that projects as the CPU does changes nothing: the layer ends as on the CPU.
pub proof fn law_mixed_attention_agrees<S: Scalar>(
    d: LayerDims,
    w: AttnWeights,
    pairs: RopePairs,
    input_norm: Option<&[u16]>,
    hidden: Seq<S>,
    k_cache: Seq<S>,
    v_cache: Seq<S>,
    len: int,
    cos: Seq<S>,
    sin: Seq<S>,
)
    ensures
        ({
            let x = layer_normed(d, input_norm, hidden);
            let hd = d.hidden_dim as int;
            let gs = d.group_size as int;
            let q_proj = projected(w.q, x, zero_seq(2 * d.q_dim()), 2 * d.q_dim(), hd, gs);
            let k = projected(w.k, x, zero_seq(d.kv_dim()), d.kv_dim(), hd, gs);
            let v = projected(w.v, x, zero_seq(d.kv_dim()), d.kv_dim(), hd, gs);
            let order = NormOrder::ScaleFirst;
            let p = prepared(d, w, order, pairs, q_proj, k, v, k_cache, v_cache, len, cos, sin);
            let form = GateForm::Times;
            let out = attention_output(d, form, p.q, p.q_gate, p.k_cache, p.v_cache, p.len);
            let o_out = projected(w.o, out, zero_seq(hd), hd, d.q_dim(), gs);
            let done = full_attended(
                d,
                w,
                order,
                pairs,
                form,
                x,
                hidden,
                hidden,
                k_cache,
                v_cache,
                len,
                cos,
                sin,
            );
            &&& with_residual(d, hidden, o_out) == done.hidden
            &&& p.k_cache == done.k_cache
            &&& p.v_cache == done.v_cache
            &&& p.len == done.len
        }),
{
}

} // verus!
