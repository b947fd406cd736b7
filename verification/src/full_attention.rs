//! Full attention of one token: what follows the projections, on the CPU or handed to the
//! device.

use vstd::prelude::*;

use crate::attention_math::{
    attend, attended, attention_scale, covers_heads, kv_cache_append, maybe_normed_heads,
    rms_norm_heads, score_scale, split_heads, split_q_gate, NormOrder,
};
use crate::cache::FullState;
use crate::command::{Command, Tensor};
use crate::constants::MAX_SEQ;
use crate::cpu_forward::{input_normed, lemma_attention_sizes, step_input_norm};
use crate::deferred::PipelineMode;
use crate::kernels::{after_finish, after_open, after_project, encode_project, finish, open_encoder};
use crate::math_util::{
    added, copy_of, norm_eps, norm_epsilon, residual_add, sigmoid_gate_inplace, sigmoid_gated,
    zero_seq,
};
use crate::quant::overwrite;
use crate::rope::{apply_rope, apply_rotary_emb, pair_count, roped, twisted};
use crate::scalar::{one, one_of, zero_vec, Scalar};
use crate::stored::lemma_plain_numbers;
use crate::weights::{dequant_proj, projected, AttnWeights, LayerDims};

verus! {

/// Which numbers of a head are turned together.
#[derive(Clone, Copy, Debug, PartialEq, Eq, Structural)]
pub enum RopePairs {
    /// Numbers half the rotary dimension apart.
    Halves,
    /// Neighbours.
    Neighbours,
}

impl RopePairs {
    /// The number of pairs.
    pub open spec fn count(self, rotary_dim: int) -> int {
        match self {
            RopePairs::Halves => rotary_dim / 2,
            RopePairs::Neighbours => pair_count(rotary_dim),
        }
    }

    /// Heads after their pairs are turned.
    pub open spec fn turned<S: Scalar>(
        self,
        x: Seq<S>,
        heads: int,
        head_dim: int,
        rotary_dim: int,
        cos: Seq<S>,
        sin: Seq<S>,
    ) -> Seq<S> {
        match self {
            RopePairs::Halves => roped(x, heads, head_dim, rotary_dim / 2, cos, sin),
            RopePairs::Neighbours => twisted(
                x,
                heads,
                head_dim,
                pair_count(rotary_dim),
                cos,
                sin,
            ),
        }
    }
}

/// The form in which sigmoid gating of the attention output is computed.
#[derive(Clone, Copy, Debug, PartialEq, Eq, Structural)]
pub enum GateForm {
    /// Times the logistic function.
    Times,
    /// Over one plus the exponential of the negated gate.
    Over,
}

impl GateForm {
    /// The gated output.
    pub open spec fn gated<S: Scalar>(self, x: Seq<S>, gate: Seq<S>, n: int) -> Seq<S> {
        match self {
            GateForm::Times => sigmoid_gated(x, gate, n),
            GateForm::Over => Seq::new(
                n as nat,
                |i: int| x[i].s_over(one::<S>().s_plus(gate[i].s_neg().s_exp())),
            ),
        }
    }
}

/// Queries, gates, keys and values of a token, ready for attention.
pub struct AttnInputs<S> {
    pub q: Vec<S>,
    pub q_gate: Vec<S>,
    pub k: Vec<S>,
    pub v: Vec<S>,
}

/// What the preparation leaves.
pub struct Prepared<S> {
    pub q: Seq<S>,
    pub q_gate: Seq<S>,
    pub k: Seq<S>,
    pub k_cache: Seq<S>,
    pub v_cache: Seq<S>,
    pub len: int,
}

/// Split, norm and turn the heads, and append keys and values to the cache.
pub open spec fn prepared<S: Scalar>(
    d: LayerDims,
    w: AttnWeights,
    order: NormOrder,
    pairs: RopePairs,
    q_proj: Seq<S>,
    k: Seq<S>,
    v: Seq<S>,
    k_cache: Seq<S>,
    v_cache: Seq<S>,
    len: int,
    cos: Seq<S>,
    sin: Seq<S>,
) -> Prepared<S> {
    let heads = d.num_heads as int;
    let kv_heads = d.num_kv_heads as int;
    let head_dim = d.head_dim as int;
    let rot = d.rotary_dim as int;
    let q0 = split_heads(zero_seq(d.q_dim()), q_proj, heads, head_dim, 0);
    let q_gate = split_heads(zero_seq(d.q_dim()), q_proj, heads, head_dim, head_dim);
    let q1 = maybe_normed_heads(order, q0, heads, d.head_dim, w.q_norm, norm_eps());
    let k1 = maybe_normed_heads(order, k, kv_heads, d.head_dim, w.k_norm, norm_eps());
    let q2 = pairs.turned(q1, heads, head_dim, rot, cos, sin);
    let k2 = pairs.turned(k1, kv_heads, head_dim, rot, cos, sin);
    Prepared {
        q: q2,
        q_gate,
        k: k2,
        k_cache: overwrite(k_cache, len * d.kv_dim(), k2.take(d.kv_dim())),
        v_cache: overwrite(v_cache, len * d.kv_dim(), v.take(d.kv_dim())),
        len: len + 1,
    }
}

/// Keys and values of the given sizes have room for the position behind `len`, and all heads
/// up to there can be read.
pub open spec fn kv_room(d: LayerDims, k_len: int, v_len: int, len: int) -> bool {
    &&& len < usize::MAX
    &&& len * d.kv_dim() + d.kv_dim() <= k_len
    &&& len * d.kv_dim() + d.kv_dim() <= v_len
    &&& covers_heads(
        k_len,
        d.num_heads as int,
        d.heads_per_kv(),
        d.head_dim as int,
        d.kv_dim(),
        len + 1,
    )
    &&& covers_heads(
        v_len,
        d.num_heads as int,
        d.heads_per_kv(),
        d.head_dim as int,
        d.kv_dim(),
        len + 1,
    )
}

/// A cache has room for another position, and all its heads can be read.
pub open spec fn cache_ready<S>(d: LayerDims, kv: FullState<S>) -> bool {
    kv_room(d, kv.k_cache@.len() as int, kv.v_cache@.len() as int, kv.len as int)
}

/// The rotation tables and heads fit the rotary dimension.
pub open spec fn rope_ready(d: LayerDims, pairs: RopePairs, cos_len: int, sin_len: int) -> bool {
    let n = pairs.count(d.rotary_dim as int);
    &&& n <= cos_len
    &&& n <= sin_len
    &&& (d.num_heads - 1) * d.head_dim + 2 * n <= d.q_dim()
    &&& (d.num_kv_heads - 1) * d.head_dim + 2 * n <= d.kv_dim()
}

/// Split, norm and turn the heads of a token, and append its keys and values to the cache.
pub fn prepare_attention<S: Scalar>(
    d: &LayerDims,
    w: &AttnWeights,
    order: NormOrder,
    pairs: RopePairs,
    q_proj: &[S],
    k: Vec<S>,
    v: Vec<S>,
    kv: &mut FullState<S>,
    cos: &[S],
    sin: &[S],
) -> (r: AttnInputs<S>)
    requires
        d.attention_valid(),
        q_proj@.len() == 2 * d.q_dim(),
        k@.len() == d.kv_dim(),
        v@.len() == d.kv_dim(),
        cache_ready(*d, *old(kv)),
        rope_ready(*d, pairs, cos@.len() as int, sin@.len() as int),
    ensures
        ({
            let p = prepared(
                *d,
                *w,
                order,
                pairs,
                q_proj@,
                k@,
                v@,
                old(kv).k_cache@,
                old(kv).v_cache@,
                old(kv).len as int,
                cos@,
                sin@,
            );
            &&& r.q@ == p.q
            &&& r.q_gate@ == p.q_gate
            &&& r.k@ == p.k
            &&& r.v@ == v@
            &&& final(kv).k_cache@ == p.k_cache
            &&& final(kv).v_cache@ == p.v_cache
            &&& final(kv).len == p.len
        }),
        r.q@.len() == d.q_dim(),
        r.q_gate@.len() == d.q_dim(),
        r.k@.len() == d.kv_dim(),
{
    proof {
        lemma_attention_sizes(*d);
    }
    let q_dim: usize = d.num_heads * d.head_dim;
    let kv_dim: usize = d.num_kv_heads * d.head_dim;
    let mut k = k;
    let mut q: Vec<S> = zero_vec(q_dim);
    let mut q_gate: Vec<S> = zero_vec(q_dim);
    split_q_gate(q_proj, q.as_mut_slice(), q_gate.as_mut_slice(), d.num_heads, d.head_dim);
    let eps: S = norm_epsilon();
    rms_norm_heads(order, q.as_mut_slice(), d.num_heads, d.head_dim, w.q_norm, &eps);
    rms_norm_heads(order, k.as_mut_slice(), d.num_kv_heads, d.head_dim, w.k_norm, &eps);
    match pairs {
        RopePairs::Halves => {
            apply_rope(
                q.as_mut_slice(),
                k.as_mut_slice(),
                cos,
                sin,
                d.num_heads,
                d.num_kv_heads,
                d.head_dim,
                d.rotary_dim,
            );
        },
        RopePairs::Neighbours => {
            apply_rotary_emb(
                q.as_mut_slice(),
                k.as_mut_slice(),
                cos,
                sin,
                d.num_heads,
                d.num_kv_heads,
                d.head_dim,
                d.rotary_dim,
            );
        },
    }
    let at: usize = kv.len;
    kv_cache_append(
        k.as_slice(),
        v.as_slice(),
        kv.k_cache.as_mut_slice(),
        kv.v_cache.as_mut_slice(),
        at,
        kv_dim,
    );
    kv.len = at + 1;
    AttnInputs { q, q_gate, k, v }
}

/// The gated attention output of a token.
pub open spec fn attention_output<S: Scalar>(
    d: LayerDims,
    form: GateForm,
    q: Seq<S>,
    q_gate: Seq<S>,
    k_cache: Seq<S>,
    v_cache: Seq<S>,
    len: int,
) -> Seq<S> {
    let attn = attended(
        zero_seq(d.q_dim()),
        q,
        k_cache,
        v_cache,
        d.num_heads as int,
        d.heads_per_kv(),
        d.head_dim,
        d.kv_dim(),
        len,
    );
    overwrite(attn, 0, form.gated(attn, q_gate, d.q_dim()))
}

/// Divide numbers by one plus the exponential of their negated gates.
fn gate_by_division<S: Scalar>(x: &mut [S], gate: &[S], n: usize)
    requires
        n <= old(x)@.len(),
        n <= gate@.len(),
    ensures
        final(x)@ == overwrite(old(x)@, 0, GateForm::Over.gated(old(x)@, gate@, n as int)),
{
    for i in 0..n
        invariant
            n <= x@.len(),
            n <= gate@.len(),
            x@.len() == old(x)@.len(),
            forall|j: int|
                0 <= j < i ==> x@[j] == old(x)@[j].s_over(
                    one::<S>().s_plus(gate@[j].s_neg().s_exp()),
                ),
            forall|j: int| i <= j < x@.len() ==> x@[j] == old(x)@[j],
    {
        x[i] = x[i].over(&one_of::<S>().plus(&gate[i].negated().exponential()));
    }
    assert(x@ =~= overwrite(old(x)@, 0, GateForm::Over.gated(old(x)@, gate@, n as int)));
}

/// Attend over the cache and gate the output.
pub fn attend_and_gate<S: Scalar>(
    d: &LayerDims,
    form: GateForm,
    q: &[S],
    q_gate: &[S],
    kv: &FullState<S>,
) -> (r: Vec<S>)
    requires
        d.attention_valid(),
        q@.len() == d.q_dim(),
        q_gate@.len() == d.q_dim(),
        covers_heads(
            kv.k_cache@.len() as int,
            d.num_heads as int,
            d.heads_per_kv(),
            d.head_dim as int,
            d.kv_dim(),
            kv.len as int,
        ),
        covers_heads(
            kv.v_cache@.len() as int,
            d.num_heads as int,
            d.heads_per_kv(),
            d.head_dim as int,
            d.kv_dim(),
            kv.len as int,
        ),
    ensures
        r@ == attention_output(
            *d,
            form,
            q@,
            q_gate@,
            kv.k_cache@,
            kv.v_cache@,
            kv.len as int,
        ),
        r@.len() == d.q_dim(),
{
    proof {
        lemma_attention_sizes(*d);
        lemma_plain_numbers(kv.k_cache@);
        lemma_plain_numbers(kv.v_cache@);
    }
    let q_dim: usize = d.num_heads * d.head_dim;
    let mut out: Vec<S> = zero_vec(q_dim);
    attend(
        q,
        kv.k_cache.as_slice(),
        kv.v_cache.as_slice(),
        out.as_mut_slice(),
        d.num_heads,
        d.num_heads / d.num_kv_heads,
        d.head_dim,
        d.num_kv_heads * d.head_dim,
        kv.len,
    );
    match form {
        GateForm::Times => sigmoid_gate_inplace(out.as_mut_slice(), q_gate, q_dim),
        GateForm::Over => gate_by_division(out.as_mut_slice(), q_gate, q_dim),
    }
    out
}

/// What a token's full attention leaves.
pub struct AttentionDone<S> {
    pub hidden: Seq<S>,
    pub k_cache: Seq<S>,
    pub v_cache: Seq<S>,
    pub len: int,
}

/// Full attention of one token on the CPU: project, prepare, attend, gate, project back, and
/// add to the residual.
pub open spec fn full_attended<S: Scalar>(
    d: LayerDims,
    w: AttnWeights,
    order: NormOrder,
    pairs: RopePairs,
    form: GateForm,
    normed: Seq<S>,
    residual: Seq<S>,
    hidden: Seq<S>,
    k_cache: Seq<S>,
    v_cache: Seq<S>,
    len: int,
    cos: Seq<S>,
    sin: Seq<S>,
) -> AttentionDone<S> {
    let hd = d.hidden_dim as int;
    let gs = d.group_size as int;
    let q_proj = projected(w.q, normed, zero_seq(2 * d.q_dim()), 2 * d.q_dim(), hd, gs);
    let k = projected(w.k, normed, zero_seq(d.kv_dim()), d.kv_dim(), hd, gs);
    let v = projected(w.v, normed, zero_seq(d.kv_dim()), d.kv_dim(), hd, gs);
    let p = prepared(d, w, order, pairs, q_proj, k, v, k_cache, v_cache, len, cos, sin);
    let attn = attention_output(d, form, p.q, p.q_gate, p.k_cache, p.v_cache, p.len);
    let o_out = projected(w.o, attn, zero_seq(hd), hd, d.q_dim(), gs);
    AttentionDone {
        hidden: overwrite(hidden, 0, added(residual, o_out, hd)),
        k_cache: p.k_cache,
        v_cache: p.v_cache,
        len: p.len,
    }
}

/// Full attention of one token on the CPU.
pub fn full_attention_cpu<S: Scalar>(
    d: &LayerDims,
    w: &AttnWeights,
    order: NormOrder,
    pairs: RopePairs,
    form: GateForm,
    normed: &[S],
    residual: &[S],
    hidden: &mut [S],
    kv: &mut FullState<S>,
    cos: &[S],
    sin: &[S],
)
    requires
        d.attention_valid(),
        w.fits(*d, normed@.len() as int, d.q_dim()),
        residual@.len() == d.hidden_dim,
        old(hidden)@.len() == d.hidden_dim,
        cache_ready(*d, *old(kv)),
        rope_ready(*d, pairs, cos@.len() as int, sin@.len() as int),
    ensures
        ({
            let r = full_attended(
                *d,
                *w,
                order,
                pairs,
                form,
                normed@,
                residual@,
                old(hidden)@,
                old(kv).k_cache@,
                old(kv).v_cache@,
                old(kv).len as int,
                cos@,
                sin@,
            );
            &&& final(hidden)@ == r.hidden
            &&& final(kv).k_cache@ == r.k_cache
            &&& final(kv).v_cache@ == r.v_cache
            &&& final(kv).len == r.len
        }),
{
    proof {
        lemma_attention_sizes(*d);
    }
    let hd: usize = d.hidden_dim;
    let gs: usize = d.group_size;
    let q_dim: usize = d.num_heads * d.head_dim;
    let kv_dim: usize = d.num_kv_heads * d.head_dim;
    let q_proj_dim: usize = d.num_heads * (2 * d.head_dim);
    let mut q_proj: Vec<S> = zero_vec(q_proj_dim);
    let mut k: Vec<S> = zero_vec(kv_dim);
    let mut v: Vec<S> = zero_vec(kv_dim);
    dequant_proj(w.q, normed, q_proj.as_mut_slice(), q_proj_dim, hd, gs);
    dequant_proj(w.k, normed, k.as_mut_slice(), kv_dim, hd, gs);
    dequant_proj(w.v, normed, v.as_mut_slice(), kv_dim, hd, gs);
    let inputs: AttnInputs<S> = prepare_attention(
        d,
        w,
        order,
        pairs,
        q_proj.as_slice(),
        k,
        v,
        kv,
        cos,
        sin,
    );
    let attn: Vec<S> = attend_and_gate(d, form, inputs.q.as_slice(), inputs.q_gate.as_slice(), kv);
    let mut o_out: Vec<S> = zero_vec(hd);
    dequant_proj(w.o, attn.as_slice(), o_out.as_mut_slice(), hd, q_dim, gs);
    residual_add(residual, o_out.as_slice(), hidden, hd);
}

/// Full attention with its input norm, without a device: the residual is the hidden state.
pub fn full_attention_forward<S: Scalar>(
    d: &LayerDims,
    w: &AttnWeights,
    input_norm: Option<&[u16]>,
    pairs: RopePairs,
    hidden: &mut [S],
    kv: &mut FullState<S>,
    cos: &[S],
    sin: &[S],
)
    requires
        d.attention_valid(),
        w.fits(*d, d.hidden_dim as int, d.q_dim()),
        input_norm matches Some(n) ==> d.hidden_dim <= n@.len(),
        old(hidden)@.len() == d.hidden_dim,
        cache_ready(*d, *old(kv)),
        rope_ready(*d, pairs, cos@.len() as int, sin@.len() as int),
    ensures
        ({
            let r = full_attended(
                *d,
                *w,
                NormOrder::ScaleFirst,
                pairs,
                GateForm::Times,
                input_normed(
                    old(hidden)@,
                    input_norm,
                    zero_seq(d.hidden_dim as int),
                    d.hidden_dim,
                    norm_eps(),
                ),
                old(hidden)@,
                old(hidden)@,
                old(kv).k_cache@,
                old(kv).v_cache@,
                old(kv).len as int,
                cos@,
                sin@,
            );
            &&& final(hidden)@ == r.hidden
            &&& final(kv).k_cache@ == r.k_cache
            &&& final(kv).v_cache@ == r.v_cache
            &&& final(kv).len == r.len
        }),
{
    let mut normed: Vec<S> = zero_vec(d.hidden_dim);
    step_input_norm(hidden, input_norm, normed.as_mut_slice(), d.hidden_dim, &norm_epsilon());
    let residual: Vec<S> = copy_of(hidden);
    full_attention_cpu(
        d,
        w,
        NormOrder::ScaleFirst,
        pairs,
        GateForm::Times,
        normed.as_slice(),
        residual.as_slice(),
        hidden,
        kv,
        cos,
        sin,
    );
}

/// What decides whether attention runs on the device.
#[derive(Clone, Copy, Debug, PartialEq, Eq, Structural)]
pub struct AttnSupport {
    pub mode: PipelineMode,
    /// A device context and weights on the device.
    pub has_context: bool,
    pub has_weights: bool,
    /// The three kernels of batched attention.
    pub scores_kernel: bool,
    pub softmax_kernel: bool,
    pub values_kernel: bool,
    /// The shortest sequence that is worth the dispatch.
    pub min_seq_len: usize,
}

impl AttnSupport {
    /// Attention over `seq_len` positions runs on the device.
    pub open spec fn gpu(self, seq_len: int) -> bool {
        &&& self.mode != PipelineMode::CpuOnly
        &&& self.has_context
        &&& self.has_weights
        &&& self.scores_kernel
        &&& self.softmax_kernel
        &&& self.values_kernel
        &&& self.min_seq_len <= seq_len
    }

    /// Whether attention over `seq_len` positions runs on the device.
    pub fn use_gpu_attn(&self, seq_len: usize) -> (r: bool)
        ensures
            r == self.gpu(seq_len as int),
    {
        self.mode != PipelineMode::CpuOnly && self.has_context && self.has_weights
            && self.scores_kernel && self.softmax_kernel && self.values_kernel && self.min_seq_len
            <= seq_len
    }
}

/// Attention that was left to the command buffer of the routing step.
#[derive(Clone, Copy, Debug)]
pub struct FullAttnCmd2State<B> {
    pub q_buf: B,
    pub q_gate_buf: B,
    pub kc_buf: B,
    pub vc_buf: B,
    pub scores_buf: B,
    pub out_buf: B,
    pub hidden_buf: B,
    pub seq_len: u32,
    pub seq_stride: u32,
    pub num_attn_heads: u32,
    pub head_dim: u32,
    pub kv_dim: u32,
    pub heads_per_kv: u32,
    /// Bit pattern of the score factor.
    pub scale: u32,
    pub q_dim: u32,
    pub o_proj: Tensor,
}

/// The numbers of deferred attention fit into 32 bits.
pub open spec fn cmd2_fits(d: LayerDims, seq_len: int) -> bool {
    &&& seq_len <= u32::MAX
    &&& d.num_heads <= u32::MAX
    &&& d.head_dim <= u32::MAX
    &&& d.kv_dim() <= u32::MAX
    &&& d.q_dim() <= u32::MAX
}

impl<B> FullAttnCmd2State<B> {
    /// The state describes attention of a layer over `seq_len` positions.
    pub open spec fn describes<S: Scalar>(self, d: LayerDims, layer: usize, seq_len: int) -> bool {
        &&& self.seq_len == seq_len
        &&& self.seq_stride == MAX_SEQ
        &&& self.num_attn_heads == d.num_heads
        &&& self.head_dim == d.head_dim
        &&& self.kv_dim == d.kv_dim()
        &&& self.heads_per_kv == d.heads_per_kv()
        &&& self.scale == score_scale::<S>(d.head_dim).s_bits()
        &&& self.q_dim == d.q_dim()
        &&& self.o_proj == Tensor::OProj(layer)
    }

    /// The state names these buffers.
    pub open spec fn uses(self, b: AttnBuffers<B>) -> bool {
        &&& self.q_buf == b.q
        &&& self.q_gate_buf == b.q_gate
        &&& self.kc_buf == b.k_cache
        &&& self.vc_buf == b.v_cache
        &&& self.scores_buf == b.scores
        &&& self.out_buf == b.out
        &&& self.hidden_buf == b.hidden
    }
}

/// The buffers that deferred attention uses.
#[derive(Clone, Copy, Debug)]
pub struct AttnBuffers<B> {
    pub q: B,
    pub q_gate: B,
    pub k_cache: B,
    pub v_cache: B,
    pub scores: B,
    pub out: B,
    pub hidden: B,
}

/// Describe attention that is left to the device.
pub fn defer_attention<S: Scalar, B: Copy>(
    d: &LayerDims,
    layer: usize,
    seq_len: usize,
    bufs: &AttnBuffers<B>,
) -> (r: FullAttnCmd2State<B>)
    requires
        d.attention_valid(),
        cmd2_fits(*d, seq_len as int),
    ensures
        r.describes::<S>(*d, layer, seq_len as int),
        r.uses(*bufs),
{
    proof {
        lemma_attention_sizes(*d);
        vstd::arithmetic::div_mod::lemma_div_is_ordered_by_denominator(
            d.num_heads as int,
            1,
            d.num_kv_heads as int,
        );
        vstd::arithmetic::div_mod::lemma_div_basics(d.num_heads as int);
    }
    let scale: S = attention_scale(d.head_dim);
    FullAttnCmd2State {
        q_buf: bufs.q,
        q_gate_buf: bufs.q_gate,
        kc_buf: bufs.k_cache,
        vc_buf: bufs.v_cache,
        scores_buf: bufs.scores,
        out_buf: bufs.out,
        hidden_buf: bufs.hidden,
        seq_len: seq_len as u32,
        seq_stride: MAX_SEQ as u32,
        num_attn_heads: d.num_heads as u32,
        head_dim: d.head_dim as u32,
        kv_dim: (d.num_kv_heads * d.head_dim) as u32,
        heads_per_kv: (d.num_heads / d.num_kv_heads) as u32,
        scale: scale.bits(),
        q_dim: (d.num_heads * d.head_dim) as u32,
        o_proj: Tensor::OProj(layer),
    }
}

/// The recording of the three projections of a token.
pub open spec fn after_qkv<B>(
    s: Seq<Command<B>>,
    d: LayerDims,
    layer: usize,
    x: B,
    q: B,
    k: B,
    v: B,
) -> Seq<Command<B>> {
    let hd = d.hidden_dim;
    let s = after_open(s);
    let s = after_project(s, Tensor::QProj(layer), x, q, (2 * d.q_dim()) as usize, hd);
    let s = after_project(s, Tensor::KProj(layer), x, k, d.kv_dim() as usize, hd);
    let s = after_project(s, Tensor::VProj(layer), x, v, d.kv_dim() as usize, hd);
    after_finish(s)
}

/// The three projections of a token as a command list of their own.
pub fn qkv_program<B: Copy>(d: &LayerDims, layer: usize, x: B, q: B, k: B, v: B) -> (r: Vec<
    Command<B>,
>)
    requires
        d.attention_valid(),
    ensures
        r@ == after_qkv(Seq::empty(), *d, layer, x, q, k, v),
{
    proof {
        lemma_attention_sizes(*d);
    }
    let hd: usize = d.hidden_dim;
    let kv_dim: usize = d.num_kv_heads * d.head_dim;
    let q_proj_dim: usize = d.num_heads * (2 * d.head_dim);
    let mut enc: Vec<Command<B>> = Vec::new();
    open_encoder(&mut enc);
    encode_project(&mut enc, Tensor::QProj(layer), x, q, q_proj_dim, hd);
    encode_project(&mut enc, Tensor::KProj(layer), x, k, kv_dim, hd);
    encode_project(&mut enc, Tensor::VProj(layer), x, v, kv_dim, hd);
    finish(&mut enc);
    enc
}

/// One projection as a command list of its own.
pub fn project_program<B>(
    tensor: Tensor,
    x: B,
    out: B,
    out_dim: usize,
    in_dim: usize,
) -> (r: Vec<Command<B>>)
    ensures
        r@ == after_finish(
            after_project(
                after_open(Seq::empty()),
                tensor,
                x,
                out,
                out_dim,
                in_dim,
            ),
        ),
{
    let mut enc: Vec<Command<B>> = Vec::new();
    open_encoder(&mut enc);
    encode_project(&mut enc, tensor, x, out, out_dim, in_dim);
    finish(&mut enc);
    enc
}

/// Attention runs on the device only where the mode wants it, context, weights and all three
/// kernels are there, and the sequence is not shorter than what is worth it; and then always.
pub proof fn law_attention_support(s: AttnSupport, seq_len: int)
    ensures
        s.gpu(seq_len) <==> !(s.mode == PipelineMode::CpuOnly || !s.has_context || !s.has_weights
            || !s.scores_kernel || !s.softmax_kernel || !s.values_kernel || seq_len
            < s.min_seq_len),
{
}

/// The two forms of an output gate, number by number: a number times the logistic function of
/// its gate, or over one plus the exponential of the negated gate.
pub proof fn law_output_gate<S: Scalar>(x: Seq<S>, gate: Seq<S>, n: int, i: int)
    requires
        0 <= i < n,
    ensures
        ({
            let d = one::<S>().s_plus(gate[i].s_neg().s_exp());
            &&& GateForm::Times.gated(x, gate, n)[i] == x[i].s_times(one::<S>().s_over(d))
            &&& GateForm::Over.gated(x, gate, n)[i] == x[i].s_over(d)
        }),
{
}

/// What deferred attention hands to the device: all query heads of the layer's sizes, each group
/// of `num_heads / num_kv_heads` of them on one key head, scores scaled by the reciprocal root
/// of the head's size, and the layer's own output projection.
pub proof fn law_deferred_attention<S: Scalar, B>(
    a: FullAttnCmd2State<B>,
    d: LayerDims,
    layer: usize,
    seq_len: int,
)
    requires
        a.describes::<S>(d, layer, seq_len),
    ensures
        a.seq_len == seq_len,
        a.num_attn_heads == d.num_heads,
        a.head_dim == d.head_dim,
        a.q_dim == d.num_heads * d.head_dim,
        a.kv_dim == d.num_kv_heads * d.head_dim,
        a.heads_per_kv == d.num_heads as int / d.num_kv_heads as int,
        a.scale == one::<S>().s_over(S::s_of_usize(d.head_dim).s_sqrt()).s_bits(),
        a.o_proj == Tensor::OProj(layer),
{
}

} // verus!
