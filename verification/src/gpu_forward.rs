//! Layers on the device: which path a layer takes, and what is recorded for it.

use vstd::prelude::*;

use crate::cache::zeros;
use crate::command::{Command, Tensor};
use crate::constants::{ExpertLayout, MAX_K};
use crate::cpu_forward::{shared_activation, shared_gate, shared_score};
use crate::cpu_layer::{blob_views, experts_summed};
use crate::deferred::DeviceUse;
use crate::engine::cpu::{
    layer_norm, moe_combined, moe_experts, moe_finish, moe_output, moe_scores, MoeFront,
};
use crate::expert_cache::{valid_key, ExpertLRUCache};
use crate::expert_fetch::{after_fetch, cells_of, fetch_experts, fetched_data, missing};
use crate::expert_math::ExpertParts;
use crate::full_attention::{project_program, FullAttnCmd2State};
use crate::kernels::{after_close, after_commit, after_finish, after_open, after_project};
use crate::linear_forward::layer_normed;
use crate::math_util::{
    activate_expert, bf16_values, expert_activation, normalized, softmax_of, zero_seq,
};
use crate::moe_program::{
    after_post_expert, after_router, attn_args_fit, combine_params, combine_params_spec,
    expert_program, full_router_commands, full_router_program, fuse_next_norm, kept_alive,
    kept_alive_spec, linear_router_commands, linear_router_program, moe_args_fit, router_program,
    BufferOwner, ExpertBuffers, RouterBuffers, RouterPath, RouterSupport, COMBINE_PARAMS,
};
use crate::quant::{bf16_scalar, overwrite};
use crate::routing::{best, bits_of, of_bits, route, Routing};
use crate::scalar::{zero_vec, Scalar};
use crate::topk::{law_topk_in_range, HeapView};
use crate::weights::{dequant_proj, projected, LayerDims, MoeWeights};

verus! {

/// Keys and values of a full-attention layer.
pub struct FullAttnCache<S> {
    pub k_cache: Vec<S>,
    pub v_cache: Vec<S>,
    /// Number of positions that are filled.
    pub len: usize,
}

impl<S: Scalar> FullAttnCache<S> {
    /// An empty cache with room for `max_seq` positions.
    pub fn new(max_seq: usize, kv_dim: usize) -> (r: Self)
        requires
            max_seq * kv_dim <= usize::MAX,
        ensures
            r.k_cache@ == zeros::<S>((max_seq * kv_dim) as nat),
            r.v_cache@ == zeros::<S>((max_seq * kv_dim) as nat),
            r.len == 0,
    {
        FullAttnCache {
            k_cache: zero_vec(max_seq * kv_dim),
            v_cache: zero_vec(max_seq * kv_dim),
            len: 0,
        }
    }

    /// Forget all positions; the numbers stay and are overwritten later.
    pub fn reset(&mut self)
        ensures
            final(self).len == 0,
            final(self).k_cache == old(self).k_cache,
            final(self).v_cache == old(self).v_cache,
    {
        self.len = 0;
    }
}

/// The weights of a norm as numbers; none if the weight file lacks them.
pub open spec fn norm_values<S: Scalar>(weight: Option<Seq<u16>>) -> Seq<S> {
    match weight {
        Some(w) => bf16_values(w),
        None => Seq::empty(),
    }
}

/// The weights of the norms as numbers, each converted when it is first asked for.
pub struct NormCache<S> {
    pub entries: Vec<Option<Vec<S>>>,
}

impl<S: Scalar> NormCache<S> {
    /// Every entry holds the numbers of its norm.
    pub open spec fn agrees(self, weights: Seq<Option<Seq<u16>>>) -> bool {
        &&& self.entries@.len() == weights.len()
        &&& forall|i: int|
            0 <= i < weights.len() ==> (#[trigger] self.entries@[i] matches Some(v) ==> v@
                == norm_values::<S>(weights[i]))
    }

    /// Nothing converted yet.
    pub fn new(n: usize) -> (r: Self)
        ensures
            r.entries@.len() == n,
            forall|weights: Seq<Option<Seq<u16>>>|
                weights.len() == n ==> #[trigger] r.agrees(weights),
    {
        let mut entries: Vec<Option<Vec<S>>> = Vec::new();
        for i in 0..n
            invariant
                entries@.len() == i,
                forall|j: int| 0 <= j < i ==> (#[trigger] entries@[j]) is None,
        {
            entries.push(None);
        }
        NormCache { entries }
    }

    /// The weights of a norm as numbers: those of an earlier call, or on the first call those
    /// of the given weights.
    pub fn get_norm_f32(&mut self, i: usize, weight: Option<&[u16]>) -> (r: &Vec<S>)
        requires
            i < old(self).entries@.len(),
        ensures
            r@ == (match old(self).entries@[i as int] {
                Some(v) => v@,
                None => norm_values::<S>(
                    match weight {
                        Some(w) => Some(w@),
                        None => None,
                    },
                ),
            }),
            final(self).entries@.len() == old(self).entries@.len(),
            final(self).entries@[i as int] == Some(*r),
            forall|j: int|
                0 <= j < old(self).entries@.len() && j != i ==> #[trigger] final(self).entries@[j]
                    == old(self).entries@[j],
    {
        if self.entries[i].is_none() {
            let mut v: Vec<S> = Vec::new();
            if let Some(w) = weight {
                for j in 0..w.len()
                    invariant
                        v@ == bf16_values::<S>(w@).take(j as int),
                {
                    v.push(bf16_scalar(w[j]));
                    assert(v@ =~= bf16_values::<S>(w@).take(j + 1));
                }
                assert(v@ =~= bf16_values::<S>(w@));
            }
            self.entries.set(i, Some(v));
        }
        match &self.entries[i] {
            Some(v) => v,
            None => {
                assert(false);
                vstd::pervasive::unreached()
            },
        }
    }
}

/// As long as a norm is always asked for with the same weights, its numbers are those of the
/// weights, also on later calls.
pub proof fn law_norm_cache<S: Scalar>(
    before: NormCache<S>,
    after: NormCache<S>,
    weights: Seq<Option<Seq<u16>>>,
    i: int,
    r: Vec<S>,
)
    requires
        before.agrees(weights),
        0 <= i < weights.len(),
        r@ == (match before.entries@[i] {
            Some(v) => v@,
            None => norm_values::<S>(weights[i]),
        }),
        after.entries@.len() == before.entries@.len(),
        after.entries@[i] == Some(r),
        forall|j: int|
            0 <= j < before.entries@.len() && j != i ==> #[trigger] after.entries@[j]
                == before.entries@[j],
    ensures
        r@ == norm_values::<S>(weights[i]),
        after.agrees(weights),
{
    assert forall|j: int| 0 <= j < weights.len() implies (#[trigger] after.entries@[j] matches Some(
        v,
    ) ==> v@ == norm_values::<S>(weights[j])) by {
        assert(before.entries@[j] matches Some(v) ==> v@ == norm_values::<S>(weights[j]));
    }
}

/// Linear attention that was left to the routing step.
#[derive(Clone, Copy, Debug)]
pub struct LinearDeferred<B> {
    /// The gated value heads.
    pub gated: B,
    /// The hidden state in front of attention.
    pub h_mid: B,
}

/// Products of the normed hidden state that routing goes on with.
pub struct RouterRead<S> {
    /// Router logits.
    pub scores: Vec<S>,
    pub shared_gate: Vec<S>,
    pub shared_up: Vec<S>,
    pub shared_score: S,
    /// The normed hidden state itself.
    pub h_post: Vec<S>,
}

impl<S: Scalar> RouterRead<S> {
    /// The vectors have the model's sizes.
    pub open spec fn sized(self, d: LayerDims) -> bool {
        &&& self.scores@.len() == d.num_experts
        &&& self.shared_gate@.len() == d.shared_inter
        &&& self.shared_up@.len() == d.shared_inter
        &&& self.h_post@.len() == d.hidden_dim
    }

    /// The products of a normed hidden state.
    pub open spec fn of(self, d: LayerDims, w: MoeWeights, h_post: Seq<S>) -> bool {
        let hd = d.hidden_dim as int;
        let gs = d.group_size as int;
        let si = d.shared_inter as int;
        let ne = d.num_experts as int;
        &&& self.scores@ == projected(w.gate, h_post, zero_seq(ne), ne, hd, gs)
        &&& self.shared_gate@ == projected(w.shared_gate, h_post, zero_seq(si), si, hd, gs)
        &&& self.shared_up@ == projected(w.shared_up, h_post, zero_seq(si), si, hd, gs)
        &&& self.shared_score == shared_score(d, w.shared_expert_gate, h_post)
        &&& self.h_post@ == h_post
    }
}

/// How routing starts.
pub enum RouterStart<S, B> {
    /// Run the commands and read the products; `mid` then holds the residual of the experts.
    Fused { commands: Vec<Command<B>>, mid: B },
    /// Write the normed hidden state, run the commands, and read the products.
    Device { h_post: Vec<S>, commands: Vec<Command<B>> },
    /// The products of the CPU.
    Cpu(RouterRead<S>),
}

/// Start the experts' half of a layer: choose where the products of the normed hidden state
/// are computed, compute the CPU's part, and record the device's. `post_norm` is the offset of
/// the norm's weights on the device, which a path behind attention needs; `x` takes the normed
/// hidden state on the path without attention.
pub fn moe_layer_forward<S: Scalar, B: Copy>(
    support: &RouterSupport,
    device: &DeviceUse,
    d: &LayerDims,
    w: &MoeWeights,
    norm: Option<&[u16]>,
    layer: usize,
    hidden: &[S],
    attn: Option<FullAttnCmd2State<B>>,
    lin: Option<LinearDeferred<B>>,
    post_norm: Option<u64>,
    x: B,
    b: &RouterBuffers<B>,
) -> (r: RouterStart<S, B>)
    requires
        moe_args_fit(*d),
        w.fits(*d, d.hidden_dim as int, d.shared_inter as int),
        norm matches Some(n) ==> d.hidden_dim <= n@.len(),
        hidden@.len() == d.hidden_dim,
        attn matches Some(a) ==> attn_args_fit(a),
        support.path(device.gpu(), attn is Some, lin is Some) is FusedFull ==> post_norm is Some,
        support.path(device.gpu(), attn is Some, lin is Some) is FusedLinear ==> post_norm is Some,
    ensures
        ({
            let normed = layer_normed(*d, norm, hidden@);
            match support.path(device.gpu(), attn is Some, lin is Some) {
                RouterPath::FusedFull => {
                    &&& r matches RouterStart::Fused { commands, mid }
                    &&& commands@ == full_router_commands(*d, layer, attn->0, post_norm->0, *b)
                    &&& mid == b.temp
                },
                RouterPath::FusedLinear => {
                    &&& r matches RouterStart::Fused { commands, mid }
                    &&& commands@ == linear_router_commands(
                        *d,
                        layer,
                        lin->0.gated,
                        lin->0.h_mid,
                        post_norm->0,
                        *b,
                    )
                    &&& mid == b.temp
                },
                RouterPath::Device => {
                    &&& r matches RouterStart::Device { h_post, commands }
                    &&& h_post@ == normed
                    &&& commands@ == after_finish(
                        after_router(after_open(Seq::empty()), *d, layer, x, *b),
                    )
                },
                RouterPath::Cpu => {
                    &&& r matches RouterStart::Cpu(read)
                    &&& read.of(*d, *w, normed)
                    &&& read.sized(*d)
                },
            }
        }),
{
    match support.choose_path(device.use_gpu(), attn.is_some(), lin.is_some()) {
        RouterPath::FusedFull => {
            if let (Some(a), Some(o)) = (attn, post_norm) {
                let commands = full_router_program(d, layer, &a, o, b);
                return RouterStart::Fused { commands, mid: b.temp };
            }
            assert(false);
        },
        RouterPath::FusedLinear => {
            if let (Some(l), Some(o)) = (lin, post_norm) {
                let commands = linear_router_program(d, layer, l.gated, l.h_mid, o, b);
                return RouterStart::Fused { commands, mid: b.temp };
            }
            assert(false);
        },
        RouterPath::Device => {
            let h_post = layer_norm(d, norm, hidden);
            let commands = router_program(d, layer, x, b);
            return RouterStart::Device { h_post, commands };
        },
        RouterPath::Cpu => {},
    }
    let hd: usize = d.hidden_dim;
    let gs: usize = d.group_size;
    let si: usize = d.shared_inter;
    let h_post: Vec<S> = layer_norm(d, norm, hidden);
    let mut scores: Vec<S> = zero_vec(d.num_experts);
    let mut gate: Vec<S> = zero_vec(si);
    let mut up: Vec<S> = zero_vec(si);
    dequant_proj(w.gate, h_post.as_slice(), scores.as_mut_slice(), d.num_experts, hd, gs);
    dequant_proj(w.shared_gate, h_post.as_slice(), gate.as_mut_slice(), si, hd, gs);
    dequant_proj(w.shared_up, h_post.as_slice(), up.as_mut_slice(), si, hd, gs);
    let score: S = shared_gate(d, w.shared_expert_gate, h_post.as_slice());
    RouterStart::Cpu(
        RouterRead { scores, shared_gate: gate, shared_up: up, shared_score: score, h_post },
    )
}

/// Choose the experts from the products that were read or computed, and start the shared
/// expert.
pub fn route_products<S: Scalar>(d: &LayerDims, read: RouterRead<S>) -> (r: (MoeFront<S>, Vec<S>))
    requires
        0 < d.experts_per_tok,
        read.sized(*d),
    ensures
        ({
            let chosen = best(
                softmax_of(read.scores@, 0, d.num_experts as int),
                d.experts_per_tok,
            );
            &&& r.0.routing.indices@ == chosen.indices
            &&& r.0.routing.weights@ == normalized(of_bits::<S>(chosen.values))
        }),
        r.0.shared_act@ == expert_activation(read.shared_gate@, read.shared_up@, d.shared_inter as int),
        r.0.shared_act@.len() == d.shared_inter,
        r.0.shared_gate_score == read.shared_score,
        r.1@ == read.h_post@,
{
    let mut scores = read.scores;
    let routing: Routing<S> = route(scores.as_mut_slice(), d.experts_per_tok);
    let mut shared_act: Vec<S> = zero_vec(d.shared_inter);
    activate_expert(
        read.shared_gate.as_slice(),
        read.shared_up.as_slice(),
        shared_act.as_mut_slice(),
        d.shared_inter,
    );
    assert(shared_act@ =~= expert_activation(
        read.shared_gate@,
        read.shared_up@,
        d.shared_inter as int,
    ));
    (MoeFront { routing, shared_act, shared_gate_score: read.shared_score }, read.h_post)
}

/// A device that multiplies as the CPU does changes nothing: the experts that are chosen, their
/// weights and the shared expert's activation are those of the CPU.
pub proof fn law_router_products_agree<S: Scalar>(
    d: LayerDims,
    w: MoeWeights,
    h_post: Seq<S>,
    read: RouterRead<S>,
)
    requires
        read.of(d, w, h_post),
    ensures
        softmax_of(read.scores@, 0, d.num_experts as int) == moe_scores(d, w, h_post),
        expert_activation(read.shared_gate@, read.shared_up@, d.shared_inter as int) == shared_activation(
            d,
            w,
            h_post,
        ),
        read.shared_score == shared_score(d, w.shared_expert_gate, h_post),
{
}

/// What is left where no expert could be dispatched.
pub enum MoeFallback<S, B> {
    /// Write the shared expert's activation, run the commands, and read its output.
    ProjectShared { moe_out: Vec<S>, commands: Vec<Command<B>> },
    /// Nothing: the CPU has done it.
    Done,
}

/// Run the experts on the CPU, as far as their bytes could be read. The shared expert's last
/// product is the device's if there is one.
pub fn moe_fallback<S: Scalar, B>(
    device: &DeviceUse,
    d: &LayerDims,
    w: &MoeWeights,
    parts: &ExpertParts,
    blobs: &Vec<Option<Vec<u8>>>,
    front: &MoeFront<S>,
    h_post: &[S],
    layer: usize,
    hidden: &mut [S],
    act: B,
    out: B,
) -> (r: MoeFallback<S, B>)
    requires
        w.fits(*d, h_post@.len() as int, d.shared_inter as int),
        front.shared_act@.len() == d.shared_inter,
        blobs@.len() <= front.routing.weights@.len(),
        old(hidden)@.len() == d.hidden_dim,
        forall|i: int|
            0 <= i < blobs@.len() ==> (#[trigger] blobs@[i] matches Some(data) ==> parts.fits(
                data@.len() as int,
                h_post@.len() as int,
                d.hidden_dim as int,
                d.moe_inter as int,
                d.group_size as int,
            )),
    ensures
        if device.gpu() {
            &&& r matches MoeFallback::ProjectShared { moe_out, commands }
            &&& moe_out@ == experts_summed(
                *d,
                *parts,
                blob_views(blobs@),
                front.routing.weights@,
                h_post@,
                zero_seq(d.hidden_dim as int),
                zero_seq(d.hidden_dim as int),
                blobs@.len() as int,
            ).0
            &&& moe_out@.len() == d.hidden_dim
            &&& commands@ == after_finish(
                after_project(
                    after_open(Seq::empty()),
                    Tensor::SharedDownProj(layer),
                    act,
                    out,
                    d.hidden_dim,
                    d.shared_inter,
                ),
            )
            &&& final(hidden)@ == old(hidden)@
        } else {
            &&& r is Done
            &&& final(hidden)@ == moe_output(
                *d,
                *w,
                *parts,
                blob_views(blobs@),
                front.routing.weights@,
                front.shared_act@,
                front.shared_gate_score,
                h_post@,
                old(hidden)@,
            )
        },
{
    if device.use_gpu() {
        let moe_out = moe_experts(d, parts, blobs, front.routing.weights.as_slice(), h_post);
        let commands = project_program(
            Tensor::SharedDownProj(layer),
            act,
            out,
            d.hidden_dim,
            d.shared_inter,
        );
        MoeFallback::ProjectShared { moe_out, commands }
    } else {
        moe_finish(d, w, parts, blobs, front, h_post, hidden);
        MoeFallback::Done
    }
}

/// Where the device projects the shared expert as the CPU does, the fallback ends as on the
/// CPU.
pub proof fn law_fallback_agrees<S: Scalar>(
    d: LayerDims,
    w: MoeWeights,
    parts: ExpertParts,
    blobs: Seq<Option<Seq<u8>>>,
    weights: Seq<S>,
    shared_act: Seq<S>,
    score: S,
    h_post: Seq<S>,
    hidden: Seq<S>,
)
    ensures
        ({
            let hd = d.hidden_dim as int;
            let zero = zero_seq(hd);
            let n = blobs.len() as int;
            let moe_out = experts_summed(d, parts, blobs, weights, h_post, zero, zero, n).0;
            let shared_out = projected(
                w.shared_down,
                shared_act,
                zero,
                hd,
                d.shared_inter as int,
                d.group_size as int,
            );
            overwrite(hidden, 0, moe_combined(hidden, moe_out, shared_out, score, hd))
                == moe_output(d, w, parts, blobs, weights, shared_act, score, h_post, hidden)
        }),
{
}

/// Number of expert slots that `k` experts use.
pub open spec fn slots_used(k: int) -> int {
    if k <= MAX_K {
        k
    } else {
        MAX_K as int
    }
}

/// Turn router logits into probabilities, choose the experts, and make room for those that
/// are not cached. Returns the routing and the slots whose experts are to be read; `data`
/// holds the buffers of the slots.
pub fn route_and_pread<S: Scalar, B: Copy>(
    gate_scores: &mut [S],
    k: usize,
    cache: &mut ExpertLRUCache<B>,
    layer: i32,
    num_experts: i32,
    data: &mut Vec<B>,
) -> (r: (Routing<S>, Vec<usize>))
    requires
        0 < k,
        old(cache).wf(num_experts as int),
        slots_used(k as int) <= old(data)@.len(),
        0 < num_experts,
        old(gate_scores)@.len() <= num_experts,
        0 <= layer,
        (layer + 1) * num_experts <= old(cache).view_for(num_experts as int).index.span,
        0 < old(cache).view_for(num_experts as int).index.capacity(),
        old(cache).view_for(num_experts as int).index.clock + MAX_K <= u64::MAX,
        old(cache).view_for(num_experts as int).hits + MAX_K <= u64::MAX,
        old(cache).view_for(num_experts as int).misses + MAX_K <= u64::MAX,
    ensures
        final(gate_scores)@ == softmax_of(old(gate_scores)@, 0, old(gate_scores)@.len() as int),
        r.0.indices@ == best(final(gate_scores)@, k).indices,
        r.0.weights@ == normalized(of_bits::<S>(best(final(gate_scores)@, k).values)),
        final(cache).wf(num_experts as int),
        ({
            let v = old(cache).view_for(num_experts as int);
            let cells = cells_of(
                layer as int,
                r.0.indices@.take(slots_used(k as int)),
                num_experts as int,
            );
            &&& final(cache).view_for(num_experts as int) == after_fetch(v, cells)
            &&& r.1@ == missing(v, cells, cells.len() as int)
            &&& fetched_data(v, cells, old(data)@, final(data)@)
        }),
{
    let routing: Routing<S> = route(gate_scores, k);
    let actual_k: usize = if k <= MAX_K {
        k
    } else {
        MAX_K
    };
    let experts = vstd::slice::slice_subrange(routing.indices.as_slice(), 0, actual_k);
    proof {
        assert(experts@ =~= routing.indices@.take(slots_used(k as int)));
        let ne = num_experts as int;
        let start = HeapView {
            values: Seq::new(k as nat, |i: int| 0u32),
            indices: Seq::new(k as nat, |i: int| 0usize),
        };
        law_topk_in_range(start, k as int, bits_of(gate_scores@), ne);
        let v = cache.view_for(ne);
        assert forall|i: int| 0 <= i < experts@.len() implies experts@[i] <= i32::MAX
            && valid_key(v, layer as int, #[trigger] experts@[i] as int, ne) by {
            assert(start.select(k as int, bits_of(gate_scores@)).indices[i] < ne);
            assert(layer * ne + ne == (layer + 1) * ne) by (nonlinear_arith);
        }
    }
    let misses = fetch_experts(cache, layer, num_experts, experts, data);
    (routing, misses)
}

/// Work of the experts' step that was recorded and is to be submitted.
pub struct ExpertDispatch<S, B> {
    pub commands: Vec<Command<B>>,
    /// What to write into the parameter buffer first.
    pub params: Vec<S>,
    /// The buffer that will hold the hidden state.
    pub out_buf: B,
    /// Buffers that must outlive the commands.
    pub keep_alive: Vec<B>,
    /// The next layer's input norm is computed too.
    pub next_normed: bool,
}

/// Some of the first `k` slots has an expert.
pub open spec fn some_present(present: Seq<bool>, k: int) -> bool {
    exists|i: int| 0 <= i < k && #[trigger] present[i]
}

/// How the bytes of a slot's expert came.
#[derive(Clone, Copy, Debug, PartialEq, Eq, Structural)]
pub enum SlotBytes {
    /// They were in the cache.
    Cached,
    /// They were read; so many came.
    Read(usize),
}

impl SlotBytes {
    /// All bytes of an expert are there.
    pub open spec fn complete(self, size: int) -> bool {
        match self {
            SlotBytes::Cached => true,
            SlotBytes::Read(n) => n == size,
        }
    }
}

/// The slots whose experts are there.
pub open spec fn present_slots(slots: Seq<SlotBytes>, size: int) -> Seq<bool> {
    Seq::new(slots.len(), |i: int| slots[i].complete(size))
}

/// The slots whose experts are there.
pub fn slots_present(slots: &[SlotBytes], size: usize) -> (r: Vec<bool>)
    ensures
        r@ == present_slots(slots@, size as int),
{
    let mut r: Vec<bool> = Vec::new();
    for i in 0..slots.len()
        invariant
            r@ == present_slots(slots@, size as int).take(i as int),
    {
        let complete: bool = match slots[i] {
            SlotBytes::Cached => true,
            SlotBytes::Read(n) => n == size,
        };
        r.push(complete);
        assert(r@ =~= present_slots(slots@, size as int).take(i + 1));
    }
    assert(r@ =~= present_slots(slots@, size as int));
    r
}

/// Record the experts' step if the layer uses the device and at least one expert is there;
/// `None` if the CPU has to take over. `next_norm` is the offset of the next layer's norm
/// weights, if it is to be computed on the device and can be.
pub fn dispatch_experts<S: Scalar, B: Copy>(
    device: &DeviceUse,
    has_vec4: bool,
    d: &LayerDims,
    l: &ExpertLayout,
    layer: usize,
    num_layers: usize,
    b: &ExpertBuffers<B>,
    slots: &[SlotBytes],
    weights: &[S],
    shared_score: &S,
    owner: BufferOwner,
    next_wanted: bool,
    has_norm_kernel: bool,
    next_norm: Option<u64>,
) -> (r: Option<ExpertDispatch<S, B>>)
    requires
        moe_args_fit(*d),
        weights@.len() <= COMBINE_PARAMS,
        slots_used(d.experts_per_tok as int) <= slots@.len(),
        b.has_slots(slots_used(d.experts_per_tok as int)),
    ensures
        ({
            let k = slots_used(d.experts_per_tok as int);
            let present = present_slots(slots@, l.expert_size_4bit as int);
            let norm = if next_wanted && layer + 1 < num_layers && has_norm_kernel {
                next_norm
            } else {
                None
            };
            &&& r is Some <==> device.gpu() && some_present(present, k)
            &&& r matches Some(x) ==> {
                &&& x.commands@ == after_commit(
                    after_close(
                        after_post_expert(
                            after_open(Seq::empty()),
                            has_vec4,
                            *d,
                            *l,
                            layer,
                            *b,
                            present,
                            present,
                            k,
                            norm,
                        ),
                    ),
                )
                &&& x.params@ == combine_params_spec(weights@, *shared_score)
                &&& x.out_buf == b.moe_hidden
                &&& x.keep_alive@ == kept_alive_spec(*b, k, owner)
                &&& x.next_normed == (norm is Some)
            }
        }),
{
    if !device.use_gpu() {
        return None;
    }
    let present: Vec<bool> = slots_present(slots, l.expert_size_4bit);
    let k: usize = if d.experts_per_tok <= MAX_K {
        d.experts_per_tok
    } else {
        MAX_K
    };
    let mut any = false;
    for i in 0..k
        invariant
            k <= present@.len(),
            any == some_present(present@, i as int),
    {
        proof {
            if some_present(present@, i as int) {
                let j = choose|j: int| 0 <= j < i && #[trigger] present@[j];
                assert(0 <= j < i + 1 && present@[j]);
            }
            if present@[i as int] {
                assert(some_present(present@, i + 1));
            }
            if some_present(present@, i + 1) && !present@[i as int] {
                let j = choose|j: int| 0 <= j < i + 1 && #[trigger] present@[j];
                assert(0 <= j < i && present@[j]);
            }
        }
        if present[i] {
            any = true;
        }
    }
    if !any {
        return None;
    }
    let norm: Option<u64> = fuse_next_norm(
        next_wanted,
        layer,
        num_layers,
        has_norm_kernel,
        next_norm,
    );
    let params = combine_params(weights, shared_score);
    let commands = expert_program(has_vec4, d, l, layer, b, present.as_slice(), k, norm);
    let keep_alive = kept_alive(b, k, owner);
    Some(
        ExpertDispatch {
            commands,
            params,
            out_buf: b.moe_hidden,
            keep_alive,
            next_normed: norm.is_some(),
        },
    )
}

/// Of the experts that were chosen as many are run as there are slots: eight at most.
pub proof fn law_slots_used(k: int)
    requires
        0 <= k,
    ensures
        slots_used(k) <= k,
        slots_used(k) <= 8,
        slots_used(k) == k || slots_used(k) == 8,
{
}

/// An expert is present where it was in the cache, or where all of its bytes were read.
pub proof fn law_present_slots(slots: Seq<SlotBytes>, size: int, i: int)
    requires
        0 <= i < slots.len(),
    ensures
        present_slots(slots, size).len() == slots.len(),
        slots[i] is Cached ==> present_slots(slots, size)[i],
        slots[i] matches SlotBytes::Read(n) ==> (present_slots(slots, size)[i] <==> n == size),
{
}

/// The numbers of a norm's weights: each has the weight's bits as its upper half.
pub proof fn law_norm_values<S: Scalar>(weight: Seq<u16>, i: int)
    requires
        0 <= i < weight.len(),
    ensures
        norm_values::<S>(Some(weight)).len() == weight.len(),
        norm_values::<S>(Some(weight))[i] == S::s_of_bits((weight[i] * 0x1_0000) as u32),
        norm_values::<S>(None).len() == 0,
{
}

} // verus!
