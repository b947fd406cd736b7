//! All layers with synthetic routing: experts of the next layer are read while the experts of
//! the current one are computed, into two alternating sets of buffers.

use vstd::prelude::*;

use crate::command::{at, whole, Command};
use crate::constants::ExpertLayout;
use crate::error::{IoError, IoErrorKind, MoEError};
use crate::expert::expert_args_fit;
use crate::expert_math::{madded, vec_madd};
use crate::io_pool::NUM_IO_THREADS;
use crate::kernels::{
    after_close, after_matvec, after_open, after_submit, after_swiglu, encode_matvec_v3,
    encode_swiglu, end_encoding, open_encoder, submit,
};
use crate::math_util::{added, zero_seq};
use crate::scalar::{one, one_of, zero, zero_of, zero_vec, Scalar};
use crate::sums::{lemma_total_none, lemma_total_step, total};
use crate::text::{append_i64, append_usize, decimal, signed_decimal};
use crate::weights::LayerDims;

verus! {

/// A set of expert buffers.
#[derive(Clone, Copy, Debug, PartialEq, Eq, Structural)]
pub enum BufferSet {
    A,
    B,
}

/// The buffers that a layer's experts are read into and computed from.
pub open spec fn set_of_spec(layer: int) -> BufferSet {
    if layer % 2 == 0 {
        BufferSet::A
    } else {
        BufferSet::B
    }
}

/// The buffers that a layer's experts are read into and computed from.
pub fn set_of(layer: usize) -> (r: BufferSet)
    ensures
        r == set_of_spec(layer as int),
{
    if layer % 2 == 0 {
        BufferSet::A
    } else {
        BufferSet::B
    }
}

/// A step of the forward pass.
#[derive(Clone, Copy, Debug, PartialEq, Eq, Structural)]
pub enum FullStep {
    /// Read a layer's experts, and check that all came whole.
    Load { layer: usize, set: BufferSet },
    /// Start to read a layer's experts in the background.
    Prefetch { layer: usize, set: BufferSet },
    /// Run a layer's experts on the device.
    Compute { layer: usize, set: BufferSet },
    /// Add the weighted outputs of a layer's experts to the hidden state.
    Accumulate { layer: usize },
    /// Wait for the reads of a layer that were started in the background.
    Join { layer: usize },
}

/// The step at a place of the plan: a load, then four steps per layer, of which the last
/// layer lacks those for the next.
pub open spec fn step_at(i: int, num_layers: int) -> FullStep {
    if i == 0 {
        FullStep::Load { layer: 0, set: BufferSet::A }
    } else {
        let layer = (i - 1) / 4;
        let part = (i - 1) % 4 + (if layer + 1 == num_layers {
            1int
        } else {
            0int
        });
        if part == 0 {
            FullStep::Prefetch { layer: (layer + 1) as usize, set: set_of_spec(layer + 1) }
        } else if part == 1 {
            FullStep::Compute { layer: layer as usize, set: set_of_spec(layer) }
        } else if part == 2 {
            FullStep::Accumulate { layer: layer as usize }
        } else {
            FullStep::Join { layer: (layer + 1) as usize }
        }
    }
}

/// The steps of the forward pass.
pub open spec fn full_plan(num_layers: int) -> Seq<FullStep> {
    Seq::new((4 * num_layers - 1) as nat, |i: int| step_at(i, num_layers))
}

/// The steps of the forward pass through all layers.
pub fn run_full_forward(num_layers: usize) -> (r: Vec<FullStep>)
    requires
        0 < num_layers,
        4 * num_layers <= usize::MAX,
    ensures
        r@ == full_plan(num_layers as int),
{
    let mut r: Vec<FullStep> = Vec::new();
    r.push(FullStep::Load { layer: 0, set: BufferSet::A });
    let last: usize = num_layers - 1;
    for layer in 0..last
        invariant
            last == num_layers - 1,
            4 * num_layers <= usize::MAX,
            r@ == Seq::new((4 * layer + 1) as nat, |i: int| step_at(i, num_layers as int)),
    {
        r.push(FullStep::Prefetch { layer: layer + 1, set: set_of(layer + 1) });
        r.push(FullStep::Compute { layer, set: set_of(layer) });
        r.push(FullStep::Accumulate { layer });
        r.push(FullStep::Join { layer: layer + 1 });
        assert(r@ =~= Seq::new((4 * (layer + 1) + 1) as nat, |i: int| step_at(i, num_layers as int)));
    }
    r.push(FullStep::Compute { layer: last, set: set_of(last) });
    r.push(FullStep::Accumulate { layer: last });
    assert(r@ =~= full_plan(num_layers as int));
    r
}

/// The place of a layer's computation in the plan.
pub open spec fn compute_place(layer: int, num_layers: int) -> int {
    if layer + 1 == num_layers {
        4 * layer + 1
    } else {
        4 * layer + 2
    }
}

/// Every layer is computed from the set that it was read into. Its reads are over by then:
/// those of layer 0 are the first step, those of any other layer were joined in the step
/// before its own block. The reads that run during the computation go to the other set.
pub proof fn law_double_buffering(layer: int, num_layers: int)
    requires
        0 <= layer < num_layers <= usize::MAX,
    ensures
        ({
            let p = full_plan(num_layers);
            let at = compute_place(layer, num_layers);
            &&& 0 < at < p.len()
            &&& p[at] == (FullStep::Compute { layer: layer as usize, set: set_of_spec(layer) })
            &&& layer == 0 ==> p[0] == (FullStep::Load { layer: 0, set: set_of_spec(0) })
            &&& 0 < layer ==> p[4 * layer - 3] == (FullStep::Prefetch {
                layer: layer as usize,
                set: set_of_spec(layer),
            }) && p[4 * layer] == (FullStep::Join { layer: layer as usize }) && 4 * layer < at
            &&& layer + 1 < num_layers ==> p[at - 1] == (FullStep::Prefetch {
                layer: (layer + 1) as usize,
                set: set_of_spec(layer + 1),
            }) && set_of_spec(layer + 1) != set_of_spec(layer)
        }),
{
}

/// The computation of no layer is left out or made twice.
pub proof fn law_each_layer_once(i: int, layer: usize, set: BufferSet, num_layers: int)
    requires
        0 < num_layers <= usize::MAX,
        0 <= i < full_plan(num_layers).len(),
        full_plan(num_layers)[i] == (FullStep::Compute { layer, set }),
    ensures
        layer < num_layers,
        i == compute_place(layer as int, num_layers),
        set == set_of_spec(layer as int),
{
}

/// The synthetic routing of a layer.
pub open spec fn synthetic_expert(layer: int, ki: int, num_experts: int) -> int {
    (layer * 7 + ki * 31 + 13) % num_experts
}

/// The experts of a layer under synthetic routing.
pub fn layer_experts(layer: usize, k: usize, num_experts: usize) -> (r: Vec<usize>)
    requires
        0 < num_experts,
        layer * 7 + k * 31 + 13 <= usize::MAX,
    ensures
        r@ == Seq::new(
            k as nat,
            |ki: int| synthetic_expert(layer as int, ki, num_experts as int) as usize,
        ),
        forall|i: int| 0 <= i < k ==> #[trigger] r@[i] < num_experts,
{
    let mut r: Vec<usize> = Vec::new();
    for ki in 0..k
        invariant
            0 < num_experts,
            layer * 7 + k * 31 + 13 <= usize::MAX,
            r@ == Seq::new(
                ki as nat,
                |ki: int| synthetic_expert(layer as int, ki, num_experts as int) as usize,
            ),
            forall|i: int| 0 <= i < ki ==> #[trigger] r@[i] < num_experts,
    {
        r.push((layer * 7 + ki * 31 + 13) % num_experts);
    }
    r
}

/// The unscaled weight of the expert of rank `ki`.
pub open spec fn rank_weight<S: Scalar>(ki: int) -> S {
    one::<S>().s_over(S::s_of_usize((ki + 1) as usize))
}

/// The sum of the first `n` unscaled weights.
pub open spec fn rank_weight_sum<S: Scalar>(n: int) -> S
    decreases n,
{
    if n <= 0 {
        zero()
    } else {
        rank_weight_sum::<S>(n - 1).s_plus(rank_weight(n - 1))
    }
}

/// Weights that fall with the rank and sum to one.
pub fn rank_weights<S: Scalar>(k: usize) -> (r: Vec<S>)
    requires
        k < usize::MAX,
    ensures
        r@ == Seq::new(k as nat, |i: int| rank_weight::<S>(i).s_over(rank_weight_sum(k as int))),
{
    let mut sum: S = zero_of();
    for ki in 0..k
        invariant
            k < usize::MAX,
            sum == rank_weight_sum::<S>(ki as int),
    {
        sum = sum.plus(&one_of::<S>().over(&S::of_usize(ki + 1)));
    }
    let mut r: Vec<S> = Vec::new();
    for ki in 0..k
        invariant
            k < usize::MAX,
            sum == rank_weight_sum::<S>(k as int),
            r@ == Seq::new(
                ki as nat,
                |i: int| rank_weight::<S>(i).s_over(rank_weight_sum(k as int)),
            ),
    {
        r.push(one_of::<S>().over(&S::of_usize(ki + 1)).over(&sum));
    }
    r
}

/// A read of an expert into a buffer.
#[derive(Clone, Copy, Debug, PartialEq, Eq)]
pub struct PreadTask<B> {
    pub dst: B,
    pub size: usize,
    pub offset: i64,
}

/// The reads of a layer's experts, each into its buffer.
pub fn build_io_plan<B: Copy>(expert_indices: &[usize], expert_bufs: &[B], expert_size: usize) -> (r:
    Vec<PreadTask<B>>)
    requires
        expert_indices@.len() <= expert_bufs@.len(),
        forall|i: int|
            0 <= i < expert_indices@.len() ==> #[trigger] expert_indices@[i] * expert_size
                <= i64::MAX,
    ensures
        r@ == Seq::new(
            expert_indices@.len(),
            |i: int|
                PreadTask {
                    dst: expert_bufs@[i],
                    size: expert_size,
                    offset: (expert_indices@[i] * expert_size) as i64,
                },
        ),
{
    let mut r: Vec<PreadTask<B>> = Vec::new();
    for i in 0..expert_indices.len()
        invariant
            expert_indices@.len() <= expert_bufs@.len(),
            forall|i: int|
                0 <= i < expert_indices@.len() ==> #[trigger] expert_indices@[i] * expert_size
                    <= i64::MAX,
            r@ == Seq::new(
                i as nat,
                |i: int|
                    PreadTask {
                        dst: expert_bufs@[i],
                        size: expert_size,
                        offset: (expert_indices@[i] * expert_size) as i64,
                    },
            ),
    {
        let ei: usize = expert_indices[i];
        assert(expert_indices@[i as int] * expert_size <= i64::MAX);
        assert(0 <= ei * expert_size) by (nonlinear_arith)
            requires
                0 <= ei,
                0 <= expert_size,
        ;
        r.push(
            PreadTask {
                dst: expert_bufs[i],
                size: expert_size,
                offset: (ei as u64 * expert_size as u64) as i64,
            },
        );
    }
    r
}

/// The number of workers that carry out a plan of `num_tasks` reads.
pub fn io_team(num_tasks: usize) -> (r: usize)
    ensures
        r == (if num_tasks <= NUM_IO_THREADS {
            num_tasks
        } else {
            NUM_IO_THREADS
        }),
{
    if num_tasks <= NUM_IO_THREADS {
        num_tasks
    } else {
        NUM_IO_THREADS
    }
}

/// The message for an expert of layer 0 that was not read whole.
pub open spec fn load_message(expert: int, result: int) -> Seq<char> {
    "layer 0 expert "@ + decimal(expert) + ": got "@ + signed_decimal(result)
}

/// A read brought a whole expert.
pub open spec fn whole_read(result: i64, expert_size: usize) -> bool {
    result == expert_size
}

/// Check that all experts of layer 0 were read whole; the error names the first that was not.
pub fn check_load(experts: &[usize], results: &[i64], expert_size: usize) -> (r: Result<
    (),
    MoEError,
>)
    requires
        experts@.len() == results@.len(),
    ensures
        match r {
            Ok(_) => forall|i: int|
                0 <= i < results@.len() ==> whole_read(#[trigger] results@[i], expert_size),
            Err(MoEError::Io(e)) => e.kind == IoErrorKind::UnexpectedEof && exists|i: int|
                {
                    &&& 0 <= i < results@.len()
                    &&& !whole_read(#[trigger] results@[i], expert_size)
                    &&& forall|j: int|
                        0 <= j < i ==> whole_read(#[trigger] results@[j], expert_size)
                    &&& e.text@ == load_message(experts@[i] as int, results@[i] as int)
                },
            Err(_) => false,
        },
{
    for i in 0..results.len()
        invariant
            experts@.len() == results@.len(),
            forall|j: int| 0 <= j < i ==> whole_read(#[trigger] results@[j], expert_size),
    {
        let n: i64 = results[i];
        if n < 0 || n as u64 != expert_size as u64 {
            let mut m = String::from_str("layer 0 expert ");
            append_usize(&mut m, experts[i]);
            m.append(": got ");
            append_i64(&mut m, n);
            assert(!whole_read(results@[i as int], expert_size));
            return Err(MoEError::Io(IoError { kind: IoErrorKind::UnexpectedEof, text: m }));
        }
    }
    Ok(())
}

/// Buffers of a layer's experts.
pub struct LayerBuffers<B> {
    pub data: Vec<B>,
    pub gate: Vec<B>,
    pub up: Vec<B>,
    pub act: Vec<B>,
    pub out: Vec<B>,
    /// The hidden state.
    pub h: B,
}

impl<B> LayerBuffers<B> {
    /// There are buffers for `k` experts.
    pub open spec fn has(self, k: int) -> bool {
        &&& self.data@.len() >= k
        &&& self.gate@.len() >= k
        &&& self.up@.len() >= k
        &&& self.act@.len() >= k
        &&& self.out@.len() >= k
    }
}

/// The recording of both input projections of the first `n` experts.
pub open spec fn after_projections<B>(
    s: Seq<Command<B>>,
    d: LayerDims,
    l: ExpertLayout,
    b: LayerBuffers<B>,
    n: int,
) -> Seq<Command<B>>
    decreases n,
{
    if n <= 0 {
        s
    } else {
        let s = after_projections(s, d, l, b, n - 1);
        let e = b.data@[n - 1];
        let inter = d.moe_inter as u32;
        let hidden = d.hidden_dim as u32;
        let gs = d.group_size as u32;
        let s = after_matvec(
            s,
            at(e, l.gate_w_off as u64),
            at(e, l.gate_s_off as u64),
            at(e, l.gate_b_off as u64),
            whole(b.h),
            whole(b.gate@[n - 1]),
            inter,
            hidden,
            gs,
            3,
        );
        after_matvec(
            s,
            at(e, l.up_w_off as u64),
            at(e, l.up_s_off as u64),
            at(e, l.up_b_off as u64),
            whole(b.h),
            whole(b.up@[n - 1]),
            inter,
            hidden,
            gs,
            3,
        )
    }
}

/// The recording of the activations of the first `n` experts.
pub open spec fn after_activations<B>(
    s: Seq<Command<B>>,
    d: LayerDims,
    has_vec4: bool,
    b: LayerBuffers<B>,
    n: int,
) -> Seq<Command<B>>
    decreases n,
{
    if n <= 0 {
        s
    } else {
        after_swiglu(
            after_activations(s, d, has_vec4, b, n - 1),
            has_vec4,
            whole(b.gate@[n - 1]),
            whole(b.up@[n - 1]),
            whole(b.act@[n - 1]),
            d.moe_inter as u32,
        )
    }
}

/// The recording of the down projections of the first `n` experts.
pub open spec fn after_downs<B>(
    s: Seq<Command<B>>,
    d: LayerDims,
    l: ExpertLayout,
    b: LayerBuffers<B>,
    n: int,
) -> Seq<Command<B>>
    decreases n,
{
    if n <= 0 {
        s
    } else {
        let e = b.data@[n - 1];
        after_matvec(
            after_downs(s, d, l, b, n - 1),
            at(e, l.down_w_off as u64),
            at(e, l.down_s_off as u64),
            at(e, l.down_b_off as u64),
            whole(b.act@[n - 1]),
            whole(b.out@[n - 1]),
            d.hidden_dim as u32,
            d.moe_inter as u32,
            d.group_size as u32,
            3,
        )
    }
}

/// The experts of a layer as a command list: all projections in one encoder, all activations
/// in the next, all down projections in the last.
pub open spec fn layer_commands<B>(
    d: LayerDims,
    l: ExpertLayout,
    has_vec4: bool,
    b: LayerBuffers<B>,
    k: int,
) -> Seq<Command<B>> {
    let s = after_close(after_projections(after_open(Seq::empty()), d, l, b, k));
    let s = after_close(after_activations(after_open(s), d, has_vec4, b, k));
    after_submit(after_close(after_downs(after_open(s), d, l, b, k)))
}

/// The experts of a layer as a command list.
pub fn layer_program<B: Copy>(
    d: &LayerDims,
    l: &ExpertLayout,
    has_vec4: bool,
    b: &LayerBuffers<B>,
    k: usize,
) -> (r: Vec<Command<B>>)
    requires
        expert_args_fit(*d),
        b.has(k as int),
    ensures
        r@ == layer_commands(*d, *l, has_vec4, *b, k as int),
{
    let hidden: u32 = d.hidden_dim as u32;
    let inter: u32 = d.moe_inter as u32;
    let gs: u32 = d.group_size as u32;
    let mut enc: Vec<Command<B>> = Vec::new();
    open_encoder(&mut enc);
    let ghost s = enc@;
    for ki in 0..k
        invariant
            expert_args_fit(*d),
            b.has(k as int),
            hidden == d.hidden_dim as u32,
            inter == d.moe_inter as u32,
            gs == d.group_size as u32,
            enc@ == after_projections(s, *d, *l, *b, ki as int),
    {
        let e = b.data[ki];
        encode_matvec_v3(
            &mut enc,
            at(e, l.gate_w_off as u64),
            at(e, l.gate_s_off as u64),
            at(e, l.gate_b_off as u64),
            whole(b.h),
            whole(b.gate[ki]),
            inter,
            hidden,
            gs,
        );
        encode_matvec_v3(
            &mut enc,
            at(e, l.up_w_off as u64),
            at(e, l.up_s_off as u64),
            at(e, l.up_b_off as u64),
            whole(b.h),
            whole(b.up[ki]),
            inter,
            hidden,
            gs,
        );
    }
    end_encoding(&mut enc);
    open_encoder(&mut enc);
    let ghost s = enc@;
    for ki in 0..k
        invariant
            expert_args_fit(*d),
            b.has(k as int),
            inter == d.moe_inter as u32,
            enc@ == after_activations(s, *d, has_vec4, *b, ki as int),
    {
        encode_swiglu(
            &mut enc,
            has_vec4,
            whole(b.gate[ki]),
            whole(b.up[ki]),
            whole(b.act[ki]),
            inter,
        );
    }
    end_encoding(&mut enc);
    open_encoder(&mut enc);
    let ghost s = enc@;
    for ki in 0..k
        invariant
            expert_args_fit(*d),
            b.has(k as int),
            hidden == d.hidden_dim as u32,
            inter == d.moe_inter as u32,
            gs == d.group_size as u32,
            enc@ == after_downs(s, *d, *l, *b, ki as int),
    {
        let e = b.data[ki];
        encode_matvec_v3(
            &mut enc,
            at(e, l.down_w_off as u64),
            at(e, l.down_s_off as u64),
            at(e, l.down_b_off as u64),
            whole(b.act[ki]),
            whole(b.out[ki]),
            hidden,
            inter,
            gs,
        );
    }
    end_encoding(&mut enc);
    submit(&mut enc);
    enc
}

/// The weighted sum of the first `n` experts' outputs.
pub open spec fn weighted_outputs<S: Scalar>(
    outs: Seq<Vec<S>>,
    weights: Seq<S>,
    dim: int,
    n: int,
) -> Seq<S>
    decreases n,
{
    if n <= 0 {
        zero_seq(dim)
    } else {
        madded(weighted_outputs(outs, weights, dim, n - 1), outs[n - 1]@, weights[n - 1], dim)
    }
}

proof fn lemma_weighted_len<S: Scalar>(outs: Seq<Vec<S>>, weights: Seq<S>, dim: int, n: int)
    requires
        0 <= dim,
    ensures
        weighted_outputs(outs, weights, dim, n).len() == dim,
    decreases n,
{
    if n > 0 {
        lemma_weighted_len(outs, weights, dim, n - 1);
    }
}

/// Add the weighted outputs of a layer's experts to the hidden state.
pub fn accumulate<S: Scalar>(h: &mut [S], outs: &[Vec<S>], weights: &[S])
    requires
        outs@.len() == weights@.len(),
        forall|i: int|
            0 <= i < outs@.len() ==> (#[trigger] outs@[i])@.len() >= old(h)@.len(),
    ensures
        final(h)@ == added(
            old(h)@,
            weighted_outputs(outs@, weights@, old(h)@.len() as int, outs@.len() as int),
            old(h)@.len() as int,
        ),
{
    let dim: usize = h.len();
    let mut moe: Vec<S> = zero_vec(dim);
    assert(moe@ =~= zero_seq(dim as int));
    for ki in 0..outs.len()
        invariant
            outs@.len() == weights@.len(),
            dim == h@.len(),
            forall|i: int| 0 <= i < outs@.len() ==> (#[trigger] outs@[i])@.len() >= dim,
            moe@ == weighted_outputs(outs@, weights@, dim as int, ki as int),
            moe@.len() == dim,
    {
        proof {
            lemma_weighted_len(outs@, weights@, dim as int, ki + 1);
        }
        assert(outs@[ki as int]@.len() >= dim);
        vec_madd(moe.as_mut_slice(), outs[ki].as_slice(), &weights[ki], dim);
    }
    let ghost h0 = h@;
    for i in 0..dim
        invariant
            dim == h@.len(),
            dim == moe@.len(),
            h0.len() == dim,
            forall|j: int| 0 <= j < i ==> h@[j] == h0[j].s_plus(moe@[j]),
            forall|j: int| i <= j < dim ==> h@[j] == h0[j],
    {
        h[i] = h[i].plus(&moe[i]);
    }
    assert(h@ =~= added(h0, moe@, dim as int));
}

/// Bytes that a forward pass reads.
pub fn total_io_bytes(num_layers: usize, k: usize, expert_size: usize) -> (r: usize)
    requires
        num_layers * k <= usize::MAX,
        num_layers * k * expert_size <= usize::MAX,
    ensures
        r == num_layers * k * expert_size,
{
    num_layers * k * expert_size
}

/// The synthetic routing spreads the experts: all are experts of the model, one rank further is 31
/// experts further, one layer further 7.
pub proof fn law_synthetic_routing(layer: int, ki: int, num_experts: int)
    requires
        0 < num_experts,
        0 <= layer,
        0 <= ki,
    ensures
        0 <= synthetic_expert(layer, ki, num_experts) < num_experts,
        synthetic_expert(0, 0, num_experts) == 13int % num_experts,
        synthetic_expert(layer, ki + 1, num_experts) == (synthetic_expert(layer, ki, num_experts)
            + 31) % num_experts,
        synthetic_expert(layer + 1, ki, num_experts) == (synthetic_expert(layer, ki, num_experts)
            + 7) % num_experts,
{
    let x = layer * 7 + ki * 31 + 13;
    vstd::arithmetic::div_mod::lemma_mod_bound(x, num_experts);
    vstd::arithmetic::div_mod::lemma_add_mod_noop(x, 31, num_experts);
    vstd::arithmetic::div_mod::lemma_add_mod_noop(x % num_experts, 31, num_experts);
    vstd::arithmetic::div_mod::lemma_add_mod_noop(x, 7, num_experts);
    vstd::arithmetic::div_mod::lemma_add_mod_noop(x % num_experts, 7, num_experts);
    vstd::arithmetic::div_mod::lemma_mod_twice(x, num_experts);
    assert((layer + 1) * 7 + ki * 31 + 13 == x + 7);
    assert(layer * 7 + (ki + 1) * 31 + 13 == x + 31);
}

/// The weights of the ranks before they are scaled: one over the rank, counted from one. The
/// scale is their sum.
pub proof fn law_rank_weights<S: Scalar>(k: int, i: int)
    requires
        0 <= i < k < usize::MAX,
    ensures
        rank_weight::<S>(i) == one::<S>().s_over(S::s_of_usize((i + 1) as usize)),
        rank_weight_sum::<S>(k) == total(
            Seq::new(k as nat, |j: int| one::<S>().s_over(S::s_of_usize((j + 1) as usize))),
        ),
{
    lemma_rank_sum::<S>(k, k);
    let terms = Seq::new(k as nat, |j: int| one::<S>().s_over(S::s_of_usize((j + 1) as usize)));
    assert(terms.take(k) =~= terms);
}

proof fn lemma_rank_sum<S: Scalar>(k: int, n: int)
    requires
        0 <= n <= k,
    ensures
        rank_weight_sum::<S>(n) == total(
            Seq::new(k as nat, |j: int| one::<S>().s_over(S::s_of_usize((j + 1) as usize))).take(
                n,
            ),
        ),
    decreases n,
{
    let terms = Seq::new(k as nat, |j: int| one::<S>().s_over(S::s_of_usize((j + 1) as usize)));
    if n > 0 {
        lemma_rank_sum::<S>(k, n - 1);
        lemma_total_step(terms, n - 1);
    } else {
        lemma_total_none(terms);
    }
}

/// What the experts of a layer add to the hidden state, number by number: each output times its
/// weight, summed in order.
pub proof fn law_weighted_outputs<S: Scalar>(
    outs: Seq<Vec<S>>,
    weights: Seq<S>,
    dim: int,
    n: int,
    i: int,
)
    requires
        0 <= i < dim,
        0 <= n,
    ensures
        weighted_outputs(outs, weights, dim, n).len() == dim,
        weighted_outputs(outs, weights, dim, n)[i] == total(
            Seq::new(n as nat, |j: int| outs[j]@[i].s_times(weights[j])),
        ),
{
    let terms = Seq::new(n as nat, |j: int| outs[j]@[i].s_times(weights[j]));
    lemma_weighted_total(outs, weights, dim, n, n, i);
    assert(terms.take(n) =~= terms);
}

proof fn lemma_weighted_total<S: Scalar>(
    outs: Seq<Vec<S>>,
    weights: Seq<S>,
    dim: int,
    k: int,
    n: int,
    i: int,
)
    requires
        0 <= i < dim,
        0 <= n <= k,
    ensures
        weighted_outputs(outs, weights, dim, n).len() == dim,
        weighted_outputs(outs, weights, dim, n)[i] == total(
            Seq::new(k as nat, |j: int| outs[j]@[i].s_times(weights[j])).take(n),
        ),
    decreases n,
{
    let terms = Seq::new(k as nat, |j: int| outs[j]@[i].s_times(weights[j]));
    lemma_weighted_len(outs, weights, dim, n);
    if n > 0 {
        lemma_weighted_total(outs, weights, dim, k, n - 1, i);
        lemma_total_step(terms, n - 1);
        lemma_weighted_len(outs, weights, dim, n - 1);
    } else {
        lemma_total_none(terms);
    }
}

} // verus!
