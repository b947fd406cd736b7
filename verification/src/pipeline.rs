//! The engine that pipelines its linear-attention layers. A group of them keeps the hidden
//! state on the device, and the experts of one layer share a command buffer with the attention
//! of the next. A full-attention layer stands alone between two groups.

use vstd::prelude::*;

use crate::attention_math::{attention_scale, score_scale, NormOrder};
use crate::cache::FullState;
use crate::command::{Command, Tensor};
use crate::constants::{ExpertLayout, FULL_ATTN_INTERVAL, MAX_K, MAX_SEQ};
use crate::cpu_forward::lemma_attention_sizes;
use crate::device_work::works;
use crate::engine::cpu::layer_norm;
use crate::expert_cache::{ExpertCacheView, ExpertLRUCache};
use crate::expert_fetch::{
    after_fetch, cells_of, fetched_data, law_fetch_keeps_all, missing, unpinned,
};
use crate::full_attention::{
    after_qkv, cache_ready, cmd2_fits, defer_attention, prepare_attention, prepared, qkv_program,
    rope_ready, AttnBuffers, AttnInputs, FullAttnCmd2State, RopePairs,
};
use crate::gpu_forward::{route_and_pread, slots_used};
use crate::kernels::{after_finish, after_open, finish, open_encoder};
use crate::linear_forward::layer_normed;
use crate::linear_program::{linear_args_fit, LinearBuffers, LinearOffsets};
use crate::math_util::{copy_of, normalized, softmax_of};
use crate::mixed_attention::QkvBuffers;
use crate::moe_program::{
    after_post_expert, after_pre_expert, combine_params, combine_params_spec, encode_post_expert,
    encode_pre_expert, full_router_commands, full_router_program, moe_args_fit, ExpertBuffers,
    RouterBuffers, COMBINE_PARAMS,
};
use crate::program_laws::{back_works, gated_norm_works, law_pre_expert_work, recurrence_works};
use crate::routing::{best, of_bits};
use crate::scalar::{one, zero, zero_of, Scalar};
use crate::schedule::{group_step, group_steps, linear_index, linear_place, GroupStep};
use crate::weights::{AttnWeights, LayerDims};

verus! {

/// The device's buffers that the pipeline uses.
pub struct DeviceParts<B> {
    /// The normed input of a layer.
    pub input: B,
    /// Outputs of the projections.
    pub batch_out: Vec<B>,
    /// Convolution state and recurrent state of each linear-attention layer.
    pub conv_states: Vec<B>,
    pub delta_states: Vec<B>,
    pub conv_output: B,
    pub g_decay: B,
    pub beta_gate: B,
    pub delta_output: B,
    /// The hidden state between two layers.
    pub moe_hidden: B,
    pub out_proj: B,
    pub temp_residual: B,
    pub post_sum_sq: B,
    pub post_normed: B,
    pub gate_scores: B,
    pub shared_gate: B,
    pub shared_up: B,
    pub shared_gate_score: B,
    pub next_sum_sq: B,
    /// Packed weights and output of the expert in each slot.
    pub expert_data: Vec<B>,
    pub expert_out: Vec<B>,
    pub scratch_gate: B,
    pub scratch_up: B,
    pub scratch_act: B,
    pub shared_act: B,
    pub shared_down: B,
    pub combine_params: B,
    /// The weight file.
    pub weights: B,
}

/// Number of projection outputs that the pipeline uses.
pub const BATCH_OUTPUTS: usize = 7;

/// The buffers as the parts of a layer see them.
pub struct PipelineBuffers<B> {
    /// Buffers of linear attention; the two states are those of the layer in turn.
    pub lin: LinearBuffers<B>,
    pub conv_states: Vec<B>,
    pub delta_states: Vec<B>,
    pub router: RouterBuffers<B>,
    pub experts: ExpertBuffers<B>,
}

impl<B: Copy> PipelineBuffers<B> {
    /// Each part reads what the part before it leaves: attention the normed input and, as its
    /// residual, the hidden state; the experts the state behind the norm and, as theirs, the
    /// state behind attention; the next layer what the experts leave.
    pub open spec fn chained(self) -> bool {
        &&& self.lin.input == self.experts.next_input
        &&& self.lin.residual == self.experts.moe_hidden
        &&& self.lin.o_proj == self.router.o_proj
        &&& self.experts.x == self.router.normed
        &&& self.experts.h_mid == self.router.temp
        &&& self.experts.shared_gate == Some(self.router.shared_gate)
        &&& self.experts.shared_up == Some(self.router.shared_up)
        &&& self.lin.weights == self.router.weights
        &&& self.experts.weights == self.router.weights
    }

    /// The buffers of the linear-attention layer at a place.
    pub open spec fn layer_buffers(self, place: int) -> LinearBuffers<B> {
        LinearBuffers {
            conv_state: self.conv_states@[place],
            delta_state: self.delta_states@[place],
            ..self.lin
        }
    }

    /// There are states for `layers` linear-attention layers.
    pub open spec fn has_states(self, layers: int) -> bool {
        self.conv_states@.len() >= layers && self.delta_states@.len() >= layers
    }

    /// Hand the buffers to the parts of a layer.
    pub fn new(p: DeviceParts<B>) -> (r: Self)
        requires
            BATCH_OUTPUTS <= p.batch_out@.len(),
            0 < p.conv_states@.len(),
            0 < p.delta_states@.len(),
        ensures
            r.chained(),
            r.conv_states == p.conv_states,
            r.delta_states == p.delta_states,
            r.lin == (LinearBuffers {
                input: p.input,
                qkv: p.batch_out@[0],
                z: p.batch_out@[1],
                beta: p.batch_out@[2],
                alpha: p.batch_out@[3],
                conv_state: p.conv_states@[0],
                delta_state: p.delta_states@[0],
                conv_output: p.conv_output,
                g_decay: p.g_decay,
                beta_gate: p.beta_gate,
                delta_output: p.delta_output,
                gated: p.batch_out@[6],
                weights: p.weights,
                o_proj: p.out_proj,
                residual: p.moe_hidden,
                hidden_out: p.temp_residual,
            }),
            r.router == (RouterBuffers {
                o_proj: p.out_proj,
                temp: p.temp_residual,
                sum_sq: p.post_sum_sq,
                normed: p.post_normed,
                gate_scores: p.gate_scores,
                shared_gate: p.shared_gate,
                shared_up: p.shared_up,
                shared_score: p.shared_gate_score,
                weights: p.weights,
            }),
            r.experts == (ExpertBuffers {
                x: p.post_normed,
                data: p.expert_data,
                out: p.expert_out,
                gate: p.scratch_gate,
                up: p.scratch_up,
                act: p.scratch_act,
                shared_gate: Some(p.shared_gate),
                shared_up: Some(p.shared_up),
                shared_act: p.shared_act,
                shared_down: p.shared_down,
                h_mid: p.temp_residual,
                moe_hidden: p.moe_hidden,
                params: p.combine_params,
                sum_sq: p.next_sum_sq,
                next_input: p.input,
                weights: p.weights,
            }),
    {
        let lin = LinearBuffers {
            input: p.input,
            qkv: p.batch_out[0],
            z: p.batch_out[1],
            beta: p.batch_out[2],
            alpha: p.batch_out[3],
            conv_state: p.conv_states[0],
            delta_state: p.delta_states[0],
            conv_output: p.conv_output,
            g_decay: p.g_decay,
            beta_gate: p.beta_gate,
            delta_output: p.delta_output,
            gated: p.batch_out[6],
            weights: p.weights,
            o_proj: p.out_proj,
            residual: p.moe_hidden,
            hidden_out: p.temp_residual,
        };
        let router = RouterBuffers {
            o_proj: p.out_proj,
            temp: p.temp_residual,
            sum_sq: p.post_sum_sq,
            normed: p.post_normed,
            gate_scores: p.gate_scores,
            shared_gate: p.shared_gate,
            shared_up: p.shared_up,
            shared_score: p.shared_gate_score,
            weights: p.weights,
        };
        let experts = ExpertBuffers {
            x: p.post_normed,
            data: p.expert_data,
            out: p.expert_out,
            gate: p.scratch_gate,
            up: p.scratch_up,
            act: p.scratch_act,
            shared_gate: Some(p.shared_gate),
            shared_up: Some(p.shared_up),
            shared_act: p.shared_act,
            shared_down: p.shared_down,
            h_mid: p.temp_residual,
            moe_hidden: p.moe_hidden,
            params: p.combine_params,
            sum_sq: p.next_sum_sq,
            next_input: p.input,
            weights: p.weights,
        };
        PipelineBuffers {
            lin,
            conv_states: p.conv_states,
            delta_states: p.delta_states,
            router,
            experts,
        }
    }

    /// The buffers of the linear-attention layer at a place.
    fn buffers_at(&self, place: usize) -> (r: LinearBuffers<B>)
        requires
            self.has_states(place + 1),
        ensures
            r == self.layer_buffers(place as int),
    {
        LinearBuffers {
            conv_state: self.conv_states[place],
            delta_state: self.delta_states[place],
            ..self.lin
        }
    }
}

/// Byte offsets of a layer's small tensors in the weight file.
#[derive(Clone, Copy, Debug)]
pub struct LayerOffsets {
    pub linear: LinearOffsets,
    pub post_norm: u64,
    /// The input norm's weights; `None` where the file lacks them.
    pub input_norm: Option<u64>,
}

/// What the device works with throughout a group.
pub struct GroupWork<'a> {
    pub has_vec4: bool,
    pub d: &'a LayerDims,
    pub l: &'a ExpertLayout,
    /// Offsets of each layer's small tensors.
    pub offsets: &'a [LayerOffsets],
    /// Experts per token.
    pub k: usize,
}

impl<'a> GroupWork<'a> {
    /// The sizes fit the kernels, and there are buffers for a model of `layers` layers.
    pub open spec fn fits<B: Copy>(self, b: PipelineBuffers<B>, layers: int) -> bool {
        &&& linear_args_fit(*self.d)
        &&& moe_args_fit(*self.d)
        &&& b.has_states(layers - layers / FULL_ATTN_INTERVAL as int)
        &&& b.experts.has_slots(slots_used(self.k as int))
        &&& layers <= self.offsets@.len()
    }

    /// The recording of a layer up to routing.
    pub open spec fn after_pre<S: Scalar, B: Copy>(
        self,
        b: PipelineBuffers<B>,
        s: Seq<Command<B>>,
        layer: usize,
        place: usize,
    ) -> Seq<Command<B>> {
        after_pre_expert(
            s,
            *self.d,
            layer,
            b.layer_buffers(place as int),
            self.offsets@[layer as int].linear,
            score_scale::<S>(self.d.key_dim).s_bits(),
            self.offsets@[layer as int].post_norm,
            b.router,
        )
    }

    /// The recording of a layer behind routing. The experts whose bytes are there are
    /// computed, from the buffers of their slots; the outputs of all slots enter the sum.
    pub open spec fn after_post<B: Copy>(
        self,
        b: PipelineBuffers<B>,
        s: Seq<Command<B>>,
        layer: usize,
        present: Seq<bool>,
        next_norm: Option<u64>,
    ) -> Seq<Command<B>> {
        let k = slots_used(self.k as int);
        after_post_expert(
            s,
            self.has_vec4,
            *self.d,
            *self.l,
            layer,
            b.experts,
            present,
            Seq::new(k as nat, |i: int| true),
            k,
            next_norm,
        )
    }

    fn encode_pre<S: Scalar, B: Copy>(
        &self,
        b: &PipelineBuffers<B>,
        enc: &mut Vec<Command<B>>,
        layer: usize,
        place: usize,
    )
        requires
            self.fits(*b, layer + 1),
            place == linear_place(layer as int),
        ensures
            final(enc)@ == self.after_pre::<S, B>(*b, old(enc)@, layer, place),
    {
        let off: LayerOffsets = self.offsets[layer];
        let lin = b.buffers_at(place);
        let scale: S = attention_scale(self.d.key_dim);
        encode_pre_expert(
            enc,
            self.d,
            layer,
            &lin,
            &off.linear,
            scale.bits(),
            off.post_norm,
            &b.router,
        );
    }

    fn encode_post<B: Copy>(
        &self,
        b: &PipelineBuffers<B>,
        enc: &mut Vec<Command<B>>,
        layer: usize,
        present: &[bool],
        next_norm: Option<u64>,
    )
        requires
            self.fits(*b, layer + 1),
            slots_used(self.k as int) <= present@.len(),
        ensures
            final(enc)@ == self.after_post(*b, old(enc)@, layer, present@, next_norm),
    {
        let k: usize = if self.k <= MAX_K {
            self.k
        } else {
            MAX_K
        };
        let mut bound: Vec<bool> = Vec::new();
        for i in 0..k
            invariant
                bound@ == Seq::new(i as nat, |i: int| true),
        {
            bound.push(true);
            assert(bound@ =~= Seq::new((i + 1) as nat, |i: int| true));
        }
        encode_post_expert(
            enc,
            self.has_vec4,
            self.d,
            self.l,
            layer,
            &b.experts,
            present,
            bound.as_slice(),
            k,
            next_norm,
        );
    }
}

/// What is done next for a group of linear-attention layers.
pub enum GroupAction<S, B> {
    /// Write the hidden state and the normed input to their buffers.
    Upload { hidden: Vec<S>, normed: Vec<S> },
    /// Write the weights of the sum, if there are any, and run the commands.
    Run { params: Option<Vec<S>>, commands: Vec<Command<B>> },
    /// Shift the convolution state that the CPU keeps of a layer.
    UpdateConv { layer: usize },
    /// Read the router logits and the shared expert's gate score, and route with them.
    Route { layer: usize },
    /// Read the hidden state back.
    Download,
    /// Nothing is left.
    Done,
}

/// A group of linear-attention layers on its way through the device.
pub struct LinearGroup<S, B> {
    pub first: usize,
    pub count: usize,
    pub num_layers: usize,
    /// Number of steps that are done.
    pub at: usize,
    /// The experts' weights and the shared expert's score of the last layer that was routed.
    pub weights: Vec<S>,
    pub shared_score: S,
    /// The device's buffers; the experts' data are those of the last layer that was routed.
    pub b: PipelineBuffers<B>,
}

/// Start a group of linear-attention layers.
pub fn linear_group<S: Scalar, B: Copy>(
    first: usize,
    count: usize,
    num_layers: usize,
    b: PipelineBuffers<B>,
) -> (r: LinearGroup<S, B>)
    requires
        first + count <= num_layers,
        3 * num_layers + 3 <= usize::MAX,
    ensures
        r.wf(),
        r.first == first,
        r.count == count,
        r.num_layers == num_layers,
        r.at == 0,
        r.weights@.len() == 0,
        r.shared_score == zero::<S>(),
        r.b == b,
{
    let shared_score: S = zero_of();
    LinearGroup { first, count, num_layers, at: 0, weights: Vec::new(), shared_score, b }
}

impl<S: Scalar, B: Copy> LinearGroup<S, B> {
    /// The layers belong to the model, and the group is not past its end.
    pub open spec fn wf(self) -> bool {
        &&& self.first + self.count <= self.num_layers
        &&& 3 * self.num_layers + 3 <= usize::MAX
        &&& self.at <= self.steps()
    }

    /// Number of steps of the group.
    pub open spec fn steps(self) -> int {
        if self.count == 0 {
            0
        } else {
            3 * self.count + 3
        }
    }

    /// The step that is next.
    pub open spec fn step(self) -> GroupStep {
        group_step(self.first as int, self.count as int, self.num_layers as int, self.at as int)
    }

    fn next_step(&self) -> (r: GroupStep)
        requires
            self.wf(),
            self.at < self.steps(),
        ensures
            r == self.step(),
    {
        if self.at == 0 {
            return GroupStep::Upload { layer: self.first };
        }
        if self.at == 3 * self.count + 1 {
            let next: usize = self.first + self.count;
            let next_norm: Option<usize> = if next < self.num_layers {
                Some(next)
            } else {
                None
            };
            return GroupStep::Post { layer: next - 1, next_norm };
        }
        if self.at == 3 * self.count + 2 {
            return GroupStep::Download;
        }
        let i: usize = (self.at - 1) / 3;
        let layer: usize = self.first + i;
        match self.at % 3 {
            1 => {
                let place: usize = linear_index(layer);
                if i == 0 {
                    GroupStep::Pre { layer, place }
                } else {
                    GroupStep::PostPre { done: layer - 1, layer, place }
                }
            },
            2 => GroupStep::UpdateConv { layer },
            _ => GroupStep::Route { layer },
        }
    }

    /// The action of the step that is next.
    pub open spec fn acts(
        self,
        work: GroupWork,
        input_norm: Option<&[u16]>,
        hidden: Seq<S>,
        present: Seq<bool>,
        r: GroupAction<S, B>,
    ) -> bool {
        let s = after_open(Seq::empty());
        let sum = combine_params_spec(self.weights@, self.shared_score);
        if self.at == self.steps() {
            r is Done
        } else {
            match self.step() {
                GroupStep::Upload { layer } => {
                    &&& r matches GroupAction::Upload { hidden: h, normed }
                    &&& h@ == hidden
                    &&& normed@ == layer_normed(*work.d, input_norm, hidden)
                },
                GroupStep::Pre { layer, place } => {
                    &&& r matches GroupAction::Run { params, commands }
                    &&& params is None
                    &&& commands@ == after_finish(work.after_pre::<S, B>(self.b, s, layer, place))
                },
                GroupStep::PostPre { done, layer, place } => {
                    let norm = work.offsets@[layer as int].input_norm;
                    let s = work.after_post(self.b, s, done, present, norm);
                    &&& r matches GroupAction::Run { params: Some(params), commands }
                    &&& params@ == sum
                    &&& commands@ == after_finish(work.after_pre::<S, B>(self.b, s, layer, place))
                },
                GroupStep::UpdateConv { layer } => r == GroupAction::<S, B>::UpdateConv { layer },
                GroupStep::Route { layer } => r == GroupAction::<S, B>::Route { layer },
                GroupStep::Post { layer, next_norm } => {
                    let norm = match next_norm {
                        Some(next) => work.offsets@[next as int].input_norm,
                        None => None,
                    };
                    &&& r matches GroupAction::Run { params: Some(params), commands }
                    &&& params@ == sum
                    &&& commands@ == after_finish(work.after_post(self.b, s, layer, present, norm))
                },
                GroupStep::Download => r is Download,
            }
        }
    }

    /// What is done next. `input_norm` and `hidden` are read where the group starts, `present`
    /// where experts are computed. Routing counts as done when `routed` is called.
    pub fn next_action(
        &mut self,
        work: &GroupWork,
        input_norm: Option<&[u16]>,
        hidden: &[S],
        present: &[bool],
    ) -> (r: GroupAction<S, B>)
        requires
            old(self).wf(),
            work.fits(old(self).b, old(self).num_layers as int),
            old(self).weights@.len() <= COMBINE_PARAMS,
            slots_used(work.k as int) <= present@.len(),
            hidden@.len() == work.d.hidden_dim,
            input_norm matches Some(n) ==> work.d.hidden_dim <= n@.len(),
        ensures
            old(self).acts(*work, input_norm, hidden@, present@, r),
            final(self).wf(),
            final(self).at == (if r is Done || r is Route {
                old(self).at as int
            } else {
                old(self).at + 1
            }),
            final(self).first == old(self).first,
            final(self).count == old(self).count,
            final(self).num_layers == old(self).num_layers,
            final(self).weights == old(self).weights,
            final(self).shared_score == old(self).shared_score,
            final(self).b == old(self).b,
    {
        let steps: usize = if self.count == 0 {
            0
        } else {
            3 * self.count + 3
        };
        if self.at == steps {
            return GroupAction::Done;
        }
        let step = self.next_step();
        let mut enc: Vec<Command<B>> = Vec::new();
        open_encoder(&mut enc);
        let r: GroupAction<S, B> = match step {
            GroupStep::Upload { layer } => {
                let normed = layer_norm(work.d, input_norm, hidden);
                GroupAction::Upload { hidden: copy_of(hidden), normed }
            },
            GroupStep::Pre { layer, place } => {
                work.encode_pre::<S, B>(&self.b, &mut enc, layer, place);
                finish(&mut enc);
                GroupAction::Run { params: None, commands: enc }
            },
            GroupStep::PostPre { done, layer, place } => {
                let params = combine_params(self.weights.as_slice(), &self.shared_score);
                let norm: Option<u64> = work.offsets[layer].input_norm;
                work.encode_post(&self.b, &mut enc, done, present, norm);
                work.encode_pre::<S, B>(&self.b, &mut enc, layer, place);
                finish(&mut enc);
                GroupAction::Run { params: Some(params), commands: enc }
            },
            GroupStep::UpdateConv { layer } => GroupAction::UpdateConv { layer },
            GroupStep::Route { layer } => {
                return GroupAction::Route { layer };
            },
            GroupStep::Post { layer, next_norm } => {
                let params = combine_params(self.weights.as_slice(), &self.shared_score);
                let norm: Option<u64> = match next_norm {
                    Some(next) => work.offsets[next].input_norm,
                    None => None,
                };
                work.encode_post(&self.b, &mut enc, layer, present, norm);
                finish(&mut enc);
                GroupAction::Run { params: Some(params), commands: enc }
            },
            GroupStep::Download => GroupAction::Download,
        };
        self.at = self.at + 1;
        r
    }

    /// The cache cells of the experts that are chosen for the layer whose turn it is, slot by
    /// slot.
    pub open spec fn routed_cells(self, k: int, chosen: Seq<usize>, num_experts: int) -> Seq<int> {
        cells_of(self.step()->Route_layer as int, chosen.take(slots_used(k)), num_experts)
    }

    /// The group has gone past the routing step of `before`, in which the experts of `cells`
    /// were fetched through a cache that was `v`: the buffers that they were given are now the
    /// group's, and nothing else of its buffers has changed.
    pub open spec fn follows_routing(
        self,
        before: Self,
        v: ExpertCacheView<B>,
        cells: Seq<int>,
    ) -> bool {
        &&& self.wf()
        &&& self.at == before.at + 1
        &&& self.first == before.first
        &&& self.count == before.count
        &&& self.num_layers == before.num_layers
        &&& self.b == (PipelineBuffers {
            experts: ExpertBuffers { data: self.b.experts.data, ..before.b.experts },
            ..before.b
        })
        &&& fetched_data(v, cells, before.b.experts.data@, self.b.experts.data@)
    }

    /// Route the layer whose turn it is: choose its experts from the logits and make room for
    /// those that are not cached. Returns the chosen experts and the slots whose experts are to
    /// be read. The group takes the buffers of the slots over, and the step that follows
    /// computes the layer's experts from them.
    pub fn routed(
        &mut self,
        work: &GroupWork,
        gate_scores: &mut [S],
        shared_score: S,
        cache: &mut ExpertLRUCache<B>,
        num_experts: i32,
    ) -> (r: (Vec<usize>, Vec<usize>))
        requires
            old(self).wf(),
            old(self).at < old(self).steps(),
            old(self).step() is Route,
            old(self).num_layers <= i32::MAX,
            0 < work.k,
            work.fits(old(self).b, old(self).num_layers as int),
            old(cache).wf(num_experts as int),
            0 < num_experts,
            old(gate_scores)@.len() <= num_experts,
            old(self).num_layers * num_experts <= old(cache).view_for(
                num_experts as int,
            ).index.span,
            0 < old(cache).view_for(num_experts as int).index.capacity(),
            old(cache).view_for(num_experts as int).index.clock + MAX_K <= u64::MAX,
            old(cache).view_for(num_experts as int).hits + MAX_K <= u64::MAX,
            old(cache).view_for(num_experts as int).misses + MAX_K <= u64::MAX,
        ensures
            final(self).shared_score == shared_score,
            ({
                let scores = softmax_of(old(gate_scores)@, 0, old(gate_scores)@.len() as int);
                let chosen = best(scores, work.k);
                let v = old(cache).view_for(num_experts as int);
                let cells = old(self).routed_cells(
                    work.k as int,
                    chosen.indices,
                    num_experts as int,
                );
                &&& final(gate_scores)@ == scores
                &&& final(self).weights@ == normalized(of_bits::<S>(chosen.values))
                &&& r.0@ == chosen.indices
                &&& r.1@ == missing(v, cells, cells.len() as int)
                &&& final(cache).wf(num_experts as int)
                &&& final(cache).view_for(num_experts as int) == after_fetch(v, cells)
                &&& final(self).follows_routing(*old(self), v, cells)
            }),
    {
        let layer: usize = self.first + (self.at - 1) / 3;
        assert(self.step()->Route_layer == layer);
        assert((layer + 1) * num_experts <= self.num_layers * num_experts) by (nonlinear_arith)
            requires
                layer + 1 <= self.num_layers,
                0 < num_experts,
        ;
        let (routing, misses) = route_and_pread(
            gate_scores,
            work.k,
            cache,
            layer as i32,
            num_experts,
            &mut self.b.experts.data,
        );
        self.weights = routing.weights;
        self.shared_score = shared_score;
        self.at = self.at + 1;
        (routing.indices, misses)
    }
}

/// A group takes the steps of its plan, one after the other.
pub proof fn law_group_follows_plan<S: Scalar, B: Copy>(g: LinearGroup<S, B>)
    requires
        g.wf(),
    ensures
        ({
            let plan = group_steps(g.first as int, g.count as int, g.num_layers as int);
            &&& g.steps() == plan.len()
            &&& g.at < g.steps() ==> g.step() == plan[g.at as int]
        }),
{
}

/// Once a layer of a group is routed, the step that follows computes the experts of that very
/// layer, with the weights that routing gave them, from the buffers that the cache gave to the
/// chosen experts. With at least as many cache entries as experts, and none of them pinned,
/// these are still the experts' buffers when the whole layer is routed.
pub proof fn law_group_computes_routed_experts<S: Scalar, B: Copy>(
    before: LinearGroup<S, B>,
    after: LinearGroup<S, B>,
    work: GroupWork,
    v: ExpertCacheView<B>,
    chosen: Seq<usize>,
    num_experts: int,
    input_norm: Option<&[u16]>,
    hidden: Seq<S>,
    present: Seq<bool>,
    r: GroupAction<S, B>,
)
    requires
        before.wf(),
        before.at < before.steps(),
        before.step() is Route,
        v.wf(),
        work.k <= chosen.len(),
        after.follows_routing(
            before,
            v,
            before.routed_cells(work.k as int, chosen, num_experts),
        ),
        after.acts(work, input_norm, hidden, present, r),
    ensures
        ({
            let routed = before.step()->Route_layer;
            let sum = combine_params_spec(after.weights@, after.shared_score);
            let s = after_open(Seq::<Command<B>>::empty());
            &&& r matches GroupAction::Run { params: Some(params), commands }
            &&& params@ == sum
            &&& match after.step() {
                GroupStep::PostPre { done, layer, place } => {
                    let norm = work.offsets@[layer as int].input_norm;
                    let t = work.after_post(after.b, s, routed, present, norm);
                    &&& done == routed
                    &&& commands@ == after_finish(
                        work.after_pre::<S, B>(after.b, t, layer, place),
                    )
                },
                GroupStep::Post { layer, next_norm } => {
                    let norm = match next_norm {
                        Some(next) => work.offsets@[next as int].input_norm,
                        None => None,
                    };
                    &&& layer == routed
                    &&& commands@ == after_finish(
                        work.after_post(after.b, s, routed, present, norm),
                    )
                },
                _ => false,
            }
        }),
        ({
            let cells = before.routed_cells(work.k as int, chosen, num_experts);
            let w = after_fetch(v, cells);
            unpinned(v.index) && cells.len() <= v.index.capacity() && (forall|i: int|
                0 <= i < cells.len() ==> 0 <= #[trigger] cells[i] < v.index.span) ==> forall|i: int|
                0 <= i < cells.len() ==> w.index.holds(#[trigger] cells[i])
                    && after.b.experts.data@[i] == w.buffers[w.index.slot_of(cells[i])]
        }),
{
    let cells = before.routed_cells(work.k as int, chosen, num_experts);
    if unpinned(v.index) && cells.len() <= v.index.capacity() && (forall|i: int|
        0 <= i < cells.len() ==> 0 <= #[trigger] cells[i] < v.index.span) {
        law_fetch_keeps_all(v, cells, before.b.experts.data@, after.b.experts.data@);
    }
}

/// Start a full-attention layer: the normed hidden state, and the commands that project it.
pub fn full_attention_layer<S: Scalar, B: Copy>(
    d: &LayerDims,
    input_norm: Option<&[u16]>,
    layer: usize,
    hidden: &[S],
    b: &QkvBuffers<B>,
) -> (r: (Vec<S>, Vec<Command<B>>))
    requires
        d.attention_valid(),
        hidden@.len() == d.hidden_dim,
        input_norm matches Some(n) ==> d.hidden_dim <= n@.len(),
    ensures
        r.0@ == layer_normed(*d, input_norm, hidden@),
        r.1@ == after_qkv(Seq::empty(), *d, layer, b.x, b.q, b.k, b.v),
{
    (layer_norm(d, input_norm, hidden), qkv_program(d, layer, b.x, b.q, b.k, b.v))
}

/// A full-attention layer that is ready for the device.
pub struct AttnLaunch<S, B> {
    /// What to write: queries and their gates, and the newest keys and values behind the first
    /// `at` numbers of the device's cache.
    pub q: Vec<S>,
    pub q_gate: Vec<S>,
    pub k: Vec<S>,
    pub v: Vec<S>,
    pub at: usize,
    pub state: FullAttnCmd2State<B>,
    /// Attention up to routing.
    pub commands: Vec<Command<B>>,
}

/// Go on with the projections of a full-attention layer: prepare the heads, append keys and
/// values to the cache, and record attention up to routing. The buffer of `bufs.hidden` is to
/// hold the hidden state.
pub fn launch_attention<S: Scalar, B: Copy>(
    d: &LayerDims,
    w: &AttnWeights,
    layer: usize,
    q_proj: &[S],
    k: Vec<S>,
    v: Vec<S>,
    kv: &mut FullState<S>,
    cos: &[S],
    sin: &[S],
    bufs: &AttnBuffers<B>,
    post_norm: u64,
    router: &RouterBuffers<B>,
) -> (r: AttnLaunch<S, B>)
    requires
        d.attention_valid(),
        moe_args_fit(*d),
        q_proj@.len() == 2 * d.q_dim(),
        k@.len() == d.kv_dim(),
        v@.len() == d.kv_dim(),
        old(kv).len < MAX_SEQ,
        cache_ready(*d, *old(kv)),
        rope_ready(*d, RopePairs::Halves, cos@.len() as int, sin@.len() as int),
        cmd2_fits(*d, old(kv).len + 1),
        d.num_heads * (old(kv).len + 1) <= u32::MAX,
        d.q_dim() + 255 <= u32::MAX,
    ensures
        ({
            let p = prepared(
                *d,
                *w,
                NormOrder::WeightFirst,
                RopePairs::Halves,
                q_proj@,
                k@,
                v@,
                old(kv).k_cache@,
                old(kv).v_cache@,
                old(kv).len as int,
                cos@,
                sin@,
            );
            &&& r.q@ == p.q
            &&& r.q_gate@ == p.q_gate
            &&& r.k@ == p.k
            &&& r.v@ == v@
            &&& r.at == old(kv).len * d.kv_dim()
            &&& final(kv).k_cache@ == p.k_cache
            &&& final(kv).v_cache@ == p.v_cache
            &&& final(kv).len == p.len
            &&& r.state.describes::<S>(*d, layer, p.len)
            &&& r.state.uses(*bufs)
            &&& r.commands@ == full_router_commands(*d, layer, r.state, post_norm, *router)
        }),
{
    proof {
        lemma_attention_sizes(*d);
    }
    let kv_dim: usize = d.num_kv_heads * d.head_dim;
    assert(kv.len * kv_dim <= kv.k_cache.len());
    let at: usize = kv.len * kv_dim;
    let inputs: AttnInputs<S> = prepare_attention(
        d,
        w,
        NormOrder::WeightFirst,
        RopePairs::Halves,
        q_proj,
        k,
        v,
        kv,
        cos,
        sin,
    );
    let state = defer_attention::<S, B>(d, layer, kv.len, bufs);
    let commands = full_router_program(d, layer, &state, post_norm, router);
    AttnLaunch { q: inputs.q, q_gate: inputs.q_gate, k: inputs.k, v: inputs.v, at, state, commands }
}

/// What a linear layer of a group computes up to its router: the work of that layer, with the
/// layer's own tensors, and with the convolution state and recurrent state of its place among the
/// linear layers.
pub proof fn law_group_layer_work<'a, S: Scalar, B: Copy>(
    work: GroupWork<'a>,
    b: PipelineBuffers<B>,
    s: Seq<Command<B>>,
    layer: usize,
    place: usize,
)
    ensures
        ({
            let d = *work.d;
            let off = work.offsets@[layer as int];
            let scale = one::<S>().s_over(S::s_of_usize(d.key_dim).s_sqrt()).s_bits();
            let lin = LinearBuffers {
                conv_state: b.conv_states@[place as int],
                delta_state: b.delta_states@[place as int],
                ..b.lin
            };
            works(work.after_pre::<S, B>(b, s, layer, place)) == works(s) + recurrence_works(
                d,
                layer,
                lin,
                off.linear,
                scale,
            ) + gated_norm_works(d, lin, off.linear) + back_works(
                d,
                layer,
                Tensor::OutProj(layer),
                b.lin.gated,
                d.total_value,
                b.lin.residual,
                off.post_norm,
                b.router,
            )
        }),
{
    let off = work.offsets@[layer as int];
    law_pre_expert_work(
        s,
        *work.d,
        layer,
        b.layer_buffers(place as int),
        off.linear,
        score_scale::<S>(work.d.key_dim).s_bits(),
        off.post_norm,
        b.router,
    );
}

/// How the buffers of a group chain its layers: what one layer leaves is what the next one reads.
/// The experts' sum is the next layer's residual and its norm the next layer's input; the experts
/// read what the router normed, add to what attention left, and take the shared expert's
/// projections from the router.
pub proof fn law_group_chain<B: Copy>(b: PipelineBuffers<B>, place: int)
    requires
        b.chained(),
    ensures
        b.layer_buffers(place).input == b.experts.next_input,
        b.layer_buffers(place).residual == b.experts.moe_hidden,
        b.experts.x == b.router.normed,
        b.experts.h_mid == b.router.temp,
        b.experts.shared_gate == Some(b.router.shared_gate),
        b.experts.shared_up == Some(b.router.shared_up),
        b.layer_buffers(place).weights == b.experts.weights,
{
}

} // verus!
