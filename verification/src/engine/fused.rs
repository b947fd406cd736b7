//! The engines that leave work on the device: scratch vectors, construction, and the order of
//! work of a forward pass.

use vstd::prelude::*;

use crate::constants::{CONV_KERNEL_SIZE, GROUP_SIZE};
use crate::engine::qwen35_moe::constants::{
    config_messages, joined, ConfigDims, ModelConfig, ModelDims,
};
use crate::engine::FusedEngine;
use crate::error::MoEError;
use crate::gpu_forward::NormCache;
use crate::math_util::zero_seq;
use crate::scalar::{zero_vec, Scalar};
use crate::schedule::{
    after_groups, after_layers, grouped_token_plan, law_grouped_plan_covers, law_token_plan_covers,
    plan_layers, below, token_plan, TokenStep,
};
use crate::text::debug_view;
use crate::weights::LayerDims;

verus! {

/// The sizes of a layer of a model.
pub open spec fn layer_dims_of(m: ModelDims) -> LayerDims {
    LayerDims {
        hidden_dim: m.hidden_dim,
        num_heads: m.num_attn_heads,
        num_kv_heads: m.num_kv_heads,
        head_dim: m.head_dim,
        rotary_dim: m.rotary_dim,
        num_experts: m.num_experts,
        experts_per_tok: m.num_experts_per_tok,
        moe_inter: m.moe_intermediate,
        shared_inter: m.shared_intermediate,
        num_v_heads: m.linear_num_v_heads,
        num_k_heads: m.linear_num_k_heads,
        key_dim: m.linear_key_dim,
        value_dim: m.linear_value_dim,
        total_key: m.linear_total_key,
        total_value: m.linear_total_value,
        conv_dim: m.linear_conv_dim,
        conv_kernel: CONV_KERNEL_SIZE,
        group_size: GROUP_SIZE,
    }
}

/// The sizes of a layer of a model.
pub fn layer_dims(m: &ModelDims) -> (r: LayerDims)
    ensures
        r == layer_dims_of(*m),
{
    LayerDims {
        hidden_dim: m.hidden_dim,
        num_heads: m.num_attn_heads,
        num_kv_heads: m.num_kv_heads,
        head_dim: m.head_dim,
        rotary_dim: m.rotary_dim,
        num_experts: m.num_experts,
        experts_per_tok: m.num_experts_per_tok,
        moe_inter: m.moe_intermediate,
        shared_inter: m.shared_intermediate,
        num_v_heads: m.linear_num_v_heads,
        num_k_heads: m.linear_num_k_heads,
        key_dim: m.linear_key_dim,
        value_dim: m.linear_value_dim,
        total_key: m.linear_total_key,
        total_value: m.linear_total_value,
        conv_dim: m.linear_conv_dim,
        conv_kernel: CONV_KERNEL_SIZE,
        group_size: GROUP_SIZE,
    }
}

/// Scratch vectors of a layer, reused across layers and tokens.
pub struct FusedWoodsScratch<S> {
    pub h_mid: Vec<S>,
    pub h_post: Vec<S>,
    pub gate_scores: Vec<S>,
    pub shared_gate: Vec<S>,
    pub shared_up: Vec<S>,
    pub expert_indices: Vec<usize>,
    pub expert_weights: Vec<S>,
    pub moe_out: Vec<S>,
    pub shared_out: Vec<S>,
    pub shared_act: Vec<S>,
    pub gate_tmp: Vec<S>,
    pub up_tmp: Vec<S>,
    pub act_tmp: Vec<S>,
    pub eout: Vec<S>,
    pub normed: Vec<S>,
    pub residual: Vec<S>,
    pub qkv: Vec<S>,
    pub z: Vec<S>,
    pub beta: Vec<S>,
    pub alpha: Vec<S>,
    pub conv_out: Vec<S>,
    pub q_proj_out: Vec<S>,
    pub k_full: Vec<S>,
    pub v_full: Vec<S>,
    pub q_full: Vec<S>,
    pub q_gate_full: Vec<S>,
    pub attn_cpu: Vec<S>,
    pub o_out: Vec<S>,
    pub h_mid_saved: Vec<S>,
}

impl<S: Scalar> FusedWoodsScratch<S> {
    /// All vectors hold zeros, as many as a layer of the model needs.
    pub open spec fn fresh(self, d: LayerDims) -> bool {
        &&& self.h_mid@ == zero_seq::<S>(d.hidden_dim as int)
        &&& self.h_post@ == zero_seq::<S>(d.hidden_dim as int)
        &&& self.gate_scores@ == zero_seq::<S>(d.num_experts as int)
        &&& self.shared_gate@ == zero_seq::<S>(d.shared_inter as int)
        &&& self.shared_up@ == zero_seq::<S>(d.shared_inter as int)
        &&& self.expert_indices@ == Seq::new(d.experts_per_tok as nat, |i: int| 0usize)
        &&& self.expert_weights@ == zero_seq::<S>(d.experts_per_tok as int)
        &&& self.moe_out@ == zero_seq::<S>(d.hidden_dim as int)
        &&& self.shared_out@ == zero_seq::<S>(d.hidden_dim as int)
        &&& self.shared_act@ == zero_seq::<S>(d.shared_inter as int)
        &&& self.gate_tmp@ == zero_seq::<S>(d.moe_inter as int)
        &&& self.up_tmp@ == zero_seq::<S>(d.moe_inter as int)
        &&& self.act_tmp@ == zero_seq::<S>(d.moe_inter as int)
        &&& self.eout@ == zero_seq::<S>(d.hidden_dim as int)
        &&& self.normed@ == zero_seq::<S>(d.hidden_dim as int)
        &&& self.residual@ == zero_seq::<S>(d.hidden_dim as int)
        &&& self.qkv@ == zero_seq::<S>(d.conv_dim as int)
        &&& self.z@ == zero_seq::<S>(d.total_value as int)
        &&& self.beta@ == zero_seq::<S>(d.num_v_heads as int)
        &&& self.alpha@ == zero_seq::<S>(d.num_v_heads as int)
        &&& self.conv_out@ == zero_seq::<S>(d.conv_dim as int)
        &&& self.q_proj_out@ == zero_seq::<S>(2 * d.q_dim())
        &&& self.k_full@ == zero_seq::<S>(d.kv_dim())
        &&& self.v_full@ == zero_seq::<S>(d.kv_dim())
        &&& self.q_full@ == zero_seq::<S>(d.q_dim())
        &&& self.q_gate_full@ == zero_seq::<S>(d.q_dim())
        &&& self.attn_cpu@ == zero_seq::<S>(d.q_dim())
        &&& self.o_out@ == zero_seq::<S>(d.hidden_dim as int)
        &&& self.h_mid_saved@ == zero_seq::<S>(d.hidden_dim as int)
    }

    /// Zeroed scratch vectors.
    pub fn new(d: &LayerDims) -> (r: Self)
        requires
            d.num_heads * d.head_dim <= usize::MAX,
            2 * (d.num_heads * d.head_dim) <= usize::MAX,
            d.num_kv_heads * d.head_dim <= usize::MAX,
        ensures
            r.fresh(*d),
    {
        let q_dim: usize = d.num_heads * d.head_dim;
        let q_proj_dim: usize = 2 * q_dim;
        let kv_dim: usize = d.num_kv_heads * d.head_dim;
        FusedWoodsScratch {
            h_mid: zero_vec(d.hidden_dim),
            h_post: zero_vec(d.hidden_dim),
            gate_scores: zero_vec(d.num_experts),
            shared_gate: zero_vec(d.shared_inter),
            shared_up: zero_vec(d.shared_inter),
            expert_indices: crate::attention::filled(0usize, d.experts_per_tok),
            expert_weights: zero_vec(d.experts_per_tok),
            moe_out: zero_vec(d.hidden_dim),
            shared_out: zero_vec(d.hidden_dim),
            shared_act: zero_vec(d.shared_inter),
            gate_tmp: zero_vec(d.moe_inter),
            up_tmp: zero_vec(d.moe_inter),
            act_tmp: zero_vec(d.moe_inter),
            eout: zero_vec(d.hidden_dim),
            normed: zero_vec(d.hidden_dim),
            residual: zero_vec(d.hidden_dim),
            qkv: zero_vec(d.conv_dim),
            z: zero_vec(d.total_value),
            beta: zero_vec(d.num_v_heads),
            alpha: zero_vec(d.num_v_heads),
            conv_out: zero_vec(d.conv_dim),
            q_proj_out: zero_vec(q_proj_dim),
            k_full: zero_vec(kv_dim),
            v_full: zero_vec(kv_dim),
            q_full: zero_vec(q_dim),
            q_gate_full: zero_vec(q_dim),
            attn_cpu: zero_vec(q_dim),
            o_out: zero_vec(d.hidden_dim),
            h_mid_saved: zero_vec(d.hidden_dim),
        }
    }
}

/// An engine that leaves the experts of a layer on the device while the next one starts.
pub struct FusedWoods<S> {
    pub dims: ModelDims,
    pub norm_cache: NormCache<S>,
    pub scratch: FusedWoodsScratch<S>,
}

/// The scratch sizes of a model can be computed.
pub open spec fn scratch_fits(m: ModelDims) -> bool {
    &&& 2 * (m.num_attn_heads * m.head_dim) <= usize::MAX
    &&& m.num_attn_heads * m.head_dim <= usize::MAX
    &&& m.num_kv_heads * m.head_dim <= usize::MAX
    &&& 2 * m.num_layers + 1 <= usize::MAX
}

impl<S: Scalar> FusedWoods<S> {
    /// Make an engine for a model variant, if the configuration is that of the variant. No
    /// norm is converted yet; there are two of them per layer and one behind the last.
    pub fn new<M: ModelConfig>(config: &ConfigDims, architectures: &str) -> (r: Result<
        Self,
        MoEError,
    >)
        requires
            scratch_fits(M::dims()),
        ensures
            ({
                let msgs = config_messages(
                    *config,
                    architectures@,
                    debug_view(architectures@),
                    M::dims(),
                    M::architecture(),
                );
                match r {
                    Ok(e) => {
                        &&& msgs.len() == 0
                        &&& e.dims == M::dims()
                        &&& e.scratch.fresh(layer_dims_of(M::dims()))
                        &&& e.norm_cache.entries@.len() == 2 * M::dims().num_layers + 1
                        &&& forall|weights: Seq<Option<Seq<u16>>>|
                            weights.len() == 2 * M::dims().num_layers + 1
                                ==> #[trigger] e.norm_cache.agrees(weights)
                    },
                    Err(e) => msgs.len() > 0 && (e matches MoEError::Config(m) && m@ == joined(
                        msgs,
                    )),
                }
            }),
    {
        match FusedEngine::new::<M>(config, architectures, 0) {
            Ok(e) => {
                let d = layer_dims(&e.dims);
                let norms: usize = 2 * e.dims.num_layers + 1;
                Ok(
                    FusedWoods {
                        dims: e.dims,
                        norm_cache: NormCache::new(norms),
                        scratch: FusedWoodsScratch::new(&d),
                    },
                )
            },
            Err(e) => Err(e),
        }
    }
}

/// A step of a forward pass.
#[derive(Clone, Copy, Debug, PartialEq, Eq, Structural)]
pub enum EngineStep {
    /// Copy the cache to the device.
    Upload,
    /// Look up the embedding of a token.
    Embed { token: usize },
    /// Make the embedding of a token the hidden state.
    Begin { token: usize },
    /// A step of the token that was begun last.
    Token(TokenStep),
    /// Copy the cache back from the device.
    Download,
}

/// Embeddings of the first `n` tokens.
pub open spec fn embed_steps(n: int) -> Seq<EngineStep> {
    Seq::new(n as nat, |i: int| EngineStep::Embed { token: i as usize })
}

/// The steps of one token.
pub open spec fn token_steps(token: int, plan: Seq<TokenStep>) -> Seq<EngineStep> {
    seq![EngineStep::Begin { token: token as usize }] + plan.map_values(
        |t: TokenStep| EngineStep::Token(t),
    )
}

/// The steps of the first `n` tokens.
pub open spec fn all_token_steps(n: int, plan: Seq<TokenStep>) -> Seq<EngineStep>
    decreases n,
{
    if n <= 0 {
        Seq::empty()
    } else {
        all_token_steps(n - 1, plan) + token_steps(n - 1, plan)
    }
}

/// The steps of a forward pass over `n` tokens: nothing for none; else the cache is copied to
/// the device and back where the engine keeps it there, all embeddings are looked up, and then
/// token follows token.
pub open spec fn engine_steps(n: int, plan: Seq<TokenStep>, on_device: bool) -> Seq<EngineStep> {
    if n <= 0 {
        Seq::empty()
    } else {
        let up = if on_device {
            seq![EngineStep::Upload]
        } else {
            Seq::empty()
        };
        let down = if on_device {
            seq![EngineStep::Download]
        } else {
            Seq::empty()
        };
        up + embed_steps(n) + all_token_steps(n, plan) + down
    }
}

/// The plan of a token: layer by layer, or with the linear-attention layers in groups.
pub open spec fn token_plan_of(num_layers: int, grouped: bool) -> Seq<TokenStep> {
    if grouped {
        after_groups(Seq::empty(), 0, num_layers).push(TokenStep::CompletePending).push(
            TokenStep::Finish,
        )
    } else {
        after_layers(Seq::empty(), num_layers).push(TokenStep::CompletePending).push(
            TokenStep::Finish,
        )
    }
}

/// Whichever way the layers are run, a token runs each of them once, in order.
pub proof fn law_token_runs_all_layers(num_layers: int, grouped: bool)
    requires
        0 <= num_layers <= usize::MAX,
    ensures
        plan_layers(token_plan_of(num_layers, grouped)) == below(num_layers),
{
    if grouped {
        law_grouped_plan_covers(num_layers);
    } else {
        law_token_plan_covers(num_layers);
    }
}

/// Plan a forward pass over `n` tokens.
pub fn plan_forward(n: usize, num_layers: usize, grouped: bool, on_device: bool) -> (r: Vec<
    EngineStep,
>)
    ensures
        r@ == engine_steps(n as int, token_plan_of(num_layers as int, grouped), on_device),
{
    let mut r: Vec<EngineStep> = Vec::new();
    if n == 0 {
        return r;
    }
    let plan: Vec<TokenStep> = if grouped {
        grouped_token_plan(num_layers)
    } else {
        token_plan(num_layers)
    };
    let ghost p = plan@;
    if on_device {
        r.push(EngineStep::Upload);
    }
    let ghost up = r@;
    for i in 0..n
        invariant
            r@ == up + embed_steps(i as int),
    {
        r.push(EngineStep::Embed { token: i });
        assert(r@ =~= up + embed_steps(i + 1));
    }
    let ghost embedded = r@;
    assert(embedded + all_token_steps(0, p) =~= embedded);
    let len: usize = plan.len();
    for i in 0..n
        invariant
            p == plan@,
            len == plan@.len(),
            r@ == embedded + all_token_steps(i as int, p),
    {
        r.push(EngineStep::Begin { token: i });
        let ghost begun = embedded + all_token_steps(i as int, p) + seq![
            EngineStep::Begin { token: i },
        ];
        let ghost mapped = p.map_values(|t: TokenStep| EngineStep::Token(t));
        assert(r@ =~= begun + mapped.take(0));
        for j in 0..len
            invariant
                p == plan@,
                len == plan@.len(),
                mapped == p.map_values(|t: TokenStep| EngineStep::Token(t)),
                r@ == begun + mapped.take(j as int),
        {
            assert(mapped.take(j + 1) =~= mapped.take(j as int).push(mapped[j as int]));
            r.push(EngineStep::Token(plan[j]));
            assert(r@ =~= begun + mapped.take(j + 1));
        }
        assert(mapped.take(len as int) =~= mapped);
        assert(r@ =~= embedded + all_token_steps(i + 1, p));
    }
    if on_device {
        r.push(EngineStep::Download);
    }
    assert(r@ =~= engine_steps(n as int, p, on_device));
    r
}

impl<S: Scalar> FusedWoods<S> {
    /// The steps of a forward pass: layer by layer, with the cache on the device.
    pub fn forward(&self, n: usize) -> (r: Vec<EngineStep>)
        ensures
            r@ == engine_steps(
                n as int,
                token_plan_of(self.dims.num_layers as int, false),
                true,
            ),
    {
        plan_forward(n, self.dims.num_layers, false, true)
    }
}

/// The engine for a model that is described at run time.
#[derive(Clone, Copy, Debug, PartialEq, Eq, Structural)]
pub struct EngineFusedWoods {
    pub dims: LayerDims,
    pub num_layers: usize,
    pub vocab_size: usize,
}

impl EngineFusedWoods {
    /// The steps of a forward pass: layer by layer, with the cache on the CPU.
    pub fn forward(&self, n: usize) -> (r: Vec<EngineStep>)
        ensures
            r@ == engine_steps(n as int, token_plan_of(self.num_layers as int, false), false),
    {
        plan_forward(n, self.num_layers, false, false)
    }
}

/// An engine that runs the linear-attention layers between two full-attention layers in one
/// pipeline.
#[derive(Clone, Copy, Debug, PartialEq, Eq, Structural)]
pub struct FusedExp {
    pub dims: ModelDims,
    /// Experts per token, at most as many as the model was made for.
    pub k: usize,
}

impl FusedExp {
    /// Make an engine for a model variant, if the configuration is that of the variant.
    pub fn new<M: ModelConfig>(config: &ConfigDims, architectures: &str, k: usize) -> (r: Result<
        Self,
        MoEError,
    >)
        ensures
            ({
                let msgs = config_messages(
                    *config,
                    architectures@,
                    debug_view(architectures@),
                    M::dims(),
                    M::architecture(),
                );
                match r {
                    Ok(e) => msgs.len() == 0 && e == (FusedExp { dims: M::dims(), k }),
                    Err(e) => msgs.len() > 0 && (e matches MoEError::Config(m) && m@ == joined(
                        msgs,
                    )),
                }
            }),
    {
        match FusedEngine::new::<M>(config, architectures, k) {
            Ok(e) => Ok(FusedExp { dims: e.dims, k: e.k }),
            Err(e) => Err(e),
        }
    }

    /// The steps of a forward pass: with the linear-attention layers in groups.
    pub fn forward(&self, n: usize) -> (r: Vec<EngineStep>)
        requires
            self.k <= self.dims.num_experts_per_tok,
        ensures
            r@ == engine_steps(
                n as int,
                token_plan_of(self.dims.num_layers as int, true),
                false,
            ),
    {
        plan_forward(n, self.dims.num_layers, true, false)
    }
}

proof fn lemma_all_token_steps(n: int, plan: Seq<TokenStep>)
    requires
        0 <= n,
    ensures
        all_token_steps(n, plan).len() == n * (plan.len() + 1),
    decreases n,
{
    let m = plan.len() as int + 1;
    if n > 0 {
        lemma_all_token_steps(n - 1, plan);
        assert((n - 1) * m + m == n * m) by (nonlinear_arith);
    } else {
        assert(0 * m == 0);
    }
}

proof fn lemma_token_block(n: int, plan: Seq<TokenStep>, t: int)
    requires
        0 <= t < n,
    ensures
        ({
            let s = all_token_steps(n, plan);
            let first = t * (plan.len() + 1);
            &&& 0 <= first
            &&& first + plan.len() < s.len()
            &&& s[first] == (EngineStep::Begin { token: t as usize })
            &&& forall|j: int|
                first < j <= first + plan.len() ==> #[trigger] s[j] == EngineStep::Token(
                    plan[j - first - 1],
                )
        }),
    decreases n,
{
    let m = plan.len() as int + 1;
    lemma_all_token_steps(n - 1, plan);
    lemma_all_token_steps(n, plan);
    assert(0 <= t * m) by (nonlinear_arith)
        requires
            0 <= t,
            0 < m,
    ;
    assert(t * m + m <= n * m) by (nonlinear_arith)
        requires
            t + 1 <= n,
            0 < m,
    ;
    if t < n - 1 {
        lemma_token_block(n - 1, plan, t);
        assert(t * m + m <= (n - 1) * m) by (nonlinear_arith)
            requires
                t + 1 <= n - 1,
                0 < m,
        ;
    } else {
        let before = all_token_steps(n - 1, plan);
        let steps = token_steps(n - 1, plan);
        let s = all_token_steps(n, plan);
        assert forall|j: int| t * m < j <= t * m + plan.len() implies #[trigger] s[j]
            == EngineStep::Token(plan[j - t * m - 1]) by {
            assert(s[j] == steps[j - t * m]);
        }
    }
}

/// The steps of a call: first the embeddings of all tokens; then token by token its beginning and
/// the whole plan of a token. Where the cache lives on the device it is uploaded before all of
/// that, and downloaded at the very end. Without tokens nothing happens.
pub proof fn law_engine_steps(
    n: int,
    plan: Seq<TokenStep>,
    on_device: bool,
    t: int,
    j: int,
)
    requires
        0 <= t < n,
        0 <= j < plan.len(),
    ensures
        ({
            let s = engine_steps(n, plan, on_device);
            let up = if on_device {
                1int
            } else {
                0int
            };
            let first = up + n + t * (plan.len() + 1);
            &&& engine_steps(0, plan, on_device).len() == 0
            &&& s.len() == 2 * up + n + n * (plan.len() + 1)
            &&& on_device ==> s[0] == EngineStep::Upload && s.last() == EngineStep::Download
            &&& s[up + t] == (EngineStep::Embed { token: t as usize })
            &&& s[first] == (EngineStep::Begin { token: t as usize })
            &&& s[first + 1 + j] == EngineStep::Token(plan[j])
        }),
{
    lemma_all_token_steps(n, plan);
    lemma_token_block(n, plan, t);
    let a = all_token_steps(n, plan);
    let first = t * (plan.len() + 1);
    assert(a[first + 1 + j] == EngineStep::Token(plan[j]));
    let s = engine_steps(n, plan, on_device);
    let up = if on_device {
        1int
    } else {
        0int
    };
    assert(s[up + n + first] == a[first]);
    assert(s[up + n + (first + 1 + j)] == a[first + 1 + j]);
}

/// The sizes of a layer are those of the model it was made for, with four inputs under the
/// convolution and groups of 64 weights.
pub proof fn law_layer_dims(m: ModelDims)
    ensures
        ({
            let d = layer_dims_of(m);
            &&& d.hidden_dim == m.hidden_dim
            &&& d.q_dim() == m.num_attn_heads * m.head_dim
            &&& d.kv_dim() == m.num_kv_heads * m.head_dim
            &&& d.heads_per_kv() == m.num_attn_heads as int / m.num_kv_heads as int
            &&& d.k_heads_per_v() == m.linear_num_v_heads as int / m.linear_num_k_heads as int
            &&& d.head_dim == m.head_dim
            &&& d.rotary_dim == m.rotary_dim
            &&& d.num_experts == m.num_experts
            &&& d.experts_per_tok == m.num_experts_per_tok
            &&& d.moe_inter == m.moe_intermediate
            &&& d.shared_inter == m.shared_intermediate
            &&& d.num_v_heads == m.linear_num_v_heads
            &&& d.key_dim == m.linear_key_dim
            &&& d.value_dim == m.linear_value_dim
            &&& d.total_key == m.linear_total_key
            &&& d.total_value == m.linear_total_value
            &&& d.conv_dim == m.linear_conv_dim
            &&& d.conv_kernel == 4
            &&& d.group_size == 64
        }),
{
}

} // verus!
