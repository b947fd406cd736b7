//! The CPU engine with its model and rotation tables, for the generation of tokens. What the
//! engine asks of a model, a cache and tokens can be tested before it runs.

use vstd::prelude::*;

use crate::cache::{Cache, CacheView, State, StateView};
use crate::constants::{GROUP_SIZE, MAX_SEQ};
use crate::cpu_forward::lemma_attention_sizes;
use crate::cpu_layer::LayerWeights;
use crate::engine::cpu::EngineCPU;
use crate::engine::cpu_engine::{
    asked, cpu_forwarded, cpu_outcome, id_ready, layer_ready, model_ready, questions, states_ready,
    tables_ready, CpuModel, Signal,
};
use crate::full_attention::{kv_room, rope_ready, RopePairs};
use crate::generate::Engine;
use crate::run_config::{expert_fits, product_fits, within};
use crate::scalar::Scalar;
use crate::weights::{mat_fits, AttnWeights, LayerDims, LinearWeights, MoeWeights, QuantMat};

verus! {

/// Whether a matrix that may be missing holds all that a product reads.
pub fn matrix_fits(
    m: Option<QuantMat>,
    x_len: usize,
    out_dim: usize,
    in_dim: usize,
    group_size: usize,
) -> (r: bool)
    ensures
        r == mat_fits(m, x_len as int, out_dim as int, in_dim as int, group_size as int),
{
    match m {
        Some(q) => product_fits(
            q.w.len(),
            q.scales.len(),
            q.biases.len(),
            x_len,
            out_dim,
            in_dim,
            group_size,
        ),
        None => true,
    }
}

/// Whether weights that may be missing are at least `n`.
fn at_least(w: Option<&[u16]>, n: usize) -> (r: bool)
    ensures
        r == (w matches Some(v) ==> n <= v@.len()),
{
    match w {
        Some(v) => n <= v.len(),
        None => true,
    }
}

/// Whether the sizes of full attention can be computed.
pub fn attention_is_valid(d: &LayerDims) -> (r: bool)
    ensures
        r == d.attention_valid(),
{
    if !(0 < d.num_kv_heads && d.num_kv_heads <= d.num_heads && 0 < d.group_size) {
        return false;
    }
    if d.head_dim > usize::MAX / 2 {
        assert(d.num_heads * (2 * d.head_dim) >= 2 * d.head_dim) by (nonlinear_arith)
            requires
                1 <= d.num_heads,
                0 <= d.head_dim,
        ;
        return false;
    }
    within(d.num_heads, 2 * d.head_dim, 0, 0, usize::MAX) && within(
        d.num_kv_heads,
        d.head_dim,
        0,
        0,
        usize::MAX,
    )
}

/// Whether the sizes of linear attention fit together.
pub fn linear_is_valid(d: &LayerDims) -> (r: bool)
    ensures
        r == d.linear_valid(),
{
    if !(0 < d.num_k_heads && d.num_k_heads <= d.num_v_heads && 0 < d.group_size && 0
        < d.conv_kernel) {
        return false;
    }
    let ratio: usize = d.num_v_heads / d.num_k_heads;
    proof {
        vstd::arithmetic::div_mod::lemma_div_non_zero(d.num_v_heads as int, d.num_k_heads as int);
    }
    let last: usize = (d.num_v_heads - 1) / ratio;
    within(d.num_k_heads, d.key_dim, 0, 0, d.total_key) && within(
        d.num_v_heads,
        d.value_dim,
        0,
        0,
        d.total_value,
    ) && within(2, d.total_key, d.total_value, 0, d.conv_dim) && within(
        last,
        d.key_dim,
        d.key_dim,
        0,
        d.total_key,
    ) && within(d.value_dim, d.key_dim, 0, 0, usize::MAX)
}

/// Whether the matrices of full attention hold all that the layer reads.
fn attention_fits(w: &AttnWeights, d: &LayerDims) -> (r: bool)
    requires
        d.attention_valid(),
    ensures
        r == w.fits(*d, d.hidden_dim as int, d.q_dim()),
{
    proof {
        lemma_attention_sizes(*d);
    }
    let gs: usize = d.group_size;
    let hd: usize = d.hidden_dim;
    let q_dim: usize = d.num_heads * d.head_dim;
    let q_proj_dim: usize = d.num_heads * (2 * d.head_dim);
    let kv_dim: usize = d.num_kv_heads * d.head_dim;
    matrix_fits(w.q, hd, q_proj_dim, hd, gs) && matrix_fits(w.k, hd, kv_dim, hd, gs)
        && matrix_fits(w.v, hd, kv_dim, hd, gs) && matrix_fits(w.o, q_dim, hd, q_dim, gs)
}

/// Whether the weights of linear attention hold all that the layer reads.
fn linear_fits(w: &LinearWeights, d: &LayerDims) -> (r: bool)
    ensures
        r == w.fits(*d, d.hidden_dim as int, d.total_value as int),
{
    let gs: usize = d.group_size;
    let hd: usize = d.hidden_dim;
    let conv: bool = match w.conv1d {
        Some(c) => within(d.conv_dim, d.conv_kernel, 0, 0, c.len()),
        None => true,
    };
    let a_log: bool = match w.a_log {
        Some(a) => d.num_v_heads <= a.len(),
        None => true,
    };
    matrix_fits(w.qkv, hd, d.conv_dim, hd, gs) && matrix_fits(w.z, hd, d.total_value, hd, gs)
        && matrix_fits(w.b, hd, d.num_v_heads, hd, gs) && matrix_fits(
        w.a,
        hd,
        d.num_v_heads,
        hd,
        gs,
    ) && matrix_fits(w.out_proj, d.total_value, hd, d.total_value, gs) && conv && a_log && at_least(
        w.dt_bias,
        d.num_v_heads,
    ) && at_least(w.norm, d.value_dim)
}

/// Whether the matrices of routing and of the shared expert hold all that the layer reads.
fn moe_fits(w: &MoeWeights, d: &LayerDims) -> (r: bool)
    ensures
        r == w.fits(*d, d.hidden_dim as int, d.shared_inter as int),
{
    let gs: usize = d.group_size;
    let hd: usize = d.hidden_dim;
    let si: usize = d.shared_inter;
    matrix_fits(w.gate, hd, d.num_experts, hd, gs) && matrix_fits(w.shared_gate, hd, si, hd, gs)
        && matrix_fits(w.shared_up, hd, si, hd, gs) && matrix_fits(w.shared_down, si, hd, si, gs)
        && matrix_fits(w.shared_expert_gate, hd, 1, hd, gs)
}

/// Whether keys and values of the given sizes have room for the position behind `len`.
fn has_kv_room(d: &LayerDims, k_len: usize, v_len: usize, len: usize) -> (r: bool)
    requires
        d.attention_valid(),
    ensures
        r == kv_room(*d, k_len as int, v_len as int, len as int),
{
    proof {
        lemma_attention_sizes(*d);
    }
    if len == usize::MAX {
        return false;
    }
    let kv_dim: usize = d.num_kv_heads * d.head_dim;
    let share: usize = d.num_heads / d.num_kv_heads;
    let last: usize = (d.num_heads - 1) / share;
    if !within(last, d.head_dim, 0, 0, usize::MAX) {
        assert(0 <= len * kv_dim) by (nonlinear_arith)
            requires
                0 <= len,
                0 <= kv_dim,
        ;
        return false;
    }
    let off: usize = last * d.head_dim;
    within(len, kv_dim, kv_dim, 0, k_len) && within(len, kv_dim, kv_dim, 0, v_len) && within(
        len,
        kv_dim,
        off,
        d.head_dim,
        k_len,
    ) && within(len, kv_dim, off, d.head_dim, v_len)
}

/// Whether the rotation tables and heads fit the rotary dimension.
fn rotation_fits(d: &LayerDims, cos_len: usize, sin_len: usize) -> (r: bool)
    requires
        d.attention_valid(),
    ensures
        r == rope_ready(*d, RopePairs::Halves, cos_len as int, sin_len as int),
{
    proof {
        lemma_attention_sizes(*d);
    }
    let n: usize = d.rotary_dim / 2;
    let q_dim: usize = d.num_heads * d.head_dim;
    let kv_dim: usize = d.num_kv_heads * d.head_dim;
    n <= cos_len && n <= sin_len && within(d.num_heads - 1, d.head_dim, n, n, q_dim) && within(
        d.num_kv_heads - 1,
        d.head_dim,
        n,
        n,
        kv_dim,
    )
}

/// Whether a layer can process `t` more tokens.
fn layer_is_ready<S: Scalar, B>(
    e: &EngineCPU,
    w: &LayerWeights,
    state: &State<S, B>,
    t: usize,
) -> (r: bool)
    ensures
        r == layer_ready(*e, *w, state@, t as int),
{
    let d = &e.dims;
    if !(at_least(w.input_norm, d.hidden_dim) && at_least(w.post_attn_norm, d.hidden_dim)
        && moe_fits(&w.moe, d)) {
        return false;
    }
    match state {
        State::Full(s) => {
            if !attention_is_valid(d) {
                return false;
            }
            if !attention_fits(&w.attn, d) || s.len > MAX_SEQ || t > MAX_SEQ - s.len {
                return false;
            }
            let k_len: usize = s.k_cache.len();
            let v_len: usize = s.v_cache.len();
            for i in 0..t
                invariant
                    *state == State::<S, B>::Full(*s),
                    *d == e.dims,
                    k_len == s.k_cache@.len(),
                    v_len == s.v_cache@.len(),
                    d.attention_valid(),
                    s.len + t <= MAX_SEQ,
                    forall|p: int|
                        s.len <= p < s.len + i ==> #[trigger] kv_room(
                            *d,
                            k_len as int,
                            v_len as int,
                            p,
                        ),
            {
                if !has_kv_room(d, k_len, v_len, s.len + i) {
                    proof {
                        match state@ {
                            StateView::Full { k, v, len } => {
                                assert(k.len() == k_len && v.len() == v_len && len == s.len);
                                assert(!kv_room(e.dims, k.len() as int, v.len() as int, len + i));
                            },
                            _ => {},
                        }
                    }
                    return false;
                }
            }
            true
        },
        State::Linear(s) => {
            if !linear_is_valid(d) || d.conv_kernel < 2 {
                return false;
            }
            let conv: usize = s.conv_state.len();
            let block: usize = d.value_dim * d.key_dim;
            linear_fits(&w.linear, d) && within(d.conv_kernel - 1, d.conv_dim, 0, 0, conv)
                && !within(d.conv_kernel - 1, d.conv_dim, 1, 0, conv) && within(
                d.num_v_heads,
                block,
                0,
                0,
                s.ssm_state.len(),
            )
        },
    }
}

/// Whether every layer can process `t` more tokens.
pub fn states_are_ready<S: Scalar, B>(
    e: &EngineCPU,
    m: &CpuModel,
    cache: &Cache<S, B>,
    t: usize,
) -> (r: bool)
    requires
        m.layers@.len() == e.num_layers,
    ensures
        r == states_ready(*e, *m, cache@.states, t as int, 0),
{
    let n: usize = cache.states.len();
    if n != e.num_layers {
        return false;
    }
    for l in 0..n
        invariant
            n == cache.states@.len(),
            n == e.num_layers,
            m.layers@.len() == e.num_layers,
            forall|j: int|
                0 <= j < l ==> layer_ready(
                    *e,
                    m.layers@[j],
                    #[trigger] cache@.states[j],
                    t as int,
                ),
    {
        if !layer_is_ready(e, &m.layers[l], &cache.states[l], t) {
            assert(!layer_ready(*e, m.layers@[l as int], cache@.states[l as int], t as int));
            return false;
        }
    }
    true
}

/// Whether rotation tables of the given sizes serve all full-attention layers.
pub fn tables_are_ready<S: Scalar, B>(
    d: &LayerDims,
    cache: &Cache<S, B>,
    cos_len: usize,
    sin_len: usize,
) -> (r: bool)
    requires
        forall|l: int|
            0 <= l < cache@.states.len() && (#[trigger] cache@.states[l]) is Full
                ==> d.attention_valid(),
    ensures
        r == tables_ready(*d, cache@.states, cos_len as int, sin_len as int),
{
    let n: usize = cache.states.len();
    for l in 0..n
        invariant
            n == cache.states@.len(),
            forall|j: int|
                0 <= j < cache@.states.len() && (#[trigger] cache@.states[j]) is Full
                    ==> d.attention_valid(),
            forall|j: int|
                0 <= j < l && (#[trigger] cache@.states[j]) is Full ==> rope_ready(
                    *d,
                    RopePairs::Halves,
                    cos_len as int,
                    sin_len as int,
                ),
    {
        let ghost view = cache@.states[l as int];
        match &cache.states[l] {
            State::Full(_) => {
                assert(view is Full);
                if !rotation_fits(d, cos_len, sin_len) {
                    return false;
                }
            },
            State::Linear(_) => {
                assert(view is Linear);
            },
        }
    }
    true
}

/// Whether what the engine reads of a model is there.
pub fn model_is_ready(e: &EngineCPU, m: &CpuModel) -> (r: bool)
    ensures
        r == model_ready(*e, *m),
{
    let d = &e.dims;
    let hd: usize = d.hidden_dim;
    0 < d.experts_per_tok && m.layers.len() == e.num_layers && m.experts.len() == e.num_layers
        && expert_fits(&e.parts, m.expert_size, hd, hd, d.moe_inter, d.group_size) && at_least(
        m.final_norm,
        hd,
    ) && matrix_fits(m.lm_head, hd, e.vocab_size, hd, GROUP_SIZE)
}

/// Whether a token's row of the embedding table is there.
pub fn id_is_ready(e: &EngineCPU, m: &CpuModel, id: i64) -> (r: bool)
    ensures
        r == id_ready(*e, *m, id),
{
    if id < 0 || id as u64 > usize::MAX as u64 {
        return false;
    }
    match m.embed {
        Some(table) => {
            let hd: usize = e.dims.hidden_dim;
            let groups: usize = m.embed_groups;
            if groups == 0 {
                return false;
            }
            let size: usize = hd / groups;
            let words: usize = size / 8;
            proof {
                let h = hd as int;
                let g = groups as int;
                vstd::arithmetic::div_mod::lemma_fundamental_div_mod(h, g);
                vstd::arithmetic::div_mod::lemma_mod_bound(h, g);
                assert(g * words <= g * size) by (nonlinear_arith)
                    requires
                        0 <= words <= size,
                        0 <= g,
                ;
                assert((g - 1) * size == g * size - size) by (nonlinear_arith);
            }
            within(id as usize, m.embed_cols, groups * words, 0, table.w.len()) && within(
                id as usize,
                groups,
                groups,
                0,
                table.scales.len(),
            ) && within(id as usize, groups, groups, 0, table.biases.len())
                && within(groups - 1, size, words * 8, 0, hd)
        },
        None => true,
    }
}

/// The CPU engine with a model, and the rotation tables of the positions from 0 on.
pub struct CpuSession<'a, S> {
    pub engine: EngineCPU,
    pub model: CpuModel<'a>,
    pub cos: Vec<Vec<S>>,
    pub sin: Vec<Vec<S>>,
}

/// What tokens that the engine cannot process are answered.
pub open spec fn not_ready_text() -> Seq<char> {
    "the model cannot process these tokens"@
}

impl<'a, S: Scalar> CpuSession<'a, S> {
    /// The rotation tables of the positions of `n` tokens.
    pub open spec fn tables_at(self, pos: int, n: int) -> (Seq<Vec<S>>, Seq<Vec<S>>) {
        (self.cos@.subrange(pos, pos + n), self.sin@.subrange(pos, pos + n))
    }

    /// The engine can process the tokens: the model, the cache and the tables have all that it
    /// reads.
    pub open spec fn ready<B>(self, cache: CacheView<S, B>, ids: Seq<i64>) -> bool {
        let n = ids.len() as int;
        &&& model_ready(self.engine, self.model)
        &&& cache.pos + n <= self.cos@.len()
        &&& cache.pos + n <= self.sin@.len()
        &&& states_ready(self.engine, self.model, cache.states, n, 0)
        &&& forall|i: int| 0 <= i < n ==> id_ready(self.engine, self.model, #[trigger] ids[i])
        &&& forall|i: int|
            0 <= i < n ==> tables_ready(
                self.engine.dims,
                cache.states,
                (#[trigger] self.cos@[cache.pos + i])@.len() as int,
                self.sin@[cache.pos + i]@.len() as int,
            )
    }

    /// Whether the engine can process the tokens.
    pub fn is_ready<B>(&self, cache: &Cache<S, B>, ids: &[i64]) -> (r: bool)
        ensures
            r == self.ready(cache@, ids@),
    {
        let n: usize = ids.len();
        let pos: usize = cache.pos;
        if !model_is_ready(&self.engine, &self.model) {
            return false;
        }
        if pos > self.cos.len() || n > self.cos.len() - pos || pos > self.sin.len() || n
            > self.sin.len() - pos {
            return false;
        }
        if !states_are_ready(&self.engine, &self.model, cache, n) {
            return false;
        }
        proof {
            assert forall|l: int|
                0 <= l < cache@.states.len() && (
                #[trigger] cache@.states[l]) is Full implies self.engine.dims.attention_valid() by {
                assert(layer_ready(
                    self.engine,
                    self.model.layers@[l],
                    cache@.states[l],
                    n as int,
                ));
            }
        }
        for i in 0..n
            invariant
                n == ids@.len(),
                pos == cache.pos,
                pos + n <= self.cos@.len(),
                pos + n <= self.sin@.len(),
                forall|l: int|
                    0 <= l < cache@.states.len() && (#[trigger] cache@.states[l]) is Full
                        ==> self.engine.dims.attention_valid(),
                forall|j: int|
                    0 <= j < i ==> id_ready(self.engine, self.model, #[trigger] ids@[j]),
                forall|j: int|
                    0 <= j < i ==> tables_ready(
                        self.engine.dims,
                        cache@.states,
                        (#[trigger] self.cos@[cache@.pos + j])@.len() as int,
                        self.sin@[cache@.pos + j]@.len() as int,
                    ),
        {
            if !id_is_ready(&self.engine, &self.model, ids[i]) {
                assert(!id_ready(self.engine, self.model, ids@[i as int]));
                return false;
            }
            assert(pos + n <= self.cos.len());
            let c: usize = self.cos[pos + i].len();
            let s: usize = self.sin[pos + i].len();
            if !tables_are_ready(&self.engine.dims, cache, c, s) {
                assert(!tables_ready(
                    self.engine.dims,
                    cache@.states,
                    self.cos@[cache@.pos + i]@.len() as int,
                    self.sin@[cache@.pos + i]@.len() as int,
                ));
                return false;
            }
        }
        true
    }
}

impl<'a, S: Scalar, B, G: Signal> Engine<S, Cache<S, B>, G> for CpuSession<'a, S> {
    /// Tokens that the engine can process are processed with the tables of their positions, as
    /// `EngineCPU::forward` does; others are answered by an error, and nothing changes. Without
    /// tokens there is nothing to do.
    open spec fn may_return(
        before: (Self, Cache<S, B>, G),
        input_ids: Seq<i64>,
        after: (Self, Cache<S, B>, G),
        r: Result<Vec<S>, String>,
    ) -> bool {
        let n = input_ids.len() as int;
        let (cos, sin) = before.0.tables_at(before.1@.pos, n);
        &&& after.0 == before.0
        &&& if n == 0 || before.0.ready(before.1@, input_ids) {
            cpu_forwarded(
                before.0.engine,
                before.0.model,
                input_ids,
                cos,
                sin,
                (before.1@, before.2),
                (after.1@, after.2),
                r,
            )
        } else {
            &&& after.1 == before.1
            &&& after.2 == before.2
            &&& r matches Err(e) && e@ == not_ready_text()
        }
    }

    fn forward(&mut self, input_ids: &[i64], cache: &mut Cache<S, B>, signal: &mut G) -> (r: Result<
        Vec<S>,
        String,
    >) {
        let n: usize = input_ids.len();
        let pos: usize = cache.pos;
        if n == 0 {
            let r: Result<Vec<S>, String> = Ok(Vec::new());
            proof {
                let (cos, sin) = self.tables_at(pos as int, 0);
                assert(0 * questions(self.engine.num_layers as int) == 0);
                assert(asked(seq![*signal], 0, false, *signal, *signal));
                assert(cpu_outcome(
                    seq![*signal],
                    self.engine,
                    self.model,
                    input_ids@,
                    cos,
                    sin,
                    (cache@, *signal),
                    (cache@, *signal),
                    r,
                ));
            }
            return r;
        }
        if !self.is_ready(cache, input_ids) {
            return Err(String::from_str("the model cannot process these tokens"));
        }
        assert(pos + n <= self.cos.len());
        let cos = vstd::slice::slice_subrange(self.cos.as_slice(), pos, pos + n);
        let sin = vstd::slice::slice_subrange(self.sin.as_slice(), pos, pos + n);
        proof {
            assert forall|i: int|
                #![trigger cos@[i]]
                0 <= i < n implies tables_ready(
                self.engine.dims,
                cache@.states,
                cos@[i]@.len() as int,
                sin@[i]@.len() as int,
            ) by {
                assert(cos@[i] == self.cos@[cache@.pos + i]);
            }
        }
        self.engine.forward(&self.model, input_ids, cache, cos, sin, signal)
    }
}

/// A token uses the angles of its own position: token `i` of a call that starts at position `pos`
/// those of position `pos + i`.
pub proof fn law_angles_of_position<'a, S: Scalar>(s: CpuSession<'a, S>, pos: int, n: int, i: int)
    requires
        0 <= pos,
        0 <= i < n,
        pos + n <= s.cos@.len(),
        pos + n <= s.sin@.len(),
    ensures
        s.tables_at(pos, n).0.len() == n,
        s.tables_at(pos, n).1.len() == n,
        s.tables_at(pos, n).0[i] == s.cos@[pos + i],
        s.tables_at(pos, n).1[i] == s.sin@[pos + i],
{
}

} // verus!
