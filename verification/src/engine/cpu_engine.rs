//! The CPU engine from tokens to logits, over weights and expert files that lie in memory.

use vstd::prelude::*;

use crate::attention_math::NormOrder;
use crate::cache::{Cache, CacheView, State, StateView};
use crate::constants::{GROUP_SIZE, MAX_SEQ};
use crate::cpu_forward::{input_normed, shared_activation, shared_score};
use crate::cpu_layer::{blob_views, LayerWeights};
use crate::delta_net::{lemma_stepped_len, shifted_state};
use crate::expert_math::{chosen_bytes, expert_blob, expert_bytes_in};
use crate::embeddings::{embed_lookup, embedding, embedding_fits};
use crate::engine::cpu::{
    final_norm_and_lm_head, moe_finish, moe_front, moe_output, moe_scores, EngineCPU, MoeFront,
};
use crate::full_attention::{full_attended, kv_room, rope_ready, GateForm, RopePairs};
use crate::layer_laws::{expert_sum, law_moe_output, law_router_scores, rows_of};
use crate::linear_attention::linear_attended;
use crate::math_util::{final_normed, norm_eps, normalized, softmax_of, zero_seq};
use crate::quant::{law_matvec, lemma_within, overwrite};
use crate::routing::{best, of_bits};
use crate::scalar::{one, zero, zero_vec, Scalar};
use crate::weights::{
    law_fresh_projection, mat_fits, projected, row_of, LayerDims, QuantMat,
};

verus! {

/// A way for a caller to stop a computation.
pub trait Signal: Sized {
    /// Asking may take the signal from `before` to `after` and be answered by `r`. A signal
    /// that does not say more may answer anything.
    open spec fn may_answer(before: Self, after: Self, r: bool) -> bool {
        true
    }

    /// Whether to stop.
    fn raised(&mut self) -> (r: bool)
        ensures
            Self::may_answer(*old(self), *final(self), r),
    ;
}

/// A signal that is never raised.
pub struct NoSignal;

impl Signal for NoSignal {
    open spec fn may_answer(before: Self, after: Self, r: bool) -> bool {
        !r
    }

    fn raised(&mut self) -> (r: bool) {
        false
    }
}

/// The answer to the question at a place of a sequence of states of a signal.
pub open spec fn is_answer<G: Signal>(asks: Seq<G>, j: int, r: bool) -> bool {
    G::may_answer(asks[j], asks[j + 1], r)
}

/// A signal was asked `q` times and went through the states `asks`, from `start` to `end`. The
/// last answer was to stop if `stopped`; no other was.
pub open spec fn asked<G: Signal>(
    asks: Seq<G>,
    q: int,
    stopped: bool,
    start: G,
    end: G,
) -> bool {
    &&& 0 <= q
    &&& stopped ==> 0 < q
    &&& asks.len() == q + 1
    &&& asks[0] == start
    &&& asks[q] == end
    &&& forall|j: int|
        0 <= j < (if stopped {
            q - 1
        } else {
            q
        }) ==> #[trigger] is_answer(asks, j, false)
    &&& stopped ==> is_answer(asks, q - 1, true)
}

proof fn lemma_asked_join<G: Signal>(
    a: Seq<G>,
    p: int,
    b: Seq<G>,
    q: int,
    stopped: bool,
    start: G,
    mid: G,
    end: G,
)
    requires
        asked(a, p, false, start, mid),
        asked(b, q, stopped, mid, end),
    ensures
        asked(a.drop_last() + b, p + q, stopped, start, end),
{
    let c = a.drop_last() + b;
    let n = if stopped {
        p + q - 1
    } else {
        p + q
    };
    assert forall|j: int| 0 <= j < n implies #[trigger] is_answer(c, j, false) by {
        if j < p {
            assert(is_answer(a, j, false));
        } else {
            assert(is_answer(b, j - p, false));
        }
    }
    if stopped {
        assert(is_answer(b, q - 1, true));
    }
}

/// Number of times that the signal is asked during `layers` layers: before every fourth.
pub open spec fn questions(layers: int) -> int {
    (layers + 3) / 4
}

/// The weights of a model, and for each layer the file of its experts.
pub struct CpuModel<'a> {
    pub embed: Option<QuantMat<'a>>,
    /// Words per row of the embedding table.
    pub embed_cols: usize,
    /// Groups per row of the embedding table.
    pub embed_groups: usize,
    pub layers: Vec<LayerWeights<'a>>,
    pub final_norm: Option<&'a [u16]>,
    pub lm_head: Option<QuantMat<'a>>,
    pub experts: Vec<&'a [u8]>,
    pub expert_size: usize,
}

/// A layer on the CPU: attention, routing, the experts that the file holds, the shared
/// expert. Gives the new hidden state and the layer's new state.
pub open spec fn cpu_layer<S: Scalar, B>(
    e: EngineCPU,
    w: LayerWeights,
    file: Seq<u8>,
    size: int,
    hidden: Seq<S>,
    state: StateView<S, B>,
    cos: Seq<S>,
    sin: Seq<S>,
) -> (Seq<S>, StateView<S, B>) {
    let d = e.dims;
    let hd = d.hidden_dim as int;
    let normed = input_normed(hidden, w.input_norm, zero_seq(hd), d.hidden_dim, norm_eps());
    let attended = match state {
        StateView::Full { k, v, len } => {
            let r = full_attended(
                d,
                w.attn,
                NormOrder::WeightFirst,
                RopePairs::Halves,
                GateForm::Over,
                normed,
                hidden,
                hidden,
                k,
                v,
                len,
                cos,
                sin,
            );
            (r.hidden, StateView::Full { k: r.k_cache, v: r.v_cache, len: r.len })
        },
        StateView::Linear { conv, ssm, gpu } => {
            let r = linear_attended(d, w.linear, normed, hidden, hidden, conv, ssm);
            (r.hidden, StateView::Linear { conv: r.conv, ssm: r.ssm, gpu })
        },
    };
    let h_post = input_normed(
        attended.0,
        w.post_attn_norm,
        zero_seq(hd),
        d.hidden_dim,
        norm_eps(),
    );
    let chosen = best(moe_scores(d, w.moe, h_post), d.experts_per_tok);
    (
        moe_output(
            d,
            w.moe,
            e.parts,
            chosen_bytes(file, chosen.indices, size),
            normalized(of_bits::<S>(chosen.values)),
            shared_activation(d, w.moe, h_post),
            shared_score(d, w.moe.shared_expert_gate, h_post),
            h_post,
            attended.0,
        ),
        attended.1,
    )
}

/// The first `n` layers.
pub open spec fn cpu_layers<S: Scalar, B>(
    e: EngineCPU,
    m: CpuModel,
    hidden: Seq<S>,
    states: Seq<StateView<S, B>>,
    cos: Seq<S>,
    sin: Seq<S>,
    n: int,
) -> (Seq<S>, Seq<StateView<S, B>>)
    decreases n,
{
    if n <= 0 {
        (hidden, states)
    } else {
        let before = cpu_layers(e, m, hidden, states, cos, sin, n - 1);
        let out = cpu_layer(
            e,
            m.layers@[n - 1],
            m.experts@[n - 1]@,
            m.expert_size as int,
            before.0,
            before.1[n - 1],
            cos,
            sin,
        );
        (out.0, before.1.update(n - 1, out.1))
    }
}

/// A token: embedding, all layers, final norm, projection to the vocabulary. Gives the logits
/// and the new cache.
pub open spec fn cpu_token<S: Scalar, B>(
    e: EngineCPU,
    m: CpuModel,
    id: i64,
    cache: CacheView<S, B>,
    cos: Seq<S>,
    sin: Seq<S>,
) -> (Seq<S>, CacheView<S, B>) {
    let hd = e.dims.hidden_dim as int;
    let vs = e.vocab_size as int;
    let x = token_embedding(e, m, id);
    let out = cpu_layers(e, m, x, cache.states, cos, sin, e.num_layers as int);
    let h = match m.final_norm {
        Some(w) => overwrite(out.0, 0, final_normed(out.0, w@, e.dims.hidden_dim)),
        None => out.0,
    };
    (
        projected(m.lm_head, h, zero_seq(vs), vs, hd, GROUP_SIZE as int),
        CacheView { pos: cache.pos + 1, states: out.1 },
    )
}

/// The first `n` tokens: their logits one behind the other, and the cache behind them.
pub open spec fn cpu_tokens<S: Scalar, B>(
    e: EngineCPU,
    m: CpuModel,
    ids: Seq<i64>,
    cache: CacheView<S, B>,
    cos: Seq<Vec<S>>,
    sin: Seq<Vec<S>>,
    n: int,
) -> (Seq<S>, CacheView<S, B>)
    decreases n,
{
    if n <= 0 {
        (Seq::empty(), cache)
    } else {
        let before = cpu_tokens(e, m, ids, cache, cos, sin, n - 1);
        let out = cpu_token(e, m, ids[n - 1], before.1, cos[n - 1]@, sin[n - 1]@);
        (before.0 + out.0, out.1)
    }
}

/// A layer can process `t` more tokens.
pub open spec fn layer_ready<S: Scalar, B>(
    e: EngineCPU,
    w: LayerWeights,
    state: StateView<S, B>,
    t: int,
) -> bool {
    let d = e.dims;
    let hd = d.hidden_dim as int;
    &&& w.input_norm matches Some(n) ==> hd <= n@.len()
    &&& w.post_attn_norm matches Some(n) ==> hd <= n@.len()
    &&& w.moe.fits(d, hd, d.shared_inter as int)
    &&& match state {
        StateView::Full { k, v, len } => {
            &&& d.attention_valid()
            &&& w.attn.fits(d, hd, d.q_dim())
            &&& 0 <= len
            &&& len + t <= MAX_SEQ
            &&& forall|p: int|
                len <= p < len + t ==> #[trigger] kv_room(d, k.len() as int, v.len() as int, p)
        },
        StateView::Linear { conv, ssm, gpu } => {
            &&& d.linear_valid()
            &&& 2 <= d.conv_kernel
            &&& w.linear.fits(d, hd, d.total_value as int)
            &&& conv.len() == (d.conv_kernel - 1) * d.conv_dim
            &&& d.num_v_heads * (d.value_dim * d.key_dim) <= ssm.len()
        },
    }
}

/// The rotation tables serve all full-attention layers.
pub open spec fn tables_ready<S: Scalar, B>(
    d: LayerDims,
    states: Seq<StateView<S, B>>,
    cos_len: int,
    sin_len: int,
) -> bool {
    forall|l: int|
        0 <= l < states.len() && (#[trigger] states[l]) is Full ==> rope_ready(
            d,
            RopePairs::Halves,
            cos_len,
            sin_len,
        )
}

/// What the engine reads of a model is there.
pub open spec fn model_ready(e: EngineCPU, m: CpuModel) -> bool {
    let d = e.dims;
    let hd = d.hidden_dim as int;
    &&& 0 < d.experts_per_tok
    &&& m.layers@.len() == e.num_layers
    &&& m.experts@.len() == e.num_layers
    &&& e.parts.fits(m.expert_size as int, hd, hd, d.moe_inter as int, d.group_size as int)
    &&& m.final_norm matches Some(w) ==> hd <= w@.len()
    &&& mat_fits(m.lm_head, hd, e.vocab_size as int, hd, GROUP_SIZE as int)
}

/// A token's row of the embedding table is there.
pub open spec fn id_ready(e: EngineCPU, m: CpuModel, id: i64) -> bool {
    &&& 0 <= id
    &&& id <= usize::MAX
    &&& embedding_fits(
        m.embed,
        id as int,
        m.embed_cols as int,
        m.embed_groups as int,
        e.dims.hidden_dim as int,
        e.dims.hidden_dim as int,
    )
}

/// Every layer can process `t` more tokens; the layers below `upto` one less.
pub open spec fn states_ready<S: Scalar, B>(
    e: EngineCPU,
    m: CpuModel,
    states: Seq<StateView<S, B>>,
    t: int,
    upto: int,
) -> bool {
    &&& states.len() == e.num_layers
    &&& forall|l: int|
        0 <= l < states.len() ==> layer_ready(
            e,
            m.layers@[l],
            #[trigger] states[l],
            if l < upto {
                t - 1
            } else {
                t
            },
        )
}

/// The states of the layers where the question number `q` of a token stopped it: those layers
/// are done that come before the question.
pub open spec fn layers_until<S: Scalar, B>(
    e: EngineCPU,
    m: CpuModel,
    hidden: Seq<S>,
    states: Seq<StateView<S, B>>,
    cos: Seq<S>,
    sin: Seq<S>,
    q: int,
) -> Seq<StateView<S, B>> {
    cpu_layers(e, m, hidden, states, cos, sin, 4 * (q - 1)).1
}

/// The embedding of a token.
pub open spec fn token_embedding<S: Scalar>(e: EngineCPU, m: CpuModel, id: i64) -> Seq<S> {
    let hd = e.dims.hidden_dim as int;
    embedding(
        m.embed,
        id as int,
        m.embed_cols as int,
        m.embed_groups as int,
        hd,
        zero_seq(hd),
    )
}

/// The cache where the question number `q` stopped the tokens: the tokens before are complete,
/// and of the token that was stopped the layers before the question.
pub open spec fn cache_until<S: Scalar, B>(
    e: EngineCPU,
    m: CpuModel,
    ids: Seq<i64>,
    cache: CacheView<S, B>,
    cos: Seq<Vec<S>>,
    sin: Seq<Vec<S>>,
    q: int,
) -> CacheView<S, B> {
    let per = questions(e.num_layers as int);
    let t = (q - 1) / per;
    let done = cpu_tokens(e, m, ids, cache, cos, sin, t).1;
    CacheView {
        pos: done.pos,
        states: layers_until(
            e,
            m,
            token_embedding(e, m, ids[t]),
            done.states,
            cos[t]@,
            sin[t]@,
            (q - 1) % per + 1,
        ),
    }
}

/// What processing tokens returns and leaves, if the signal went through the states `asks`:
/// it is asked before every fourth layer of every token, until it answers to stop. If it never
/// does, the result is the logits; else it is an error, and the cache is as far as the
/// computation came.
pub open spec fn cpu_outcome<S: Scalar, B, G: Signal>(
    asks: Seq<G>,
    e: EngineCPU,
    m: CpuModel,
    ids: Seq<i64>,
    cos: Seq<Vec<S>>,
    sin: Seq<Vec<S>>,
    before: (CacheView<S, B>, G),
    after: (CacheView<S, B>, G),
    r: Result<Vec<S>, String>,
) -> bool {
    let all = ids.len() * questions(e.num_layers as int);
    match r {
        Ok(logits) => {
            &&& asked(asks, all, false, before.1, after.1)
            &&& (logits@, after.0) == cpu_tokens(
                e,
                m,
                ids,
                before.0,
                cos,
                sin,
                ids.len() as int,
            )
        },
        Err(error) => {
            let q = asks.len() - 1;
            &&& q <= all
            &&& asked(asks, q, true, before.1, after.1)
            &&& after.0 == cache_until(e, m, ids, before.0, cos, sin, q)
            &&& error@ == "interrupted"@
        },
    }
}

/// What processing tokens may return and leave.
pub open spec fn cpu_forwarded<S: Scalar, B, G: Signal>(
    e: EngineCPU,
    m: CpuModel,
    ids: Seq<i64>,
    cos: Seq<Vec<S>>,
    sin: Seq<Vec<S>>,
    before: (CacheView<S, B>, G),
    after: (CacheView<S, B>, G),
    r: Result<Vec<S>, String>,
) -> bool {
    exists|asks: Seq<G>| cpu_outcome(asks, e, m, ids, cos, sin, before, after, r)
}

/// A layer keeps its kind and the sizes of its state, and can process one token less.
proof fn lemma_layer_keeps<S: Scalar, B>(
    e: EngineCPU,
    w: LayerWeights,
    file: Seq<u8>,
    size: int,
    hidden: Seq<S>,
    state: StateView<S, B>,
    cos: Seq<S>,
    sin: Seq<S>,
    t: int,
)
    requires
        hidden.len() == e.dims.hidden_dim,
        layer_ready(e, w, state, t),
        1 <= t,
    ensures
        cpu_layer(e, w, file, size, hidden, state, cos, sin).0.len() == e.dims.hidden_dim,
        layer_ready(e, w, cpu_layer(e, w, file, size, hidden, state, cos, sin).1, t - 1),
        cpu_layer(e, w, file, size, hidden, state, cos, sin).1 is Full <==> state is Full,
{
    let d = e.dims;
    let hd = d.hidden_dim as int;
    let normed = input_normed(hidden, w.input_norm, zero_seq(hd), d.hidden_dim, norm_eps());
    let out = cpu_layer(e, w, file, size, hidden, state, cos, sin);
    match state {
        StateView::Full { k, v, len } => {
            match out.1 {
                StateView::Full { k: k2, v: v2, len: len2 } => {
                    assert(k2.len() == k.len());
                    assert(v2.len() == v.len());
                    assert(len2 == len + 1);
                    assert forall|p: int| len2 <= p < len2 + (t - 1) implies #[trigger] kv_room(
                        d,
                        k2.len() as int,
                        v2.len() as int,
                        p,
                    ) by {
                        assert(kv_room(d, k.len() as int, v.len() as int, p));
                    }
                },
                _ => {},
            }
        },
        StateView::Linear { conv, ssm, gpu } => {
            let i = crate::linear_attention::linear_inputs(d, w.linear, normed, conv);
            assert(i.qkv.len() == d.conv_dim);
            assert((d.conv_kernel - 1) * d.conv_dim >= d.conv_dim) by (nonlinear_arith)
                requires
                    2 <= d.conv_kernel,
                    0 <= d.conv_dim,
            ;
            assert(shifted_state(conv, i.qkv).len() == conv.len());
            lemma_stepped_len(
                ssm,
                crate::linear_attention::delta_operands(d, w.linear, i),
                d.num_v_heads as int,
            );
        },
    }
}

impl EngineCPU {
    /// Run a layer.
    pub fn layer<S: Scalar, B>(
        &self,
        w: &LayerWeights,
        file: &[u8],
        size: usize,
        hidden: &mut [S],
        state: &mut State<S, B>,
        cos: &[S],
        sin: &[S],
    )
        requires
            0 < self.dims.experts_per_tok,
            self.parts.fits(
                size as int,
                self.dims.hidden_dim as int,
                self.dims.hidden_dim as int,
                self.dims.moe_inter as int,
                self.dims.group_size as int,
            ),
            old(hidden)@.len() == self.dims.hidden_dim,
            layer_ready(*self, *w, old(state)@, 1),
            old(state)@ is Full ==> rope_ready(
                self.dims,
                RopePairs::Halves,
                cos@.len() as int,
                sin@.len() as int,
            ),
        ensures
            (final(hidden)@, final(state)@) == cpu_layer(
                *self,
                *w,
                file@,
                size as int,
                old(hidden)@,
                old(state)@,
                cos@,
                sin@,
            ),
            final(hidden)@.len() == self.dims.hidden_dim,
    {
        proof {
            match old(state)@ {
                StateView::Full { k, v, len } => {
                    assert(kv_room(self.dims, k.len() as int, v.len() as int, len));
                },
                _ => {},
            }
        }
        let h_post: Vec<S> = self.attention(w, hidden, state, cos, sin);
        let front: MoeFront<S> = moe_front(&self.dims, &w.moe, h_post.as_slice());
        let mut blobs: Vec<Option<Vec<u8>>> = Vec::new();
        let k: usize = front.routing.indices.len();
        for i in 0..k
            invariant
                k == front.routing.indices@.len(),
                blobs@.len() == i,
                forall|j: int|
                    0 <= j < i ==> match #[trigger] blobs@[j] {
                        Some(v) => expert_bytes_in(
                            file@,
                            front.routing.indices@[j] as int,
                            size as int,
                        ) == Some(v@) && v@.len() == size,
                        None => expert_bytes_in(
                            file@,
                            front.routing.indices@[j] as int,
                            size as int,
                        ) is None,
                    },
        {
            blobs.push(expert_blob(file, front.routing.indices[i], size));
        }
        proof {
            assert(blob_views(blobs@) =~= chosen_bytes(
                file@,
                front.routing.indices@,
                size as int,
            )) by {
                assert forall|j: int| 0 <= j < k implies blob_views(blobs@)[j] == chosen_bytes(
                    file@,
                    front.routing.indices@,
                    size as int,
                )[j] by {
                    assert(match blobs@[j] {
                        Some(v) => true,
                        None => true,
                    });
                }
            }
        }
        moe_finish(
            &self.dims,
            &w.moe,
            &self.parts,
            &blobs,
            &front,
            h_post.as_slice(),
            hidden,
        );
    }

    /// Run all layers; the signal is asked before every fourth.
    fn layers<S: Scalar, B, G: Signal>(
        &self,
        m: &CpuModel,
        hidden: &mut [S],
        cache: &mut Cache<S, B>,
        cos: &[S],
        sin: &[S],
        signal: &mut G,
        tokens: Ghost<int>,
    ) -> (r: (bool, Ghost<Seq<G>>))
        requires
            model_ready(*self, *m),
            old(hidden)@.len() == self.dims.hidden_dim,
            1 <= tokens@,
            states_ready(*self, *m, old(cache)@.states, tokens@, 0),
            tables_ready(
                self.dims,
                old(cache)@.states,
                cos@.len() as int,
                sin@.len() as int,
            ),
        ensures
            final(hidden)@.len() == self.dims.hidden_dim,
            final(cache).pos == old(cache).pos,
            r.0 ==> {
                &&& asked(
                    r.1@,
                    questions(self.num_layers as int),
                    false,
                    *old(signal),
                    *final(signal),
                )
                &&& (final(hidden)@, final(cache)@.states) == cpu_layers(
                    *self,
                    *m,
                    old(hidden)@,
                    old(cache)@.states,
                    cos@,
                    sin@,
                    self.num_layers as int,
                )
                &&& states_ready(
                    *self,
                    *m,
                    final(cache)@.states,
                    tokens@,
                    self.num_layers as int,
                )
                &&& forall|l: int|
                    0 <= l < self.num_layers ==> (#[trigger] final(cache)@.states[l] is Full
                        <==> old(cache)@.states[l] is Full)
            },
            !r.0 ==> {
                let q = r.1@.len() - 1;
                &&& q <= questions(self.num_layers as int)
                &&& asked(r.1@, q, true, *old(signal), *final(signal))
                &&& final(cache)@.states == layers_until(
                    *self,
                    *m,
                    old(hidden)@,
                    old(cache)@.states,
                    cos@,
                    sin@,
                    q,
                )
            },
    {
        let n: usize = self.num_layers;
        let ghost t = tokens@;
        let ghost states0 = cache@.states;
        let ghost h0 = hidden@;
        let ghost mut asks: Seq<G> = seq![*signal];
        for layer in 0..n
            invariant
                n == self.num_layers,
                t == tokens@,
                1 <= t,
                model_ready(*self, *m),
                hidden@.len() == self.dims.hidden_dim,
                h0 == old(hidden)@,
                states0 == old(cache)@.states,
                states0.len() == n,
                cache.pos == old(cache).pos,
                cache.states@.len() == n,
                states_ready(*self, *m, cache@.states, t, layer as int),
                tables_ready(self.dims, states0, cos@.len() as int, sin@.len() as int),
                forall|l: int|
                    0 <= l < n ==> (#[trigger] cache@.states[l] is Full <==> states0[l] is Full),
                (hidden@, cache@.states) == cpu_layers(
                    *self,
                    *m,
                    h0,
                    states0,
                    cos@,
                    sin@,
                    layer as int,
                ),
                asked(asks, questions(layer as int), false, *old(signal), *signal),
        {
            if layer % 4 == 0 {
                let ghost before = *signal;
                let stop: bool = signal.raised();
                proof {
                    let one = seq![before, *signal];
                    assert(is_answer(one, 0, stop));
                    assert(asked(one, 1, stop, before, *signal));
                    lemma_asked_join(
                        asks,
                        questions(layer as int),
                        one,
                        1,
                        stop,
                        *old(signal),
                        before,
                        *signal,
                    );
                    asks = asks.drop_last() + one;
                }
                if stop {
                    return (false, Ghost(asks));
                }
            }
            let ghost before = cache@.states;
            let ghost hb = hidden@;
            proof {
                let st = before[layer as int];
                assert(layer_ready(*self, m.layers@[layer as int], st, t));
                assert(st is Full ==> states0[layer as int] is Full);
                match st {
                    StateView::Full { k, v, len } => {
                        assert(kv_room(self.dims, k.len() as int, v.len() as int, len));
                        assert(layer_ready(*self, m.layers@[layer as int], st, 1)) by {
                            assert forall|p: int| len <= p < len + 1 implies #[trigger] kv_room(
                                self.dims,
                                k.len() as int,
                                v.len() as int,
                                p,
                            ) by {}
                        }
                    },
                    _ => {},
                }
                lemma_layer_keeps(
                    *self,
                    m.layers@[layer as int],
                    m.experts@[layer as int]@,
                    m.expert_size as int,
                    hb,
                    st,
                    cos@,
                    sin@,
                    t,
                );
            }
            self.layer(
                &m.layers[layer],
                m.experts[layer],
                m.expert_size,
                hidden,
                &mut cache.states[layer],
                cos,
                sin,
            );
            proof {
                let after = cache@.states;
                let out = cpu_layer(
                    *self,
                    m.layers@[layer as int],
                    m.experts@[layer as int]@,
                    m.expert_size as int,
                    hb,
                    before[layer as int],
                    cos@,
                    sin@,
                );
                assert(after =~= before.update(layer as int, out.1));
                assert forall|l: int| 0 <= l < n implies layer_ready(
                    *self,
                    m.layers@[l],
                    #[trigger] after[l],
                    if l < layer + 1 {
                        t - 1
                    } else {
                        t
                    },
                ) by {
                    assert(layer_ready(
                        *self,
                        m.layers@[l],
                        before[l],
                        if l < layer {
                            t - 1
                        } else {
                            t
                        },
                    ));
                }
                assert forall|l: int| 0 <= l < n implies (#[trigger] after[l] is Full
                    <==> states0[l] is Full) by {
                    assert(before[l] is Full <==> states0[l] is Full);
                }
            }
        }
        (true, Ghost(asks))
    }

    /// Process a token; `None` if the signal stopped it.
    fn token<S: Scalar, B, G: Signal>(
        &self,
        m: &CpuModel,
        id: i64,
        cache: &mut Cache<S, B>,
        cos: &[S],
        sin: &[S],
        signal: &mut G,
        tokens: Ghost<int>,
    ) -> (r: (Option<Vec<S>>, Ghost<Seq<G>>))
        requires
            model_ready(*self, *m),
            id_ready(*self, *m, id),
            1 <= tokens@,
            old(cache).pos < usize::MAX,
            states_ready(*self, *m, old(cache)@.states, tokens@, 0),
            tables_ready(
                self.dims,
                old(cache)@.states,
                cos@.len() as int,
                sin@.len() as int,
            ),
        ensures
            match r.0 {
                Some(logits) => {
                    &&& asked(
                        r.1@,
                        questions(self.num_layers as int),
                        false,
                        *old(signal),
                        *final(signal),
                    )
                    &&& (logits@, final(cache)@) == cpu_token(
                        *self,
                        *m,
                        id,
                        old(cache)@,
                        cos@,
                        sin@,
                    )
                    &&& states_ready(*self, *m, final(cache)@.states, tokens@ - 1, 0)
                    &&& forall|l: int|
                        0 <= l < self.num_layers ==> (#[trigger] final(cache)@.states[l] is Full
                            <==> old(cache)@.states[l] is Full)
                },
                None => {
                    let q = r.1@.len() - 1;
                    &&& q <= questions(self.num_layers as int)
                    &&& asked(r.1@, q, true, *old(signal), *final(signal))
                    &&& final(cache)@.pos == old(cache)@.pos
                    &&& final(cache)@.states == layers_until(
                        *self,
                        *m,
                        token_embedding::<S>(*self, *m, id),
                        old(cache)@.states,
                        cos@,
                        sin@,
                        q,
                    )
                },
            },
    {
        let hd: usize = self.dims.hidden_dim;
        let vs: usize = self.vocab_size;
        let mut hidden: Vec<S> = zero_vec(hd);
        assert(hidden@ =~= zero_seq(hd as int));
        embed_lookup(
            m.embed,
            m.embed_cols,
            m.embed_groups,
            id as usize,
            hidden.as_mut_slice(),
            hd,
        );
        let (done, asks) = self.layers(
            m,
            hidden.as_mut_slice(),
            cache,
            cos,
            sin,
            signal,
            tokens,
        );
        if !done {
            return (None, asks);
        }
        cache.pos = cache.pos + 1;
        let mut logits: Vec<S> = zero_vec(vs);
        assert(logits@ =~= zero_seq(vs as int));
        final_norm_and_lm_head(
            m.final_norm,
            m.lm_head,
            hidden.as_mut_slice(),
            logits.as_mut_slice(),
            vs,
            hd,
        );
        proof {
            let st = cache@.states;
            assert forall|l: int| 0 <= l < st.len() implies layer_ready(
                *self,
                m.layers@[l],
                #[trigger] st[l],
                if l < 0 {
                    tokens@ - 1 - 1
                } else {
                    tokens@ - 1
                },
            ) by {
                assert(layer_ready(*self, m.layers@[l], st[l], tokens@ - 1));
            }
        }
        (Some(logits), asks)
    }

    /// Process tokens: the logits of each, one row behind the other. `cos` and `sin` hold the
    /// rotation tables of each token. The signal is asked before every fourth layer of every
    /// token; an answer to stop ends the computation with an error and leaves the cache as far
    /// as it came.
    pub fn forward<S: Scalar, B, G: Signal>(
        &self,
        m: &CpuModel,
        input_ids: &[i64],
        cache: &mut Cache<S, B>,
        cos: &[Vec<S>],
        sin: &[Vec<S>],
        signal: &mut G,
    ) -> (r: Result<Vec<S>, String>)
        requires
            model_ready(*self, *m),
            old(cache).pos + input_ids@.len() <= usize::MAX,
            states_ready(*self, *m, old(cache)@.states, input_ids@.len() as int, 0),
            cos@.len() == input_ids@.len(),
            sin@.len() == input_ids@.len(),
            forall|i: int|
                0 <= i < input_ids@.len() ==> id_ready(*self, *m, #[trigger] input_ids@[i]),
            forall|i: int|
                #![trigger cos@[i]]
                0 <= i < input_ids@.len() ==> tables_ready(
                    self.dims,
                    old(cache)@.states,
                    cos@[i]@.len() as int,
                    sin@[i]@.len() as int,
                ),
        ensures
            cpu_forwarded(
                *self,
                *m,
                input_ids@,
                cos@,
                sin@,
                (old(cache)@, *old(signal)),
                (final(cache)@, *final(signal)),
                r,
            ),
    {
        let n: usize = input_ids.len();
        let mut logits: Vec<S> = Vec::new();
        let ghost c0 = cache@;
        let ghost per = questions(self.num_layers as int);
        let ghost mut asks: Seq<G> = seq![*signal];
        assert(0 * per == 0);
        for ti in 0..n
            invariant
                n == input_ids@.len(),
                c0 == old(cache)@,
                cache.pos + (n - ti) <= usize::MAX,
                model_ready(*self, *m),
                states_ready(*self, *m, cache@.states, n - ti, 0),
                cos@.len() == n,
                sin@.len() == n,
                forall|i: int| 0 <= i < n ==> id_ready(*self, *m, #[trigger] input_ids@[i]),
                forall|i: int|
                    #![trigger cos@[i]]
                    0 <= i < n ==> tables_ready(
                        self.dims,
                        c0.states,
                        cos@[i]@.len() as int,
                        sin@[i]@.len() as int,
                    ),
                c0.states.len() == self.num_layers,
                forall|l: int|
                    0 <= l < self.num_layers ==> (#[trigger] cache@.states[l] is Full
                        <==> c0.states[l] is Full),
                (logits@, cache@) == cpu_tokens(
                    *self,
                    *m,
                    input_ids@,
                    c0,
                    cos@,
                    sin@,
                    ti as int,
                ),
                per == questions(self.num_layers as int),
                asked(asks, ti * per, false, *old(signal), *signal),
        {
            proof {
                let i = ti as int;
                assert(id_ready(*self, *m, input_ids@[i]));
                let cl = cos@[i]@.len() as int;
                let sl = sin@[i]@.len() as int;
                assert(tables_ready(self.dims, c0.states, cl, sl));
                assert forall|l: int|
                    0 <= l < cache@.states.len() && (
                    #[trigger] cache@.states[l]) is Full implies rope_ready(
                    self.dims,
                    RopePairs::Halves,
                    cl,
                    sl,
                ) by {
                    assert(c0.states[l] is Full);
                }
            }
            let ghost left = n - ti;
            let ghost before = cache@.states;
            let ghost signal0 = *signal;
            let (row, new_asks) = self.token(
                m,
                input_ids[ti],
                cache,
                cos[ti].as_slice(),
                sin[ti].as_slice(),
                signal,
                Ghost(left),
            );
            let ghost q = new_asks@.len() - 1;
            proof {
                lemma_asked_join(
                    asks,
                    ti * per,
                    new_asks@,
                    q,
                    row is None,
                    *old(signal),
                    signal0,
                    *signal,
                );
                asks = asks.drop_last() + new_asks@;
                assert(ti * per + per == (ti + 1) * per) by (nonlinear_arith);
                assert((ti + 1) * per <= n * per) by (nonlinear_arith)
                    requires
                        ti < n,
                        0 <= per,
                ;
            }
            let mut row: Vec<S> = match row {
                Some(row) => row,
                None => {
                    let r: Result<Vec<S>, String> = Err(String::from_str("interrupted"));
                    proof {
                        let x = ti * per + q - 1;
                        assert(x == per * ti + (q - 1)) by (nonlinear_arith)
                            requires
                                x == ti * per + q - 1,
                        ;
                        vstd::arithmetic::div_mod::lemma_fundamental_div_mod_converse(
                            x,
                            per,
                            ti as int,
                            q - 1,
                        );
                        assert(cpu_outcome(
                            asks,
                            *self,
                            *m,
                            input_ids@,
                            cos@,
                            sin@,
                            (c0, *old(signal)),
                            (cache@, *signal),
                            r,
                        ));
                    }
                    return r;
                },
            };
            proof {
                assert forall|l: int| 0 <= l < self.num_layers implies (
                #[trigger] cache@.states[l] is Full <==> c0.states[l] is Full) by {
                    assert(before[l] is Full <==> c0.states[l] is Full);
                }
            }
            logits.append(&mut row);
        }
        let r: Result<Vec<S>, String> = Ok(logits);
        assert(cpu_outcome(
            asks,
            *self,
            *m,
            input_ids@,
            cos@,
            sin@,
            (c0, *old(signal)),
            (cache@, *signal),
            r,
        ));
        r
    }
}

/// A signal that never answers to stop never stops the computation.
pub proof fn law_quiet_signal<S: Scalar, B, G: Signal>(
    e: EngineCPU,
    m: CpuModel,
    ids: Seq<i64>,
    cos: Seq<Vec<S>>,
    sin: Seq<Vec<S>>,
    before: (CacheView<S, B>, G),
    after: (CacheView<S, B>, G),
    r: Result<Vec<S>, String>,
)
    requires
        cpu_forwarded(e, m, ids, cos, sin, before, after, r),
        forall|a: G, b: G| !#[trigger] G::may_answer(a, b, true),
    ensures
        r is Ok,
{
    let asks = choose|asks: Seq<G>| cpu_outcome(asks, e, m, ids, cos, sin, before, after, r);
    if r is Err {
        assert(is_answer(asks, asks.len() - 2, true));
    }
}

/// Without tokens nothing is asked, nothing fails and nothing changes.
pub proof fn law_no_tokens<S: Scalar, B, G: Signal>(
    e: EngineCPU,
    m: CpuModel,
    cos: Seq<Vec<S>>,
    sin: Seq<Vec<S>>,
    before: (CacheView<S, B>, G),
    after: (CacheView<S, B>, G),
    r: Result<Vec<S>, String>,
)
    requires
        cpu_forwarded(e, m, Seq::empty(), cos, sin, before, after, r),
    ensures
        r matches Ok(logits) && logits@.len() == 0,
        after == before,
{
    let ids = Seq::<i64>::empty();
    let asks = choose|asks: Seq<G>| cpu_outcome(asks, e, m, ids, cos, sin, before, after, r);
    assert(0 * questions(e.num_layers as int) == 0);
    assert(cpu_outcome(asks, e, m, ids, cos, sin, before, after, r));
}

/// Processing tokens in two parts gives the same logits and the same cache as processing them
/// at once.
pub proof fn law_tokens_split<S: Scalar, B>(
    e: EngineCPU,
    m: CpuModel,
    ids: Seq<i64>,
    cache: CacheView<S, B>,
    cos: Seq<Vec<S>>,
    sin: Seq<Vec<S>>,
    a: int,
    n: int,
)
    requires
        0 <= a <= n <= ids.len(),
        cos.len() == ids.len(),
        sin.len() == ids.len(),
    ensures
        ({
            let first = cpu_tokens(e, m, ids, cache, cos, sin, a);
            let rest = cpu_tokens(
                e,
                m,
                ids.skip(a),
                first.1,
                cos.skip(a),
                sin.skip(a),
                n - a,
            );
            cpu_tokens(e, m, ids, cache, cos, sin, n) == (first.0 + rest.0, rest.1)
        }),
    decreases n,
{
    let first = cpu_tokens(e, m, ids, cache, cos, sin, a);
    if n == a {
        assert(first.0 + Seq::<S>::empty() =~= first.0);
    } else {
        law_tokens_split(e, m, ids, cache, cos, sin, a, n - 1);
        let rest = cpu_tokens(e, m, ids.skip(a), first.1, cos.skip(a), sin.skip(a), n - 1 - a);
        let out = cpu_token(e, m, ids[n - 1], rest.1, cos[n - 1]@, sin[n - 1]@);
        assert(ids.skip(a)[n - 1 - a] == ids[n - 1]);
        assert(cos.skip(a)[n - 1 - a] == cos[n - 1]);
        assert(sin.skip(a)[n - 1 - a] == sin[n - 1]);
        assert((first.0 + rest.0) + out.0 =~= first.0 + (rest.0 + out.0));
    }
}

/// A layer, number by number: what attention leaves, plus what the chosen experts add up to, plus
/// the shared expert's output times the logistic function of its score. Attention works on the
/// hidden state normed with the input weights and adds to the hidden state itself; routing and
/// experts work on what attention leaves, normed with the weights behind attention. The experts
/// are those with the highest softmax of the router's rows, each with its share of the scores
/// as its weight and its own bytes of the layer's file.
pub proof fn law_layer<S: Scalar, B>(
    e: EngineCPU,
    w: LayerWeights,
    file: Seq<u8>,
    size: int,
    hidden: Seq<S>,
    state: StateView<S, B>,
    cos: Seq<S>,
    sin: Seq<S>,
    i: int,
)
    requires
        0 < e.dims.group_size,
        e.dims.group_size % 8 == 0,
        hidden.len() == e.dims.hidden_dim,
        0 <= i < e.dims.hidden_dim,
    ensures
        ({
            let d = e.dims;
            let hd = d.hidden_dim as int;
            let gs = d.group_size as int;
            let zeros = Seq::new(hd as nat, |j: int| zero::<S>());
            let x = input_normed(hidden, w.input_norm, zeros, d.hidden_dim, norm_eps());
            let full = |k: Seq<S>, v: Seq<S>, len: int|
                full_attended(
                    d,
                    w.attn,
                    NormOrder::WeightFirst,
                    RopePairs::Halves,
                    GateForm::Over,
                    x,
                    hidden,
                    hidden,
                    k,
                    v,
                    len,
                    cos,
                    sin,
                );
            let linear = |conv: Seq<S>, ssm: Seq<S>|
                linear_attended(d, w.linear, x, hidden, hidden, conv, ssm);
            let mid = match state {
                StateView::Full { k, v, len } => full(k, v, len).hidden,
                StateView::Linear { conv, ssm, gpu } => linear(conv, ssm).hidden,
            };
            let h = input_normed(mid, w.post_attn_norm, zeros, d.hidden_dim, norm_eps());
            let scores = softmax_of(
                rows_of(w.moe.gate, h, d.num_experts as int, hd, gs),
                0,
                d.num_experts as int,
            );
            let chosen = best(scores, d.experts_per_tok);
            let weights = normalized(of_bits::<S>(chosen.values));
            let blobs = chosen_bytes(file, chosen.indices, size);
            let experts = expert_sum(
                d,
                e.parts,
                blobs,
                weights,
                h,
                zero(),
                chosen.indices.len() as int,
                i,
            );
            let shared = row_of(
                w.moe.shared_down,
                shared_activation(d, w.moe, h),
                d.shared_inter as int,
                gs,
                i,
            );
            let score = row_of(w.moe.shared_expert_gate, h, hd, gs, 0);
            let gate = one::<S>().s_over(one::<S>().s_plus(score.s_neg().s_exp()));
            let r = cpu_layer(e, w, file, size, hidden, state, cos, sin);
            &&& r.0.len() == hd
            &&& r.0[i] == mid[i].s_plus(experts).s_plus(gate.s_times(shared))
            &&& match state {
                StateView::Full { k, v, len } => r.1 == StateView::<S, B>::Full {
                    k: full(k, v, len).k_cache,
                    v: full(k, v, len).v_cache,
                    len: len + 1,
                },
                StateView::Linear { conv, ssm, gpu } => r.1 == StateView::<S, B>::Linear {
                    conv: linear(conv, ssm).conv,
                    ssm: linear(conv, ssm).ssm,
                    gpu,
                },
            }
        }),
{
    let d = e.dims;
    let hd = d.hidden_dim as int;
    let gs = d.group_size as int;
    let zeros = Seq::new(hd as nat, |j: int| zero::<S>());
    assert(zeros =~= zero_seq::<S>(hd));
    let x = input_normed(hidden, w.input_norm, zeros, d.hidden_dim, norm_eps());
    let mid = match state {
        StateView::Full { k, v, len } => full_attended(
            d,
            w.attn,
            NormOrder::WeightFirst,
            RopePairs::Halves,
            GateForm::Over,
            x,
            hidden,
            hidden,
            k,
            v,
            len,
            cos,
            sin,
        ).hidden,
        StateView::Linear { conv, ssm, gpu } => linear_attended(
            d,
            w.linear,
            x,
            hidden,
            hidden,
            conv,
            ssm,
        ).hidden,
    };
    let h = input_normed(mid, w.post_attn_norm, zeros, d.hidden_dim, norm_eps());
    law_router_scores(d, w.moe, h, zero_seq::<S>(d.num_experts as int));
    let chosen = best(moe_scores(d, w.moe, h), d.experts_per_tok);
    let weights = normalized(of_bits::<S>(chosen.values));
    if let Some(m) = w.moe.shared_expert_gate {
        law_matvec(m.quant(), h, 1, hd, gs, 0);
    }
    law_moe_output(
        d,
        w.moe,
        e.parts,
        chosen_bytes(file, chosen.indices, size),
        weights,
        shared_activation(d, w.moe, h),
        shared_score(d, w.moe.shared_expert_gate, h),
        h,
        mid,
        i,
    );
}

/// The layers of a model run one after the other: layer `l` takes what the layers before it
/// leave, changes its own state and no other.
pub proof fn law_layers<S: Scalar, B>(
    e: EngineCPU,
    m: CpuModel,
    hidden: Seq<S>,
    states: Seq<StateView<S, B>>,
    cos: Seq<S>,
    sin: Seq<S>,
    n: int,
    l: int,
)
    requires
        0 <= n <= states.len(),
        0 <= l < states.len(),
    ensures
        ({
            let r = cpu_layers(e, m, hidden, states, cos, sin, n);
            let before = cpu_layers(e, m, hidden, states, cos, sin, l);
            let out = cpu_layer(
                e,
                m.layers@[l],
                m.experts@[l]@,
                m.expert_size as int,
                before.0,
                states[l],
                cos,
                sin,
            );
            &&& r.1.len() == states.len()
            &&& n == 0 ==> r.0 == hidden
            &&& r.1[l] == (if l < n {
                out.1
            } else {
                states[l]
            })
            &&& l == n - 1 ==> r.0 == out.0
        }),
    decreases n,
{
    if n > 0 {
        law_layers(e, m, hidden, states, cos, sin, n - 1, l);
        if l == n - 1 {
            assert(cpu_layers(e, m, hidden, states, cos, sin, l).1[l] == states[l]);
        }
    }
}

/// The logits of a token, number by number: row `v` of the head times the normed output of the
/// last layer, which starts from the token's embedding. The position moves on by one.
pub proof fn law_token<S: Scalar, B>(
    e: EngineCPU,
    m: CpuModel,
    id: i64,
    cache: CacheView<S, B>,
    cos: Seq<S>,
    sin: Seq<S>,
    v: int,
)
    requires
        0 <= v < e.vocab_size,
    ensures
        ({
            let hd = e.dims.hidden_dim as int;
            let zeros = Seq::new(hd as nat, |j: int| zero::<S>());
            let x = embedding(
                m.embed,
                id as int,
                m.embed_cols as int,
                m.embed_groups as int,
                hd,
                zeros,
            );
            let out = cpu_layers(e, m, x, cache.states, cos, sin, e.num_layers as int);
            let h = match m.final_norm {
                Some(w) => overwrite(out.0, 0, final_normed(out.0, w@, e.dims.hidden_dim)),
                None => out.0,
            };
            let r = cpu_token(e, m, id, cache, cos, sin);
            &&& r.0.len() == e.vocab_size
            &&& r.0[v] == row_of(m.lm_head, h, hd, 64, v)
            &&& r.1.pos == cache.pos + 1
            &&& r.1.states == out.1
        }),
{
    let hd = e.dims.hidden_dim as int;
    let vs = e.vocab_size as int;
    let zeros = Seq::new(hd as nat, |j: int| zero::<S>());
    assert(zeros =~= zero_seq::<S>(hd));
    let x = token_embedding::<S>(e, m, id);
    let out = cpu_layers(e, m, x, cache.states, cos, sin, e.num_layers as int);
    let h = match m.final_norm {
        Some(w) => overwrite(out.0, 0, final_normed(out.0, w@, e.dims.hidden_dim)),
        None => out.0,
    };
    law_fresh_projection(m.lm_head, h, zero_seq::<S>(vs), vs, hd, 64);
}

/// Tokens are processed one after the other, each with the rotation of its own position and with
/// the cache that those before it left; the logits of token `t` are row `t` of the result.
pub proof fn law_tokens<S: Scalar, B>(
    e: EngineCPU,
    m: CpuModel,
    ids: Seq<i64>,
    cache: CacheView<S, B>,
    cos: Seq<Vec<S>>,
    sin: Seq<Vec<S>>,
    n: int,
    t: int,
    v: int,
)
    requires
        0 <= t < n <= ids.len(),
        0 <= v < e.vocab_size,
    ensures
        ({
            let vs = e.vocab_size as int;
            let r = cpu_tokens(e, m, ids, cache, cos, sin, n);
            let before = cpu_tokens(e, m, ids, cache, cos, sin, t);
            let out = cpu_token(e, m, ids[t], before.1, cos[t]@, sin[t]@);
            &&& r.0.len() == n * vs
            &&& r.0[t * vs + v] == out.0[v]
            &&& t == n - 1 ==> r.1 == out.1
            &&& cpu_tokens(e, m, ids, cache, cos, sin, 0) == (Seq::<S>::empty(), cache)
        }),
    decreases n,
{
    let vs = e.vocab_size as int;
    lemma_tokens_len(e, m, ids, cache, cos, sin, n);
    lemma_tokens_len(e, m, ids, cache, cos, sin, n - 1);
    lemma_within(t, n, vs, v + 1);
    if t < n - 1 {
        lemma_within(t, n - 1, vs, v + 1);
        law_tokens(e, m, ids, cache, cos, sin, n - 1, t, v);
    }
}

proof fn lemma_tokens_len<S: Scalar, B>(
    e: EngineCPU,
    m: CpuModel,
    ids: Seq<i64>,
    cache: CacheView<S, B>,
    cos: Seq<Vec<S>>,
    sin: Seq<Vec<S>>,
    n: int,
)
    requires
        0 <= n,
        0 < e.vocab_size,
    ensures
        cpu_tokens(e, m, ids, cache, cos, sin, n).0.len() == n * e.vocab_size,
    decreases n,
{
    let vs = e.vocab_size as int;
    if n > 0 {
        lemma_tokens_len(e, m, ids, cache, cos, sin, n - 1);
        let before = cpu_tokens(e, m, ids, cache, cos, sin, n - 1);
        law_token(e, m, ids[n - 1], before.1, cos[n - 1]@, sin[n - 1]@, 0);
        assert(n * vs == (n - 1) * vs + vs) by (nonlinear_arith);
    } else {
        assert(n * vs == 0) by (nonlinear_arith)
            requires
                n == 0,
        ;
    }
}

/// The signal is asked once in front of every fourth layer of a token.
pub proof fn law_questions(layers: int)
    requires
        0 <= layers,
    ensures
        questions(0) == 0,
        questions(layers + 1) == questions(layers) + (if layers % 4 == 0 {
            1int
        } else {
            0int
        }),
{
}

proof fn lemma_tokens_pos<S: Scalar, B>(
    e: EngineCPU,
    m: CpuModel,
    ids: Seq<i64>,
    cache: CacheView<S, B>,
    cos: Seq<Vec<S>>,
    sin: Seq<Vec<S>>,
    n: int,
)
    requires
        0 <= n,
    ensures
        cpu_tokens(e, m, ids, cache, cos, sin, n).1.pos == cache.pos + n,
    decreases n,
{
    if n > 0 {
        lemma_tokens_pos(e, m, ids, cache, cos, sin, n - 1);
    }
}

/// What `t` whole tokens and `l` layers of the next one leave in the cache: the position behind
/// the whole tokens, and the states behind those layers.
pub open spec fn stopped_at<S: Scalar, B>(
    e: EngineCPU,
    m: CpuModel,
    ids: Seq<i64>,
    cache: CacheView<S, B>,
    cos: Seq<Vec<S>>,
    sin: Seq<Vec<S>>,
    t: int,
    l: int,
) -> CacheView<S, B> {
    let done = cpu_tokens(e, m, ids, cache, cos, sin, t).1;
    let x = token_embedding(e, m, ids[t]);
    CacheView {
        pos: cache.pos + t,
        states: cpu_layers(e, m, x, done.states, cos[t]@, sin[t]@, l).1,
    }
}

/// An interrupted call stops in front of a fourth layer of one of its tokens: all tokens before
/// it are whole, and of that token just the layers in front of it have run.
pub proof fn law_interrupted<S: Scalar, B, G: Signal>(
    e: EngineCPU,
    m: CpuModel,
    ids: Seq<i64>,
    cos: Seq<Vec<S>>,
    sin: Seq<Vec<S>>,
    before: (CacheView<S, B>, G),
    after: (CacheView<S, B>, G),
    r: Result<Vec<S>, String>,
)
    requires
        cpu_forwarded(e, m, ids, cos, sin, before, after, r),
        r is Err,
    ensures
        exists|t: int, l: int|
            0 <= t < ids.len() && 0 <= l < e.num_layers && l % 4 == 0 && after.0
                == #[trigger] stopped_at(e, m, ids, before.0, cos, sin, t, l),
{
    let asks = choose|asks: Seq<G>| cpu_outcome(asks, e, m, ids, cos, sin, before, after, r);
    let per = questions(e.num_layers as int);
    let q = asks.len() - 1;
    assert(0 < q <= ids.len() * per);
    if per == 0 {
        assert(ids.len() * per == 0) by (nonlinear_arith)
            requires
                per == 0,
        ;
    }
    let t = (q - 1) / per;
    let i = (q - 1) % per;
    vstd::arithmetic::div_mod::lemma_fundamental_div_mod(q - 1, per);
    vstd::arithmetic::div_mod::lemma_mod_bound(q - 1, per);
    vstd::arithmetic::div_mod::lemma_div_pos_is_pos(q - 1, per);
    assert(t < ids.len()) by (nonlinear_arith)
        requires
            per * t <= q - 1,
            q <= ids.len() * per,
            0 < per,
    ;
    lemma_tokens_pos(e, m, ids, before.0, cos, sin, t);
    let l = 4 * i;
    assert(after.0 == stopped_at(e, m, ids, before.0, cos, sin, t, l));
}

} // verus!
