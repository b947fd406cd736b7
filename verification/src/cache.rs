//! Per-layer state of a sequence, and the position in it.
//!
//! `S` is the type of the numbers, `B` a handle of a device buffer.

use vstd::prelude::*;

use crate::attention::product3;
use crate::constants::{CONV_KERNEL_SIZE, FULL_ATTN_INTERVAL, MAX_SEQ};
use crate::run_config::within;
use crate::scalar::{zero, zero_of, zero_vec, Scalar};

verus! {

/// Keys and values of a full-attention layer.
pub struct FullState<S> {
    pub k_cache: Vec<S>,
    pub v_cache: Vec<S>,
    /// Number of positions that are filled.
    pub len: usize,
}

impl<S: Scalar> FullState<S> {
    /// An empty state with room for `max_seq` positions.
    pub fn new(max_seq: usize, kv_dim: usize) -> (r: Self)
        requires
            max_seq * kv_dim <= usize::MAX,
        ensures
            r.k_cache@ == zeros::<S>((max_seq * kv_dim) as nat),
            r.v_cache@ == zeros::<S>((max_seq * kv_dim) as nat),
            r.len == 0,
    {
        FullState {
            k_cache: zero_vec(max_seq * kv_dim),
            v_cache: zero_vec(max_seq * kv_dim),
            len: 0,
        }
    }
}

/// Convolution and recurrent state of a linear-attention layer.
pub struct LinearState<S, B> {
    pub conv_state: Vec<S>,
    pub ssm_state: Vec<S>,
    /// The recurrent state on the device, once it was uploaded.
    pub ssm_state_gpu: Option<B>,
}

/// No device buffer: what a state that was read from a file starts with.
pub fn default_ssm_gpu<B>() -> (r: Option<B>)
    ensures
        r is None,
{
    None
}

impl<S: Scalar, B> LinearState<S, B> {
    /// The state before the first token.
    pub fn new(num_v_heads: usize, key_dim: usize, value_dim: usize, qkv_dim: usize) -> (r: Self)
        requires
            (CONV_KERNEL_SIZE - 1) * qkv_dim <= usize::MAX,
            num_v_heads * value_dim <= usize::MAX,
            num_v_heads * value_dim * key_dim <= usize::MAX,
        ensures
            r.conv_state@ == zeros::<S>(((CONV_KERNEL_SIZE - 1) * qkv_dim) as nat),
            r.ssm_state@ == zeros::<S>((num_v_heads * value_dim * key_dim) as nat),
            r.ssm_state_gpu is None,
    {
        LinearState {
            conv_state: zero_vec((CONV_KERNEL_SIZE - 1) * qkv_dim),
            ssm_state: zero_vec(product3(num_v_heads, value_dim, key_dim)),
            ssm_state_gpu: default_ssm_gpu(),
        }
    }
}

/// State of one layer.
pub enum State<S, B> {
    Full(FullState<S>),
    Linear(LinearState<S, B>),
}

/// What a layer's state holds.
pub enum StateView<S, B> {
    Full { k: Seq<S>, v: Seq<S>, len: int },
    Linear { conv: Seq<S>, ssm: Seq<S>, gpu: Option<B> },
}

/// A sequence of zeros.
pub open spec fn zeros<S: Scalar>(n: nat) -> Seq<S> {
    Seq::new(n, |i: int| zero::<S>())
}

impl<S, B> View for State<S, B> {
    type V = StateView<S, B>;

    open spec fn view(&self) -> StateView<S, B> {
        match self {
            State::Full(s) => StateView::Full {
                k: s.k_cache@,
                v: s.v_cache@,
                len: s.len as int,
            },
            State::Linear(s) => StateView::Linear {
                conv: s.conv_state@,
                ssm: s.ssm_state@,
                gpu: s.ssm_state_gpu,
            },
        }
    }
}

impl<S: Scalar, B> StateView<S, B> {
    /// The state with a full-attention layer's length set.
    pub open spec fn with_len(self, pos: int) -> Self {
        match self {
            StateView::Full { k, v, len } => StateView::Full { k, v, len: pos },
            StateView::Linear { conv, ssm, gpu } => self,
        }
    }

    /// The state with a linear-attention layer's numbers zeroed.
    pub open spec fn cleared(self) -> Self {
        match self {
            StateView::Full { k, v, len } => self,
            StateView::Linear { conv, ssm, gpu } => StateView::Linear {
                conv: zeros(conv.len()),
                ssm: zeros(ssm.len()),
                gpu,
            },
        }
    }

    /// Both states are of one kind and one size.
    pub open spec fn fits(self, other: Self) -> bool {
        match (self, other) {
            (StateView::Full { k, v, len }, StateView::Full { k: k2, v: v2, len: len2 }) => {
                k.len() == k2.len() && v.len() == v2.len()
            },
            (
                StateView::Linear { conv, ssm, gpu },
                StateView::Linear { conv: conv2, ssm: ssm2, gpu: gpu2 },
            ) => { conv.len() == conv2.len() && ssm.len() == ssm2.len() },
            _ => false,
        }
    }

    /// The state with the numbers of another; a device buffer stays as it is.
    pub open spec fn copied(self, other: Self) -> Self {
        match (self, other) {
            (
                StateView::Linear { conv, ssm, gpu },
                StateView::Linear { conv: conv2, ssm: ssm2, gpu: gpu2 },
            ) => StateView::Linear { conv: conv2, ssm: ssm2, gpu },
            _ => other,
        }
    }
}

impl<S, B> State<S, B> {
    /// The full-attention state.
    pub fn as_full(&self) -> (r: &FullState<S>)
        requires
            self is Full,
        ensures
            *self == State::<S, B>::Full(*r),
    {
        match self {
            State::Full(s) => s,
            State::Linear(s) => {
                assert(false);
                vstd::pervasive::unreached()
            },
        }
    }

    /// The full-attention state, to change it.
    pub fn as_full_mut(&mut self) -> (r: &mut FullState<S>)
        requires
            *old(self) is Full,
        ensures
            *old(self) == State::<S, B>::Full(*r),
            *final(self) == State::<S, B>::Full(*final(r)),
    {
        match self {
            State::Full(s) => s,
            State::Linear(s) => {
                assert(false);
                vstd::pervasive::unreached()
            },
        }
    }

    /// The linear-attention state.
    pub fn as_linear(&self) -> (r: &LinearState<S, B>)
        requires
            self is Linear,
        ensures
            *self == State::<S, B>::Linear(*r),
    {
        match self {
            State::Linear(s) => s,
            State::Full(s) => {
                assert(false);
                vstd::pervasive::unreached()
            },
        }
    }

    /// The linear-attention state, to change it.
    pub fn as_linear_mut(&mut self) -> (r: &mut LinearState<S, B>)
        requires
            *old(self) is Linear,
        ensures
            *old(self) == State::<S, B>::Linear(*r),
            *final(self) == State::<S, B>::Linear(*final(r)),
    {
        match self {
            State::Linear(s) => s,
            State::Full(s) => {
                assert(false);
                vstd::pervasive::unreached()
            },
        }
    }
}

/// Whether a layer has full attention.
pub open spec fn full_layer(layer: int) -> bool {
    (layer + 1) % (FULL_ATTN_INTERVAL as int) == 0
}

/// Whether a layer has full attention: every fourth has.
pub fn is_full_layer(layer: usize) -> (r: bool)
    requires
        layer < usize::MAX,
    ensures
        r == full_layer(layer as int),
{
    (layer + 1) % FULL_ATTN_INTERVAL == 0
}

/// Sizes that a cache is made for.
#[derive(Clone, Copy, Debug, PartialEq, Eq, Structural)]
pub struct CacheDims {
    pub num_layers: usize,
    pub num_kv_heads: usize,
    pub head_dim: usize,
    pub linear_num_v_heads: usize,
    pub linear_num_k_heads: usize,
    pub linear_total_key: usize,
    pub linear_total_value: usize,
    pub linear_conv_dim: usize,
}

impl CacheDims {
    /// Numbers in the keys of a full-attention layer.
    pub open spec fn kv_len(self) -> int {
        MAX_SEQ * (self.num_kv_heads * self.head_dim)
    }

    /// Numbers in the convolution state of a linear-attention layer.
    pub open spec fn conv_len(self) -> int {
        (CONV_KERNEL_SIZE - 1) * self.linear_conv_dim
    }

    /// Width of a value head.
    pub open spec fn value_dim(self) -> int {
        self.linear_total_value as int / self.linear_num_v_heads as int
    }

    /// Width of a key head.
    pub open spec fn key_dim(self) -> int {
        self.linear_total_key as int / self.linear_num_k_heads as int
    }

    /// Numbers in the recurrent state of a linear-attention layer.
    pub open spec fn ssm_len(self) -> int {
        self.linear_num_v_heads * self.value_dim() * self.key_dim()
    }

    /// The sizes can be computed and fit.
    pub open spec fn valid(self) -> bool {
        &&& self.num_layers < usize::MAX
        &&& self.linear_num_k_heads > 0
        &&& self.linear_num_v_heads > 0
        &&& self.num_kv_heads * self.head_dim <= usize::MAX
        &&& self.kv_len() <= usize::MAX
        &&& self.conv_len() <= usize::MAX
        &&& self.linear_num_v_heads * self.value_dim() <= usize::MAX
        &&& self.ssm_len() <= usize::MAX
    }

    /// Whether the sizes can be computed and fit.
    pub fn is_valid(&self) -> (r: bool)
        ensures
            r == self.valid(),
    {
        if self.num_layers == usize::MAX || self.linear_num_k_heads == 0
            || self.linear_num_v_heads == 0 {
            return false;
        }
        let value_dim: usize = self.linear_total_value / self.linear_num_v_heads;
        let key_dim: usize = self.linear_total_key / self.linear_num_k_heads;
        if !within(self.num_kv_heads, self.head_dim, 0, 0, usize::MAX) || !within(
            self.linear_num_v_heads,
            value_dim,
            0,
            0,
            usize::MAX,
        ) {
            return false;
        }
        within(MAX_SEQ, self.num_kv_heads * self.head_dim, 0, 0, usize::MAX) && within(
            CONV_KERNEL_SIZE - 1,
            self.linear_conv_dim,
            0,
            0,
            usize::MAX,
        ) && within(self.linear_num_v_heads * value_dim, key_dim, 0, 0, usize::MAX)
    }

    /// What a layer starts with.
    pub open spec fn fresh<S: Scalar, B>(self, layer: int) -> StateView<S, B> {
        if full_layer(layer) {
            StateView::Full {
                k: zeros(self.kv_len() as nat),
                v: zeros(self.kv_len() as nat),
                len: 0,
            }
        } else {
            StateView::Linear {
                conv: zeros(self.conv_len() as nat),
                ssm: zeros(self.ssm_len() as nat),
                gpu: None,
            }
        }
    }
}

/// The state of all layers, and the position of the next token.
pub struct Cache<S, B> {
    pub pos: usize,
    pub states: Vec<State<S, B>>,
}

/// What a cache holds.
pub struct CacheView<S, B> {
    pub pos: int,
    pub states: Seq<StateView<S, B>>,
}

impl<S, B> View for Cache<S, B> {
    type V = CacheView<S, B>;

    open spec fn view(&self) -> CacheView<S, B> {
        CacheView {
            pos: self.pos as int,
            states: Seq::new(self.states@.len(), |i: int| self.states@[i]@),
        }
    }
}

impl<S: Scalar, B> CacheView<S, B> {
    /// Every full-attention layer is filled up to the position.
    pub open spec fn synced(self) -> bool {
        forall|i: int|
            0 <= i < self.states.len() && (#[trigger] self.states[i]) is Full
                ==> self.states[i]->len == self.pos
    }

    /// At a position, with all full-attention layers filled up to it.
    pub open spec fn at(self, pos: int) -> Self {
        CacheView { pos, states: self.states.map_values(|s: StateView<S, B>| s.with_len(pos)) }
    }

    /// At the start, with the linear-attention layers cleared.
    pub open spec fn restarted(self) -> Self {
        CacheView {
            pos: 0,
            states: self.states.map_values(|s: StateView<S, B>| s.with_len(0).cleared()),
        }
    }

    /// Layers that both caches have.
    pub open spec fn shared(self, other: Self) -> int {
        if self.states.len() <= other.states.len() {
            self.states.len() as int
        } else {
            other.states.len() as int
        }
    }

    /// The layers that both caches have are of one kind and one size.
    pub open spec fn fits(self, other: Self) -> bool {
        forall|i: int|
            0 <= i < self.shared(other) ==> #[trigger] self.states[i].fits(other.states[i])
    }

    /// With the position and the layers of another cache, as far as both have them.
    pub open spec fn copied(self, other: Self) -> Self {
        CacheView {
            pos: other.pos,
            states: Seq::new(
                self.states.len(),
                |i: int|
                    if i < self.shared(other) {
                        self.states[i].copied(other.states[i])
                    } else {
                        self.states[i]
                    },
            ),
        }
    }
}

/// Set every number of a vector to zero.
fn clear_numbers<S: Scalar>(v: &mut Vec<S>)
    ensures
        final(v)@ == zeros::<S>(old(v)@.len()),
{
    let n: usize = v.len();
    for i in 0..n
        invariant
            n == v@.len(),
            v@.len() == old(v)@.len(),
            forall|j: int| 0 <= j < i ==> v@[j] == zero::<S>(),
    {
        v.set(i, zero_of());
    }
    assert(v@ =~= zeros::<S>(old(v)@.len()));
}

/// Copy all numbers of a vector into another of the same length.
fn copy_numbers<S: Scalar>(dst: &mut Vec<S>, src: &Vec<S>)
    requires
        old(dst)@.len() == src@.len(),
    ensures
        final(dst)@ == src@,
{
    let n: usize = dst.len();
    for i in 0..n
        invariant
            n == dst@.len(),
            n == src@.len(),
            forall|j: int| 0 <= j < i ==> dst@[j] == src@[j],
    {
        dst.set(i, src[i].dup());
    }
    assert(dst@ =~= src@);
}

impl<S: Scalar, B> Cache<S, B> {
    /// An empty cache: every fourth layer has full attention, the others linear attention.
    pub fn new(dims: &CacheDims) -> (r: Self)
        requires
            dims.valid(),
        ensures
            r@.pos == 0,
            r@.states.len() == dims.num_layers,
            forall|i: int|
                0 <= i < dims.num_layers ==> #[trigger] r@.states[i] == dims.fresh::<S, B>(i),
            r@.synced(),
    {
        let kv_dim: usize = dims.num_kv_heads * dims.head_dim;
        let key_dim: usize = dims.linear_total_key / dims.linear_num_k_heads;
        let value_dim: usize = dims.linear_total_value / dims.linear_num_v_heads;
        let n: usize = dims.num_layers;
        let mut states: Vec<State<S, B>> = Vec::new();
        for layer in 0..n
            invariant
                dims.valid(),
                n == dims.num_layers,
                kv_dim == dims.num_kv_heads * dims.head_dim,
                key_dim == dims.key_dim(),
                value_dim == dims.value_dim(),
                states@.len() == layer,
                forall|i: int| 0 <= i < layer ==> #[trigger] states@[i]@ == dims.fresh::<S, B>(i),
        {
            if is_full_layer(layer) {
                states.push(State::Full(FullState::new(MAX_SEQ, kv_dim)));
            } else {
                states.push(
                    State::Linear(
                        LinearState::new(
                            dims.linear_num_v_heads,
                            key_dim,
                            value_dim,
                            dims.linear_conv_dim,
                        ),
                    ),
                );
            }
        }
        Cache { pos: 0, states }
    }

    /// The full-attention state of a layer.
    pub fn full(&self, layer: usize) -> (r: &FullState<S>)
        requires
            layer < self.states@.len(),
            self.states@[layer as int] is Full,
        ensures
            self.states@[layer as int] == State::<S, B>::Full(*r),
    {
        self.states[layer].as_full()
    }

    /// The full-attention state of a layer, to change it.
    pub fn full_mut(&mut self, layer: usize) -> (r: &mut FullState<S>)
        requires
            layer < old(self).states@.len(),
            old(self).states@[layer as int] is Full,
        ensures
            old(self).states@[layer as int] == State::<S, B>::Full(*r),
            final(self).pos == old(self).pos,
            final(self).states@ == old(self).states@.update(
                layer as int,
                State::<S, B>::Full(*final(r)),
            ),
    {
        self.states[layer].as_full_mut()
    }

    /// The linear-attention state of a layer.
    pub fn lin(&self, layer: usize) -> (r: &LinearState<S, B>)
        requires
            layer < self.states@.len(),
            self.states@[layer as int] is Linear,
        ensures
            self.states@[layer as int] == State::<S, B>::Linear(*r),
    {
        self.states[layer].as_linear()
    }

    /// The linear-attention state of a layer, to change it.
    pub fn lin_mut(&mut self, layer: usize) -> (r: &mut LinearState<S, B>)
        requires
            layer < old(self).states@.len(),
            old(self).states@[layer as int] is Linear,
        ensures
            old(self).states@[layer as int] == State::<S, B>::Linear(*r),
            final(self).pos == old(self).pos,
            final(self).states@ == old(self).states@.update(
                layer as int,
                State::<S, B>::Linear(*final(r)),
            ),
    {
        self.states[layer].as_linear_mut()
    }

    /// Start over: position 0, and the linear-attention layers cleared.
    pub fn reset(&mut self)
        ensures
            final(self)@ == old(self)@.restarted(),
    {
        self.set_pos(0);
        let n: usize = self.states.len();
        let ghost before = self@;
        for i in 0..n
            invariant
                n == self.states@.len(),
                before == old(self)@.at(0),
                before.states.len() == n,
                self.pos == 0,
                forall|j: int| 0 <= j < i ==> #[trigger] self.states@[j]@ == before.states[j].cleared(),
                forall|j: int| i <= j < n ==> #[trigger] self.states@[j]@ == before.states[j],
        {
            assert(self.states@[i as int]@ == before.states[i as int]);
            match &mut self.states[i] {
                State::Linear(ls) => {
                    clear_numbers(&mut ls.conv_state);
                    clear_numbers(&mut ls.ssm_state);
                },
                State::Full(_) => {},
            }
        }
        assert(self@.states =~= old(self)@.restarted().states);
    }

    /// Move to a position, and take the full-attention layers as filled up to it.
    pub fn set_pos(&mut self, pos: usize)
        ensures
            final(self)@ == old(self)@.at(pos as int),
    {
        self.pos = pos;
        let n: usize = self.states.len();
        for i in 0..n
            invariant
                n == self.states@.len(),
                n == old(self).states@.len(),
                self.pos == pos,
                forall|j: int|
                    0 <= j < i ==> #[trigger] self.states@[j]@ == old(self).states@[j]@.with_len(
                        pos as int,
                    ),
                forall|j: int| i <= j < n ==> #[trigger] self.states@[j] == old(self).states@[j],
        {
            match &mut self.states[i] {
                State::Full(kv) => {
                    kv.len = pos;
                },
                State::Linear(_) => {},
            }
        }
        assert(self@.states =~= old(self)@.at(pos as int).states);
    }

    /// Take over position and numbers of another cache, layer by layer.
    pub fn copy_from(&mut self, other: &Cache<S, B>)
        requires
            old(self)@.fits(other@),
        ensures
            final(self)@ == old(self)@.copied(other@),
    {
        self.pos = other.pos;
        let n: usize = if self.states.len() <= other.states.len() {
            self.states.len()
        } else {
            other.states.len()
        };
        for i in 0..n
            invariant
                n == old(self)@.shared(other@),
                n <= self.states@.len(),
                n <= other.states@.len(),
                self.states@.len() == old(self).states@.len(),
                self.pos == other.pos,
                old(self)@.fits(other@),
                forall|j: int|
                    0 <= j < i ==> #[trigger] self.states@[j]@ == old(self).states@[j]@.copied(
                        other.states@[j]@,
                    ),
                forall|j: int|
                    i <= j < self.states@.len() ==> #[trigger] self.states@[j]
                        == old(self).states@[j],
        {
            assert(old(self)@.states[i as int].fits(other@.states[i as int]));
            match (&mut self.states[i], &other.states[i]) {
                (State::Full(s), State::Full(o)) => {
                    copy_numbers(&mut s.k_cache, &o.k_cache);
                    copy_numbers(&mut s.v_cache, &o.v_cache);
                    s.len = o.len;
                },
                (State::Linear(s), State::Linear(o)) => {
                    copy_numbers(&mut s.conv_state, &o.conv_state);
                    copy_numbers(&mut s.ssm_state, &o.ssm_state);
                },
                _ => {
                    assert(false);
                },
            }
        }
        assert(self@.states =~= old(self)@.copied(other@).states);
    }
}

/// Moving to a position leaves all full-attention layers filled up to it, and only the last
/// move counts.
pub proof fn law_set_pos<S: Scalar, B>(c: CacheView<S, B>, p: int, q: int)
    ensures
        c.at(p).synced(),
        c.at(p).at(q) == c.at(q),
{
    assert(c.at(p).at(q).states =~= c.at(q).states);
}

/// Starting over is the same after any move, and starting over twice changes nothing more.
pub proof fn law_reset<S: Scalar, B>(c: CacheView<S, B>, p: int)
    ensures
        c.restarted().synced(),
        c.at(p).restarted() == c.restarted(),
        c.restarted().restarted() == c.restarted(),
{
    assert(c.at(p).restarted().states =~= c.restarted().states);
    assert forall|i: int| 0 <= i < c.states.len() implies c.restarted().restarted().states[i]
        == c.restarted().states[i] by {
        match c.states[i] {
            StateView::Linear { conv, ssm, gpu } => {
                assert(zeros::<S>(zeros::<S>(conv.len()).len()) =~= zeros(conv.len()));
                assert(zeros::<S>(zeros::<S>(ssm.len()).len()) =~= zeros(ssm.len()));
            },
            StateView::Full { k, v, len } => {},
        }
    }
    assert(c.restarted().restarted().states =~= c.restarted().states);
}

/// After copying from a cache with the same layers, everything but the device handles is
/// that cache's, and copying again changes nothing.
pub proof fn law_copy<S: Scalar, B>(c: CacheView<S, B>, o: CacheView<S, B>)
    requires
        c.states.len() == o.states.len(),
        c.fits(o),
    ensures
        c.copied(o).pos == o.pos,
        forall|i: int|
            0 <= i < o.states.len() ==> (#[trigger] c.copied(o).states[i]).copied(o.states[i])
                == c.copied(o).states[i],
        forall|i: int|
            0 <= i < o.states.len() && (#[trigger] o.states[i]) is Full ==> c.copied(o).states[i]
                == o.states[i],
        o.synced() ==> c.copied(o).synced(),
        c.copied(o).copied(o) == c.copied(o),
{
    assert forall|i: int| 0 <= i < o.states.len() implies c.states[i].fits(o.states[i]) by {}
    assert(c.copied(o).copied(o).states =~= c.copied(o).states);
}

/// Moving to a position touches the lengths of full-attention layers alone: keys, values and the
/// states of linear layers stay as they are.
pub proof fn law_position_alone<S: Scalar, B>(c: CacheView<S, B>, p: int, i: int)
    requires
        0 <= i < c.states.len(),
    ensures
        c.at(p).pos == p,
        c.at(p).states.len() == c.states.len(),
        match c.states[i] {
            StateView::Full { k, v, len } => c.at(p).states[i] == (StateView::<S, B>::Full {
                k,
                v,
                len: p,
            }),
            StateView::Linear { .. } => c.at(p).states[i] == c.states[i],
        },
{
}

/// A restart forgets every token: no position is filled, and every number of a linear layer's
/// convolution state and recurrent state is zero, as many as there were. The room of
/// full-attention layers and the buffers on the device are kept.
pub proof fn law_restart_forgets<S: Scalar, B>(c: CacheView<S, B>, i: int, j: int)
    requires
        0 <= i < c.states.len(),
    ensures
        c.restarted().pos == 0,
        c.restarted().states.len() == c.states.len(),
        match (c.states[i], c.restarted().states[i]) {
            (
                StateView::Full { k, v, len },
                StateView::Full { k: k2, v: v2, len: len2 },
            ) => k2 == k && v2 == v && len2 == 0,
            (
                StateView::Linear { conv, ssm, gpu },
                StateView::Linear { conv: conv2, ssm: ssm2, gpu: gpu2 },
            ) => {
                &&& conv2.len() == conv.len()
                &&& ssm2.len() == ssm.len()
                &&& 0 <= j < conv2.len() ==> conv2[j] == zero::<S>()
                &&& 0 <= j < ssm2.len() ==> ssm2[j] == zero::<S>()
                &&& gpu2 == gpu
            },
            _ => false,
        },
{
}

/// A copy holds what the other cache holds, layer by layer; only its own buffers on the device
/// are kept. Layers that the other cache does not have stay as they are.
pub proof fn law_copy_takes_all<S: Scalar, B>(c: CacheView<S, B>, o: CacheView<S, B>, i: int)
    requires
        0 <= i < c.states.len(),
        c.fits(o),
    ensures
        c.copied(o).pos == o.pos,
        c.copied(o).states.len() == c.states.len(),
        i >= o.states.len() ==> c.copied(o).states[i] == c.states[i],
        i < o.states.len() ==> match (c.states[i], o.states[i], c.copied(o).states[i]) {
            (
                StateView::Full { .. },
                StateView::Full { k, v, len },
                StateView::Full { k: k2, v: v2, len: len2 },
            ) => k2 == k && v2 == v && len2 == len,
            (
                StateView::Linear { conv: conv0, ssm: ssm0, gpu },
                StateView::Linear { conv, ssm, gpu: other_gpu },
                StateView::Linear { conv: conv2, ssm: ssm2, gpu: gpu2 },
            ) => conv2 == conv && ssm2 == ssm && gpu2 == gpu,
            _ => false,
        },
{
    if i < o.states.len() {
        assert(c.states[i].fits(o.states[i]));
    }
}

/// A fresh cache: every fourth layer has room for the keys and values of all positions, none of
/// them filled; the others have three past inputs for each channel, and for each value head a
/// matrix of the size of its values times its keys. All numbers are zero.
pub proof fn law_fresh_state<S: Scalar, B>(d: CacheDims, layer: int, j: int)
    requires
        d.valid(),
        0 <= layer,
    ensures
        match d.fresh::<S, B>(layer) {
            StateView::Full { k, v, len } => {
                &&& layer % 4 == 3
                &&& k.len() == 4096 * (d.num_kv_heads * d.head_dim)
                &&& v.len() == k.len()
                &&& len == 0
                &&& 0 <= j < k.len() ==> k[j] == zero::<S>() && v[j] == zero::<S>()
            },
            StateView::Linear { conv, ssm, gpu } => {
                &&& layer % 4 != 3
                &&& conv.len() == 3 * d.linear_conv_dim
                &&& ssm.len() == d.linear_num_v_heads * (d.linear_total_value as int
                    / d.linear_num_v_heads as int) * (d.linear_total_key as int
                    / d.linear_num_k_heads as int)
                &&& 0 <= j < conv.len() ==> conv[j] == zero::<S>()
                &&& 0 <= j < ssm.len() ==> ssm[j] == zero::<S>()
                &&& gpu is None
            },
        },
{
    assert(0 <= 4096 * (d.num_kv_heads * d.head_dim)) by (nonlinear_arith)
        requires
            0 <= d.num_kv_heads,
            0 <= d.head_dim,
    ;
    let v = d.linear_total_value as int / d.linear_num_v_heads as int;
    let k = d.linear_total_key as int / d.linear_num_k_heads as int;
    vstd::arithmetic::div_mod::lemma_div_pos_is_pos(
        d.linear_total_value as int,
        d.linear_num_v_heads as int,
    );
    vstd::arithmetic::div_mod::lemma_div_pos_is_pos(
        d.linear_total_key as int,
        d.linear_num_k_heads as int,
    );
    assert(0 <= d.linear_num_v_heads * v * k) by (nonlinear_arith)
        requires
            0 <= d.linear_num_v_heads,
            0 <= v,
            0 <= k,
    ;
}

} // verus!
