//! The order of work of a token: which layers run when, and what happens between them.

use vstd::prelude::*;

use crate::cache::{full_layer, is_full_layer};
use crate::constants::FULL_ATTN_INTERVAL;

verus! {

/// A layer's place among the linear-attention layers.
pub open spec fn linear_place(layer: int) -> int {
    layer - (layer + 1) / FULL_ATTN_INTERVAL as int
}

/// A layer's place among the full-attention layers.
pub open spec fn full_place(layer: int) -> int {
    layer / FULL_ATTN_INTERVAL as int
}

/// A layer's place among the linear-attention layers.
pub fn linear_index(layer: usize) -> (r: usize)
    requires
        layer < usize::MAX,
    ensures
        r == linear_place(layer as int),
{
    layer - (layer + 1) / FULL_ATTN_INTERVAL
}

/// A layer's place among the full-attention layers.
pub fn full_index(layer: usize) -> (r: usize)
    ensures
        r == full_place(layer as int),
{
    layer / FULL_ATTN_INTERVAL
}

/// The full-attention layers are numbered without gaps, and so are the others: of `n` layers a
/// quarter has full attention, and each place belongs to exactly one layer.
pub proof fn law_layer_places(n: int, a: int, b: int)
    requires
        0 <= a < b < n,
    ensures
        full_layer(a) ==> 0 <= full_place(a) < n / FULL_ATTN_INTERVAL as int,
        !full_layer(a) ==> 0 <= linear_place(a) < n - n / FULL_ATTN_INTERVAL as int,
        full_layer(b) ==> 0 <= full_place(b) < n / FULL_ATTN_INTERVAL as int,
        !full_layer(b) ==> 0 <= linear_place(b) < n - n / FULL_ATTN_INTERVAL as int,
        full_layer(a) && full_layer(b) ==> full_place(a) < full_place(b),
        !full_layer(a) && !full_layer(b) ==> linear_place(a) < linear_place(b),
{
}

/// What an engine does for a token, one step after the other.
#[derive(Clone, Copy, Debug, PartialEq, Eq, Structural)]
pub enum TokenStep {
    /// Ask whether to stop; if so, nothing of the rest happens.
    CheckSignal,
    /// Run a layer.
    Layer { layer: usize, full: bool },
    /// Collect what an earlier layer left on the device, if anything.
    CompletePending,
    /// Run consecutive linear-attention layers in one pipeline.
    LinearGroup { first: usize, count: usize },
    /// Advance the position, norm the hidden state and project it to the vocabulary.
    Finish,
}

/// A plan with the layers below `n` added: the signal is checked before every fourth.
pub open spec fn after_layers(s: Seq<TokenStep>, n: int) -> Seq<TokenStep>
    decreases n,
{
    if n <= 0 {
        s
    } else {
        let before = after_layers(s, n - 1);
        let checked = if (n - 1) % 4 == 0 {
            before.push(TokenStep::CheckSignal)
        } else {
            before
        };
        checked.push(TokenStep::Layer { layer: (n - 1) as usize, full: full_layer(n - 1) })
    }
}

/// The plan of a token that runs its layers one by one.
pub fn token_plan(num_layers: usize) -> (r: Vec<TokenStep>)
    ensures
        r@ == after_layers(Seq::empty(), num_layers as int).push(TokenStep::CompletePending).push(
            TokenStep::Finish,
        ),
{
    let mut v: Vec<TokenStep> = Vec::new();
    for layer in 0..num_layers
        invariant
            v@ == after_layers(Seq::empty(), layer as int),
    {
        if layer % 4 == 0 {
            v.push(TokenStep::CheckSignal);
        }
        v.push(TokenStep::Layer { layer, full: is_full_layer(layer) });
    }
    v.push(TokenStep::CompletePending);
    v.push(TokenStep::Finish);
    v
}

/// The layers that a step runs.
pub open spec fn layers_run(step: TokenStep) -> Seq<int> {
    match step {
        TokenStep::Layer { layer, full } => seq![layer as int],
        TokenStep::LinearGroup { first, count } => Seq::new(count as nat, |i: int| first + i),
        _ => Seq::empty(),
    }
}

/// The layers that a plan runs, in order.
pub open spec fn plan_layers(s: Seq<TokenStep>) -> Seq<int>
    decreases s.len(),
{
    if s.len() == 0 {
        Seq::empty()
    } else {
        plan_layers(s.drop_last()) + layers_run(s.last())
    }
}

/// The integers below `n`.
pub open spec fn below(n: int) -> Seq<int> {
    Seq::new(n as nat, |i: int| i)
}

proof fn lemma_push_layers(s: Seq<TokenStep>, step: TokenStep)
    ensures
        plan_layers(s.push(step)) == plan_layers(s) + layers_run(step),
{
    assert(s.push(step).drop_last() =~= s);
}

/// A token that runs its layers one by one runs each of them once, in order.
pub proof fn law_token_plan_covers(n: int)
    requires
        0 <= n <= usize::MAX,
    ensures
        plan_layers(
            after_layers(Seq::empty(), n).push(TokenStep::CompletePending).push(TokenStep::Finish),
        ) == below(n),
{
    lemma_layers_cover(n);
    let s = after_layers(Seq::empty(), n);
    lemma_push_layers(s, TokenStep::CompletePending);
    lemma_push_layers(s.push(TokenStep::CompletePending), TokenStep::Finish);
    assert(below(n) + Seq::<int>::empty() =~= below(n));
}

proof fn lemma_layers_cover(n: int)
    requires
        0 <= n <= usize::MAX,
    ensures
        plan_layers(after_layers(Seq::empty(), n)) == below(n),
    decreases n,
{
    if n == 0 {
        assert(below(0) =~= Seq::<int>::empty());
    } else {
        lemma_layers_cover(n - 1);
        let before = after_layers(Seq::empty(), n - 1);
        let checked = if (n - 1) % 4 == 0 {
            before.push(TokenStep::CheckSignal)
        } else {
            before
        };
        lemma_push_layers(before, TokenStep::CheckSignal);
        assert(plan_layers(before) + Seq::<int>::empty() =~= plan_layers(before));
        let step = TokenStep::Layer { layer: (n - 1) as usize, full: full_layer(n - 1) };
        lemma_push_layers(checked, step);
        assert(below(n - 1) + seq![n - 1] =~= below(n));
    }
}

/// The first layer from `layer` on that has full attention, or `n`.
pub open spec fn group_end(layer: int, n: int) -> int
    decreases n - layer,
{
    if layer >= n || full_layer(layer) {
        layer
    } else {
        group_end(layer + 1, n)
    }
}

proof fn lemma_group_end(layer: int, n: int)
    requires
        0 <= layer <= n,
    ensures
        layer <= group_end(layer, n) <= n,
        layer < n && !full_layer(layer) ==> layer < group_end(layer, n),
        forall|l: int| layer <= l < group_end(layer, n) ==> !#[trigger] full_layer(l),
    decreases n - layer,
{
    if layer < n && !full_layer(layer) {
        lemma_group_end(layer + 1, n);
    }
}

/// A plan with the layers from `layer` on added: full-attention layers alone, the layers
/// between them in groups; before each the signal is checked and pending work collected.
pub open spec fn after_groups(s: Seq<TokenStep>, layer: int, n: int) -> Seq<TokenStep>
    decreases n - layer,
    when 0 <= layer
    via groups_decrease
{
    if layer >= n {
        s
    } else {
        let s = s.push(TokenStep::CheckSignal).push(TokenStep::CompletePending);
        if full_layer(layer) {
            after_groups(
                s.push(TokenStep::Layer { layer: layer as usize, full: true }),
                layer + 1,
                n,
            )
        } else {
            let end = group_end(layer, n);
            after_groups(
                s.push(
                    TokenStep::LinearGroup {
                        first: layer as usize,
                        count: (end - layer) as usize,
                    },
                ),
                end,
                n,
            )
        }
    }
}

#[via_fn]
proof fn groups_decrease(s: Seq<TokenStep>, layer: int, n: int) {
    if 0 <= layer < n {
        lemma_group_end(layer, n);
    }
}

/// The plan of a token that pipelines its linear-attention layers.
pub fn grouped_token_plan(num_layers: usize) -> (r: Vec<TokenStep>)
    ensures
        r@ == after_groups(Seq::empty(), 0, num_layers as int).push(
            TokenStep::CompletePending,
        ).push(TokenStep::Finish),
{
    let mut v: Vec<TokenStep> = Vec::new();
    let mut layer: usize = 0;
    let ghost whole = after_groups(Seq::empty(), 0, num_layers as int);
    while layer < num_layers
        invariant
            layer <= num_layers,
            whole == after_groups(v@, layer as int, num_layers as int),
        decreases num_layers - layer,
    {
        proof {
            lemma_group_end(layer as int, num_layers as int);
        }
        v.push(TokenStep::CheckSignal);
        v.push(TokenStep::CompletePending);
        if is_full_layer(layer) {
            v.push(TokenStep::Layer { layer, full: true });
            layer = layer + 1;
        } else {
            let first: usize = layer;
            while layer < num_layers && !is_full_layer(layer)
                invariant
                    first <= layer <= num_layers,
                    group_end(first as int, num_layers as int) == group_end(
                        layer as int,
                        num_layers as int,
                    ),
                decreases num_layers - layer,
            {
                layer = layer + 1;
            }
            v.push(TokenStep::LinearGroup { first, count: layer - first });
        }
    }
    v.push(TokenStep::CompletePending);
    v.push(TokenStep::Finish);
    v
}

proof fn lemma_groups_cover(s: Seq<TokenStep>, layer: int, n: int)
    requires
        0 <= layer <= n <= usize::MAX,
        plan_layers(s) == below(layer),
    ensures
        plan_layers(after_groups(s, layer, n)) == below(n),
    decreases n - layer,
{
    if layer < n {
        lemma_group_end(layer, n);
        let a = s.push(TokenStep::CheckSignal);
        let b = a.push(TokenStep::CompletePending);
        lemma_push_layers(s, TokenStep::CheckSignal);
        lemma_push_layers(a, TokenStep::CompletePending);
        assert(plan_layers(b) =~= below(layer));
        if full_layer(layer) {
            let step = TokenStep::Layer { layer: layer as usize, full: true };
            lemma_push_layers(b, step);
            assert(below(layer) + seq![layer] =~= below(layer + 1));
            lemma_groups_cover(b.push(step), layer + 1, n);
        } else {
            let end = group_end(layer, n);
            let step = TokenStep::LinearGroup {
                first: layer as usize,
                count: (end - layer) as usize,
            };
            lemma_push_layers(b, step);
            assert(below(layer) + layers_run(step) =~= below(end));
            lemma_groups_cover(b.push(step), end, n);
        }
    }
}

/// A token that pipelines its linear-attention layers runs each layer once, in order.
pub proof fn law_grouped_plan_covers(n: int)
    requires
        0 <= n <= usize::MAX,
    ensures
        plan_layers(
            after_groups(Seq::empty(), 0, n).push(TokenStep::CompletePending).push(
                TokenStep::Finish,
            ),
        ) == below(n),
{
    assert(below(0) =~= Seq::<int>::empty());
    lemma_groups_cover(Seq::empty(), 0, n);
    let a = after_groups(Seq::empty(), 0, n);
    lemma_push_layers(a, TokenStep::CompletePending);
    lemma_push_layers(a.push(TokenStep::CompletePending), TokenStep::Finish);
    assert(below(n) + Seq::<int>::empty() + Seq::<int>::empty() =~= below(n));
}

/// A step inside a group of pipelined linear-attention layers.
#[derive(Clone, Copy, Debug, PartialEq, Eq, Structural)]
pub enum GroupStep {
    /// Put the hidden state and its norm on the device.
    Upload { layer: usize },
    /// Attention and routing of a layer, alone in a command buffer.
    Pre { layer: usize, place: usize },
    /// The experts of one layer and the attention and routing of the next, in one command
    /// buffer.
    PostPre { done: usize, layer: usize, place: usize },
    /// Shift the convolution state that the CPU keeps.
    UpdateConv { layer: usize },
    /// Choose the experts of a layer and read them.
    Route { layer: usize },
    /// The experts of the last layer, and the norm of the layer behind it, if there is one.
    Post { layer: usize, next_norm: Option<usize> },
    /// Read the hidden state back.
    Download,
}

/// The step at a place of a group's plan.
pub open spec fn group_step(first: int, count: int, num_layers: int, at: int) -> GroupStep {
    let i = (at - 1) / 3;
    let layer = first + i;
    if at == 0 {
        GroupStep::Upload { layer: first as usize }
    } else if at == 3 * count + 1 {
        GroupStep::Post {
            layer: (first + count - 1) as usize,
            next_norm: if first + count < num_layers {
                Some((first + count) as usize)
            } else {
                None
            },
        }
    } else if at == 3 * count + 2 {
        GroupStep::Download
    } else if at % 3 == 1 {
        if i == 0 {
            GroupStep::Pre { layer: first as usize, place: linear_place(first) as usize }
        } else {
            GroupStep::PostPre {
                done: (layer - 1) as usize,
                layer: layer as usize,
                place: linear_place(layer) as usize,
            }
        }
    } else if at % 3 == 2 {
        GroupStep::UpdateConv { layer: layer as usize }
    } else {
        GroupStep::Route { layer: layer as usize }
    }
}

/// The plan of a group: every layer is prepared, its convolution state is shifted, its experts
/// are chosen, and they run together with the preparation of the next layer.
pub open spec fn group_steps(first: int, count: int, num_layers: int) -> Seq<GroupStep> {
    if count <= 0 {
        Seq::empty()
    } else {
        Seq::new(
            (3 * count + 3) as nat,
            |at: int| group_step(first, count, num_layers, at),
        )
    }
}

/// The plan of a group of linear-attention layers.
pub fn linear_group_plan(first: usize, count: usize, num_layers: usize) -> (r: Vec<GroupStep>)
    requires
        first + count < usize::MAX,
    ensures
        r@ == group_steps(first as int, count as int, num_layers as int),
{
    let mut v: Vec<GroupStep> = Vec::new();
    if count == 0 {
        return v;
    }
    let ghost whole = group_steps(first as int, count as int, num_layers as int);
    v.push(GroupStep::Upload { layer: first });
    v.push(GroupStep::Pre { layer: first, place: linear_index(first) });
    v.push(GroupStep::UpdateConv { layer: first });
    v.push(GroupStep::Route { layer: first });
    assert(v@ =~= whole.take(4));
    for i in 1..count
        invariant
            first + count < usize::MAX,
            whole == group_steps(first as int, count as int, num_layers as int),
            0 < count,
            v@ == whole.take(3 * i + 1),
    {
        let layer: usize = first + i;
        let ghost before = v@;
        v.push(GroupStep::PostPre { done: layer - 1, layer, place: linear_index(layer) });
        v.push(GroupStep::UpdateConv { layer });
        v.push(GroupStep::Route { layer });
        proof {
            let at = 3 * i + 1;
            assert((at - 1) / 3 == i && at % 3 == 1);
            assert((at + 1 - 1) / 3 == i && (at + 1) % 3 == 2);
            assert((at + 2 - 1) / 3 == i && (at + 2) % 3 == 0);
            assert(whole[at] == group_step(
                first as int,
                count as int,
                num_layers as int,
                at as int,
            ));
            assert(v@ =~= whole.take(3 * (i + 1) + 1));
        }
    }
    let last: usize = first + (count - 1);
    let next_norm: Option<usize> = if last + 1 < num_layers {
        Some(last + 1)
    } else {
        None
    };
    v.push(GroupStep::Post { layer: last, next_norm });
    v.push(GroupStep::Download);
    assert(v@ =~= whole);
    v
}

/// In a group's plan each layer is prepared before its experts are chosen, and its experts run
/// after that, before or together with the preparation of the next layer.
pub proof fn law_group_order(first: int, count: int, num_layers: int, i: int)
    requires
        0 <= first,
        0 <= i < count,
        first + count < usize::MAX,
    ensures
        ({
            let s = group_steps(first, count, num_layers);
            let layer = (first + i) as usize;
            &&& match s[3 * i + 1] {
                GroupStep::Pre { layer: l, place } => i == 0 && l == layer && place
                    == linear_place(first),
                GroupStep::PostPre { done, layer: l, place } => i > 0 && l == layer && done
                    == layer - 1 && place == linear_place(layer as int),
                _ => false,
            }
            &&& s[3 * i + 2] == GroupStep::UpdateConv { layer }
            &&& s[3 * i + 3] == GroupStep::Route { layer }
            &&& match s[3 * i + 4] {
                GroupStep::PostPre { done, layer: l, place } => i + 1 < count && done == layer,
                GroupStep::Post { layer: l, next_norm } => i + 1 == count && l == layer,
                _ => false,
            }
        }),
{
    let at = 3 * i + 1;
    assert((at - 1) / 3 == i && at % 3 == 1);
    assert((at + 1 - 1) / 3 == i && (at + 1) % 3 == 2);
    assert((at + 2 - 1) / 3 == i && (at + 2) % 3 == 0);
    assert((at + 3 - 1) / 3 == i + 1 && (at + 3) % 3 == 1);
}

/// A step around one layer of an engine that leaves the experts on the device.
#[derive(Clone, Copy, Debug, PartialEq, Eq, Structural)]
pub enum LayerStep {
    /// Wait for the experts of the layer before, and read the hidden state.
    Complete,
    /// The same, after this layer's first command buffer.
    CompleteFast,
    /// Keep a copy of the hidden state.
    SaveHidden,
    FullAttention,
    LinearAttention { place: usize },
    /// Give the hidden state to the linear attention that is still to be finished.
    SetResidual,
    /// Put the kept copy back.
    RestoreHidden,
    /// Routing and experts.
    Moe,
}

/// The steps around a layer. `pending` tells whether experts of the layer before are on the
/// device, and `combined` whether their sum was normed there too. Only an `eager` engine
/// collects them before linear attention; another leaves them to be collected after it.
pub open spec fn layer_steps(
    layer: int,
    pending: bool,
    combined: bool,
    has_state: bool,
    fused: bool,
    eager: bool,
) -> Seq<LayerStep> {
    let prev = pending && combined;
    let wait = if pending && (!combined || eager) {
        seq![LayerStep::Complete]
    } else {
        Seq::empty()
    };
    let late = if prev && !eager {
        seq![LayerStep::CompleteFast]
    } else {
        Seq::empty()
    };
    let attention = if full_layer(layer) {
        if has_state {
            late.push(LayerStep::FullAttention)
        } else {
            late
        }
    } else if !has_state {
        Seq::empty()
    } else {
        let run = LayerStep::LinearAttention { place: linear_place(layer) as usize };
        if prev {
            seq![run] + late + seq![
                LayerStep::SetResidual,
                LayerStep::SaveHidden,
                LayerStep::RestoreHidden,
            ]
        } else if fused {
            seq![LayerStep::SaveHidden, run, LayerStep::RestoreHidden]
        } else {
            seq![run]
        }
    };
    wait + attention + seq![LayerStep::Moe]
}

/// Plan the steps around a layer.
pub fn plan_layer(
    layer: usize,
    pending: bool,
    combined: bool,
    has_state: bool,
    fused: bool,
    eager: bool,
) -> (r: Vec<LayerStep>)
    requires
        layer < usize::MAX,
    ensures
        r@ == layer_steps(layer as int, pending, combined, has_state, fused, eager),
{
    let prev = pending && combined;
    let mut v: Vec<LayerStep> = Vec::new();
    if pending && (!combined || eager) {
        v.push(LayerStep::Complete);
    }
    if is_full_layer(layer) {
        if prev && !eager {
            v.push(LayerStep::CompleteFast);
        }
        if has_state {
            v.push(LayerStep::FullAttention);
        }
    } else if has_state {
        let place: usize = linear_index(layer);
        if fused && !prev {
            v.push(LayerStep::SaveHidden);
        }
        v.push(LayerStep::LinearAttention { place });
        if prev {
            if !eager {
                v.push(LayerStep::CompleteFast);
            }
            v.push(LayerStep::SetResidual);
            v.push(LayerStep::SaveHidden);
        }
        if prev || fused {
            v.push(LayerStep::RestoreHidden);
        }
    }
    v.push(LayerStep::Moe);
    assert(v@ =~= layer_steps(layer as int, pending, combined, has_state, fused, eager));
    v
}

/// How many of the steps collect pending experts.
pub open spec fn completions(s: Seq<LayerStep>) -> int
    decreases s.len(),
{
    if s.len() == 0 {
        0
    } else {
        completions(s.drop_last()) + if s.last() == LayerStep::Complete || s.last()
            == LayerStep::CompleteFast {
            1int
        } else {
            0int
        }
    }
}

/// Pending experts are collected exactly once before the next experts run, wherever the layer
/// has its state; and every layer ends with its experts.
pub proof fn law_pending_collected(
    layer: int,
    pending: bool,
    combined: bool,
    fused: bool,
    eager: bool,
)
    ensures
        ({
            let s = layer_steps(layer, pending, combined, true, fused, eager);
            &&& completions(s) == if pending {
                1int
            } else {
                0int
            }
            &&& s.last() == LayerStep::Moe
        }),
{
    reveal_with_fuel(completions, 8);
    let s = layer_steps(layer, pending, combined, true, fused, eager);
    assert(s.len() <= 7);
}

/// Every fourth layer is one of full attention. The place of a layer among those of its kind
/// counts the ones in front of it: the first of each kind has place 0, and the next one of the
/// kind the next place.
pub proof fn law_places_count(layer: int)
    requires
        0 <= layer,
    ensures
        full_layer(layer) <==> layer % 4 == 3,
        linear_place(0) == 0,
        layer % 4 < 2 ==> linear_place(layer + 1) == linear_place(layer) + 1,
        layer % 4 == 2 ==> linear_place(layer + 2) == linear_place(layer) + 1,
        full_place(3) == 0,
        layer % 4 == 3 ==> full_place(layer + 4) == full_place(layer) + 1,
{
}

/// The plan of a token, step by step: layers in order, a look at the signal in front of every
/// fourth, and full attention at every fourth from the fourth on. Nothing else.
pub proof fn law_token_plan_steps(n: int, layer: int)
    requires
        0 <= layer < n <= usize::MAX,
    ensures
        ({
            let p = after_layers(Seq::empty(), n);
            &&& p.len() == n + (n + 3) / 4
            &&& p[layer + layer / 4 + 1] == (TokenStep::Layer {
                layer: layer as usize,
                full: layer % 4 == 3,
            })
            &&& layer % 4 == 0 ==> p[layer + layer / 4] == TokenStep::CheckSignal
        }),
    decreases n,
{
    if n > 1 {
        lemma_plan_len(n - 1);
        if layer < n - 1 {
            law_token_plan_steps(n - 1, layer);
        }
    }
    lemma_plan_len(n);
}

proof fn lemma_plan_len(n: int)
    requires
        0 <= n,
    ensures
        after_layers(Seq::empty(), n).len() == n + (n + 3) / 4,
    decreases n,
{
    if n > 0 {
        lemma_plan_len(n - 1);
    }
}

/// The steps of one group of layers: the signal, what is pending, and the layers.
spec fn block_at(p: Seq<TokenStep>, g: int) -> bool {
    &&& p[6 * g] == TokenStep::CheckSignal
    &&& p[6 * g + 1] == TokenStep::CompletePending
    &&& p[6 * g + 2] == (TokenStep::LinearGroup { first: (4 * g) as usize, count: 3 })
    &&& p[6 * g + 3] == TokenStep::CheckSignal
    &&& p[6 * g + 4] == TokenStep::CompletePending
    &&& p[6 * g + 5] == (TokenStep::Layer { layer: (4 * g + 3) as usize, full: true })
}

spec fn with_block(s: Seq<TokenStep>, g: int) -> Seq<TokenStep> {
    s + seq![
        TokenStep::CheckSignal,
        TokenStep::CompletePending,
        TokenStep::LinearGroup { first: (4 * g) as usize, count: 3 },
        TokenStep::CheckSignal,
        TokenStep::CompletePending,
        TokenStep::Layer { layer: (4 * g + 3) as usize, full: true },
    ]
}

spec fn with_rest(s: Seq<TokenStep>, g: int, n: int) -> Seq<TokenStep> {
    s + seq![
        TokenStep::CheckSignal,
        TokenStep::CompletePending,
        TokenStep::LinearGroup { first: (4 * g) as usize, count: (n - 4 * g) as usize },
    ]
}

proof fn lemma_one_block(s: Seq<TokenStep>, g: int, n: int)
    requires
        0 <= g,
        4 * g + 3 < n,
    ensures
        after_groups(s, 4 * g, n) == after_groups(with_block(s, g), 4 * g + 4, n),
{
    let a = 4 * g;
    assert(group_end(a + 3, n) == a + 3);
    assert(group_end(a + 2, n) == a + 3);
    assert(group_end(a + 1, n) == a + 3);
    assert(group_end(a, n) == a + 3);
    let t = s.push(TokenStep::CheckSignal).push(TokenStep::CompletePending).push(
        TokenStep::LinearGroup { first: a as usize, count: 3 },
    );
    assert(after_groups(s, a, n) == after_groups(t, a + 3, n));
    let u = t.push(TokenStep::CheckSignal).push(TokenStep::CompletePending).push(
        TokenStep::Layer { layer: (a + 3) as usize, full: true },
    );
    assert(after_groups(t, a + 3, n) == after_groups(u, a + 4, n));
    assert(u =~= with_block(s, g));
}

proof fn lemma_last_block(s: Seq<TokenStep>, g: int, n: int)
    requires
        0 <= g,
        4 * g < n <= 4 * g + 3,
    ensures
        after_groups(s, 4 * g, n) == with_rest(s, g, n),
{
    let a = 4 * g;
    assert(group_end(n, n) == n);
    if n == a + 3 {
        assert(group_end(a + 2, n) == n);
    }
    if n >= a + 2 {
        assert(group_end(a + 1, n) == n);
    }
    assert(group_end(a, n) == n);
    let t = s.push(TokenStep::CheckSignal).push(TokenStep::CompletePending).push(
        TokenStep::LinearGroup { first: a as usize, count: (n - a) as usize },
    );
    assert(after_groups(s, a, n) == after_groups(t, n, n));
    assert(after_groups(t, n, n) == t);
    assert(t =~= with_rest(s, g, n));
}

proof fn lemma_blocks(s: Seq<TokenStep>, g: int, n: int)
    requires
        0 <= g,
        4 * g <= n <= usize::MAX,
        s.len() == 6 * g,
        forall|i: int| 0 <= i < g ==> #[trigger] block_at(s, i),
    ensures
        ({
            let p = after_groups(s, 4 * g, n);
            let k = n / 4;
            &&& n % 4 == 0 ==> p.len() == 6 * k
            &&& forall|i: int| 0 <= i < k ==> #[trigger] block_at(p, i)
            &&& n % 4 > 0 ==> p.len() == 6 * k + 3 && p == with_rest(p.take(6 * k), k, n)
        }),
    decreases n - 4 * g,
{
    let p = after_groups(s, 4 * g, n);
    let k = n / 4;
    if 4 * g + 3 < n {
        lemma_one_block(s, g, n);
        let u = with_block(s, g);
        assert forall|i: int| 0 <= i < g + 1 implies #[trigger] block_at(u, i) by {
            if i < g {
                assert(block_at(s, i));
            }
        }
        lemma_blocks(u, g + 1, n);
    } else if 4 * g < n {
        assert(k == g);
        lemma_last_block(s, g, n);
        assert forall|i: int| 0 <= i < g implies #[trigger] block_at(p, i) by {
            assert(block_at(s, i));
        }
        assert(p.take(6 * k) =~= s);
    } else {
        assert(k == g);
        assert(p == s);
    }
}

/// The plan of a token in groups, step by step: three linear layers in one group, then the layer
/// of full attention behind them; linear layers that are left over form the last group. In front
/// of each comes a look at the signal, and what is still on the device is collected.
pub proof fn law_grouped_plan_steps(n: int, g: int)
    requires
        0 <= g,
        4 * g < n <= usize::MAX,
    ensures
        ({
            let p = after_groups(Seq::empty(), 0, n);
            let rest = n - 4 * g;
            &&& p.len() == 6 * (n / 4) + (if n % 4 > 0 {
                3int
            } else {
                0int
            })
            &&& p[6 * g] == TokenStep::CheckSignal
            &&& p[6 * g + 1] == TokenStep::CompletePending
            &&& p[6 * g + 2] == (TokenStep::LinearGroup {
                first: (4 * g) as usize,
                count: if rest < 3 {
                    rest as usize
                } else {
                    3
                },
            })
            &&& rest > 3 ==> p[6 * g + 3] == TokenStep::CheckSignal
            &&& rest > 3 ==> p[6 * g + 4] == TokenStep::CompletePending
            &&& rest > 3 ==> p[6 * g + 5] == (TokenStep::Layer {
                layer: (4 * g + 3) as usize,
                full: true,
            })
        }),
{
    lemma_blocks(Seq::empty(), 0, n);
    let p = after_groups(Seq::empty(), 0, n);
    if g < n / 4 {
        assert(block_at(p, g));
    } else {
        let w = with_rest(p.take(6 * g), g, n);
        assert(p == w);
        assert(w[6 * g] == TokenStep::CheckSignal);
        assert(w[6 * g + 1] == TokenStep::CompletePending);
    }
}

/// The first and the last steps of a group: the hidden state goes to the device first, and comes
/// back at the very end; the experts of the last layer norm the sum for the layer behind the
/// group, where there is one.
pub proof fn law_group_ends(first: int, count: int, num_layers: int)
    requires
        0 <= first,
        0 < count,
        first + count < usize::MAX,
    ensures
        ({
            let s = group_steps(first, count, num_layers);
            &&& s.len() == 3 * count + 3
            &&& s[0] == (GroupStep::Upload { layer: first as usize })
            &&& s[3 * count + 1] == (GroupStep::Post {
                layer: (first + count - 1) as usize,
                next_norm: if first + count < num_layers {
                    Some((first + count) as usize)
                } else {
                    None
                },
            })
            &&& s[3 * count + 2] == GroupStep::Download
        }),
{
}

/// The steps of a layer of full attention: what is pending is collected first, in the fast way
/// where its norm is already on the device and nothing asks for more; then attention and experts.
pub proof fn law_full_layer_steps(
    layer: int,
    pending: bool,
    combined: bool,
    fused: bool,
    eager: bool,
)
    requires
        layer % 4 == 3,
    ensures
        layer_steps(layer, pending, combined, true, fused, eager) == (if !pending {
            Seq::empty()
        } else if combined && !eager {
            seq![LayerStep::CompleteFast]
        } else {
            seq![LayerStep::Complete]
        }) + seq![LayerStep::FullAttention, LayerStep::Moe],
{
}

/// The steps of a linear layer. Where the device holds the layer's normed input, attention starts
/// before the hidden state is collected, and the state is given to it afterwards. Else what is
/// pending is collected first; the hidden state is kept across attention where that is to be
/// finished by the routing step.
pub proof fn law_linear_layer_steps(
    layer: int,
    pending: bool,
    combined: bool,
    fused: bool,
    eager: bool,
)
    requires
        0 <= layer,
        layer % 4 != 3,
    ensures
        ({
            let s = layer_steps(layer, pending, combined, true, fused, eager);
            let run = LayerStep::LinearAttention { place: linear_place(layer) as usize };
            let tail = seq![
                LayerStep::SetResidual,
                LayerStep::SaveHidden,
                LayerStep::RestoreHidden,
                LayerStep::Moe,
            ];
            let plain = if fused {
                seq![LayerStep::SaveHidden, run, LayerStep::RestoreHidden, LayerStep::Moe]
            } else {
                seq![run, LayerStep::Moe]
            };
            &&& !pending ==> s == plain
            &&& pending && !combined ==> s == seq![LayerStep::Complete] + plain
            &&& pending && combined && eager ==> s == seq![LayerStep::Complete, run] + tail
            &&& pending && combined && !eager ==> s == seq![run, LayerStep::CompleteFast] + tail
        }),
{
}

} // verus!
