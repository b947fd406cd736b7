//! Choice of the experts of a token.

use vstd::prelude::*;

use crate::float_bits::{float_lt, is_nan, order_key};
use crate::math_util::{law_normalized, normalize_weights, normalized, softmax, softmax_of};
use crate::sample::exact_patterns;
use crate::scalar::{one, Scalar};
use crate::sums::total;
use crate::topk::{law_topk_in_range, law_topk_selects_highest, nan_free, topk, HeapView};

verus! {

/// The bit patterns of numbers.
pub open spec fn bits_of<S: Scalar>(x: Seq<S>) -> Seq<u32> {
    Seq::new(x.len(), |i: int| x[i].s_bits())
}

/// The numbers with bit patterns.
pub open spec fn of_bits<S: Scalar>(bits: Seq<u32>) -> Seq<S> {
    Seq::new(bits.len(), |i: int| S::s_of_bits(bits[i]))
}

/// The `k` highest scores and their positions, in heap order.
pub open spec fn best<S: Scalar>(scores: Seq<S>, k: usize) -> HeapView {
    (HeapView {
        values: Seq::new(k as nat, |i: int| 0u32),
        indices: Seq::new(k as nat, |i: int| 0usize),
    }).select(k as int, bits_of(scores))
}

/// The experts of a token and their weights, which sum to one.
pub struct Routing<S> {
    pub indices: Vec<usize>,
    pub weights: Vec<S>,
}

/// Choose the `k` experts with the highest scores.
pub fn choose_experts<S: Scalar>(scores: &[S], k: usize) -> (r: Routing<S>)
    requires
        0 < k,
    ensures
        r.indices@ == best(scores@, k).indices,
        r.weights@ == normalized(of_bits::<S>(best(scores@, k).values)),
        r.indices@.len() == k,
        r.weights@.len() == k,
{
    let n: usize = scores.len();
    let mut bits: Vec<u32> = Vec::new();
    for i in 0..n
        invariant
            n == scores@.len(),
            bits@ == bits_of(scores@).take(i as int),
    {
        bits.push(scores[i].bits());
        assert(bits@ =~= bits_of(scores@).take(i + 1));
    }
    assert(bits@ =~= bits_of(scores@));
    let mut indices: Vec<usize> = crate::attention::filled(0usize, k);
    let mut values: Vec<u32> = crate::attention::filled(0u32, k);
    topk(bits.as_slice(), k, indices.as_mut_slice(), values.as_mut_slice());
    let mut weights: Vec<S> = Vec::new();
    for i in 0..k
        invariant
            k == values@.len(),
            weights@ == of_bits::<S>(values@).take(i as int),
    {
        weights.push(S::of_bits(values[i]));
        assert(weights@ =~= of_bits::<S>(values@).take(i + 1));
    }
    assert(weights@ =~= of_bits::<S>(values@));
    normalize_weights(weights.as_mut_slice());
    Routing { indices, weights }
}

/// Turn router logits into probabilities in place, and choose the experts.
pub fn route<S: Scalar>(gate_scores: &mut [S], k: usize) -> (r: Routing<S>)
    requires
        0 < k,
    ensures
        final(gate_scores)@ == softmax_of(old(gate_scores)@, 0, old(gate_scores)@.len() as int),
        r.indices@ == best(final(gate_scores)@, k).indices,
        r.weights@ == normalized(of_bits::<S>(best(final(gate_scores)@, k).values)),
        r.indices@.len() == k,
        r.weights@.len() == k,
{
    softmax(gate_scores);
    choose_experts(gate_scores, k)
}

/// The choice of experts: `k` different ones, each with its own score, and no expert that was
/// left out has a higher score than one that was chosen.
pub proof fn law_chosen_experts<S: Scalar>(scores: Seq<S>, k: usize, a: int, b: int, left: int)
    requires
        0 < k <= scores.len() <= usize::MAX,
        forall|j: int| 0 <= j < scores.len() ==> !is_nan((#[trigger] scores[j]).s_bits()),
        0 <= a < k,
        0 <= b < k,
        0 <= left < scores.len(),
        forall|j: int| 0 <= j < k ==> #[trigger] best(scores, k).indices[j] != left,
    ensures
        ({
            let chosen = best(scores, k);
            let i = chosen.indices[a] as int;
            &&& chosen.indices.len() == k && chosen.values.len() == k
            &&& 0 <= i < scores.len()
            &&& chosen.values[a] == scores[i].s_bits()
            &&& a != b ==> i != chosen.indices[b]
            &&& order_key(scores[left].s_bits()) <= order_key(scores[i].s_bits())
        }),
{
    let start = HeapView {
        values: Seq::new(k as nat, |i: int| 0u32),
        indices: Seq::new(k as nat, |i: int| 0usize),
    };
    let bits = bits_of(scores);
    assert forall|j: int| 0 <= j < bits.len() implies !is_nan(#[trigger] bits[j]) by {
        assert(!is_nan(scores[j].s_bits()));
    }
    assert(nan_free(bits, bits.len() as int));
    law_topk_selects_highest(start, k as int, bits);
    law_topk_in_range(start, k as int, bits, scores.len() as int);
    let h = start.select(k as int, bits);
    assert(h == best(scores, k));
    assert(0 <= h.indices[a] < scores.len());
    assert(h.values[a] == bits[h.indices[a] as int]);
    if a < b {
        assert(h.indices[a] != h.indices[b]);
    } else if b < a {
        assert(h.indices[b] != h.indices[a]);
    }
    assert(!crate::topk::selected(h, k as int, crate::topk::no_hole(), left));
    assert(order_key(bits[left]) <= order_key(h.values[a]));
}

/// The weight of a chosen expert is its score over the sum of the scores of all that were
/// chosen, as long as that sum is positive.
pub proof fn law_expert_weights<S: Scalar>(scores: Seq<S>, k: usize, a: int)
    requires
        0 < k <= scores.len() <= usize::MAX,
        exact_patterns::<S>(),
        forall|j: int| 0 <= j < scores.len() ==> !is_nan((#[trigger] scores[j]).s_bits()),
        forall|j: int|
            0 <= j < scores.len() ==> S::s_of_bits((#[trigger] scores[j]).s_bits()) == scores[j],
        0 <= a < k,
    ensures
        ({
            let chosen = best(scores, k);
            let picked = Seq::new(k as nat, |j: int| scores[chosen.indices[j] as int]);
            let w = normalized(of_bits::<S>(chosen.values));
            &&& w.len() == k
            &&& w[a] == (if float_lt(0, total(picked).s_bits()) {
                picked[a].s_times(one::<S>().s_over(total(picked)))
            } else {
                picked[a]
            })
        }),
{
    let chosen = best(scores, k);
    let picked = Seq::new(k as nat, |j: int| scores[chosen.indices[j] as int]);
    let start = HeapView {
        values: Seq::new(k as nat, |i: int| 0u32),
        indices: Seq::new(k as nat, |i: int| 0usize),
    };
    let bits = bits_of(scores);
    assert forall|j: int| 0 <= j < bits.len() implies !is_nan(#[trigger] bits[j]) by {
        assert(!is_nan(scores[j].s_bits()));
    }
    law_topk_selects_highest(start, k as int, bits);
    law_topk_in_range(start, k as int, bits, scores.len() as int);
    let raw = of_bits::<S>(chosen.values);
    assert forall|j: int| 0 <= j < k implies raw[j] == picked[j] by {
        let i = chosen.indices[j] as int;
        assert(chosen.values[j] == bits[i]);
        assert(S::s_of_bits(scores[i].s_bits()) == scores[i]);
    }
    assert(raw =~= picked);
    law_normalized(picked, a);
}

} // verus!
