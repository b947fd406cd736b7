//! Sums, products and maxima of whole sequences of numbers.
//!
//! The laws of the layers are stated over these. A sum starts at zero and takes the numbers
//! from the first to the last.

use vstd::prelude::*;

use crate::scalar::{least, zero, Scalar};

verus! {

/// The sum of the numbers.
pub open spec fn total<S: Scalar>(x: Seq<S>) -> S {
    x.fold_left(zero::<S>(), |sum: S, y: S| sum.s_plus(y))
}

/// The sum of the products of numbers that stand at the same place.
pub open spec fn inner<S: Scalar>(a: Seq<S>, b: Seq<S>) -> S {
    total(Seq::new(a.len(), |i: int| a[i].s_times(b[i])))
}

/// The largest of the numbers; negative infinity if there is none.
pub open spec fn largest<S: Scalar>(x: Seq<S>) -> S {
    x.fold_left(least::<S>(), |top: S, y: S| top.s_max(y))
}

/// One more number adds to the sum.
pub proof fn lemma_total_step<S: Scalar>(x: Seq<S>, n: int)
    requires
        0 <= n < x.len(),
    ensures
        total(x.take(n + 1)) == total(x.take(n)).s_plus(x[n]),
{
    assert(x.take(n + 1).drop_last() =~= x.take(n));
}

/// One more number may be the largest.
pub proof fn lemma_largest_step<S: Scalar>(x: Seq<S>, n: int)
    requires
        0 <= n < x.len(),
    ensures
        largest(x.take(n + 1)) == largest(x.take(n)).s_max(x[n]),
{
    assert(x.take(n + 1).drop_last() =~= x.take(n));
}

/// Nothing sums to zero.
pub proof fn lemma_total_none<S: Scalar>(x: Seq<S>)
    ensures
        total(x.take(0)) == zero::<S>(),
        largest(x.take(0)) == least::<S>(),
{
}

/// The whole of a sequence is its longest start.
pub proof fn lemma_take_all<T>(x: Seq<T>)
    ensures
        x.take(x.len() as int) == x,
{
    assert(x.take(x.len() as int) =~= x);
}

/// Where addition is exact, the sum of the numbers is the sum of their values.
pub proof fn law_total_is_exact<S: Scalar>(x: Seq<S>, value: spec_fn(S) -> int)
    requires
        value(zero()) == 0,
        forall|a: S, b: S| value(#[trigger] a.s_plus(b)) == value(a) + value(b),
    ensures
        value(total(x)) == x.map_values(value).fold_left(0int, |sum: int, y: int| sum + y),
    decreases x.len(),
{
    let ints = x.map_values(value);
    if x.len() > 0 {
        law_total_is_exact(x.drop_last(), value);
        assert(ints.drop_last() =~= x.drop_last().map_values(value));
        assert(total(x) == total(x.drop_last()).s_plus(x.last()));
    }
}

/// Where arithmetic is exact, the product of two vectors is the sum of the products of their
/// values.
pub proof fn law_inner_is_exact<S: Scalar>(a: Seq<S>, b: Seq<S>, value: spec_fn(S) -> int)
    requires
        a.len() == b.len(),
        value(zero()) == 0,
        forall|x: S, y: S| value(#[trigger] x.s_plus(y)) == value(x) + value(y),
        forall|x: S, y: S| value(#[trigger] x.s_times(y)) == value(x) * value(y),
    ensures
        value(inner(a, b)) == Seq::new(
            a.len(),
            |i: int| value(a[i]) * value(b[i]),
        ).fold_left(0int, |sum: int, y: int| sum + y),
{
    let products = Seq::new(a.len(), |i: int| a[i].s_times(b[i]));
    law_total_is_exact(products, value);
    assert(products.map_values(value) =~= Seq::new(
        a.len(),
        |i: int| value(a[i]) * value(b[i]),
    ));
}

/// The largest number is one of the numbers, and none of them is above it, as long as the
/// larger of two numbers is one of them and not below either.
pub proof fn law_largest<S: Scalar>(x: Seq<S>, below: spec_fn(S, S) -> bool, i: int)
    requires
        0 <= i < x.len(),
        forall|a: S| #[trigger] below(a, a),
        forall|a: S, b: S, c: S| #[trigger] below(a, b) && #[trigger] below(b, c) ==> below(a, c),
        forall|a: S, b: S|
            below(a, #[trigger] a.s_max(b)) && below(b, a.s_max(b)) && (a.s_max(b) == a
                || a.s_max(b) == b),
    ensures
        below(x[i], largest(x)),
        largest(x) == least::<S>() || x.contains(largest(x)),
    decreases x.len(),
{
    let rest = x.drop_last();
    let top = largest(rest);
    assert(largest(x) == top.s_max(x.last()));
    if i < rest.len() {
        law_largest(rest, below, i);
        assert(below(rest[i], top));
    }
    if rest.len() > 0 {
        law_largest(rest, below, 0);
        if rest.contains(top) {
            let j = choose|j: int| 0 <= j < rest.len() && rest[j] == top;
            assert(x[j] == top);
        }
    }
    assert(x[x.len() - 1] == x.last());
}

} // verus!
