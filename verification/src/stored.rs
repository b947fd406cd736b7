//! Numbers as a cache stores them: as they are, or as bf16 bit patterns.

use vstd::arithmetic::mul::lemma_mul_inequality;
use vstd::prelude::*;

use crate::float_bits::f32_to_bf16;
use crate::math_util::bf16_values;
use crate::quant::{bf16_scalar, bf16_value, overwrite};
use crate::scalar::Scalar;

verus! {

/// A form in which a cache stores a number.
pub trait Stored<S: Scalar>: Sized {
    /// The number that is stored.
    spec fn s_number(self) -> S;

    /// The number that is stored.
    fn number(&self) -> (r: S)
        ensures
            r == self.s_number(),
    ;
}

impl<S: Scalar> Stored<S> for S {
    open spec fn s_number(self) -> S {
        self
    }

    fn number(&self) -> (r: S) {
        self.dup()
    }
}

impl<S: Scalar> Stored<S> for u16 {
    open spec fn s_number(self) -> S {
        bf16_value(self)
    }

    fn number(&self) -> (r: S) {
        bf16_scalar(*self)
    }
}

/// The numbers that a cache stores.
pub open spec fn numbers<S: Scalar, T: Stored<S>>(x: Seq<T>) -> Seq<S> {
    Seq::new(x.len(), |i: int| x[i].s_number())
}

/// Numbers stored as they are.
pub proof fn lemma_plain_numbers<S: Scalar>(x: Seq<S>)
    ensures
        numbers::<S, S>(x) == x,
{
    assert(numbers::<S, S>(x) =~= x);
}

/// Numbers stored as bf16 bit patterns.
pub proof fn lemma_bf16_numbers<S: Scalar>(x: Seq<u16>)
    ensures
        numbers::<S, u16>(x) == bf16_values::<S>(x),
{
    assert(numbers::<S, u16>(x) =~= bf16_values::<S>(x));
}

/// The upper halves of the bit patterns of the first `n` numbers.
pub open spec fn truncated<S: Scalar>(x: Seq<S>, n: int) -> Seq<u16> {
    Seq::new(n as nat, |i: int| (x[i].s_bits() / 0x1_0000) as u16)
}

/// Append a token's keys or values to a cache of bf16 numbers.
pub fn append_bf16<S: Scalar>(x: &[S], cache: &mut Vec<u16>, pos: usize, kv_dim: usize)
    requires
        kv_dim <= x@.len(),
        pos * kv_dim + kv_dim <= old(cache)@.len(),
    ensures
        final(cache)@ == overwrite(old(cache)@, pos * kv_dim, truncated(x@, kv_dim as int)),
{
    proof {
        assert(cache@.len() == cache.len());
        lemma_mul_inequality(0, pos as int, kv_dim as int);
    }
    let base: usize = pos * kv_dim;
    for i in 0..kv_dim
        invariant
            kv_dim <= x@.len(),
            base + kv_dim <= cache@.len(),
            cache@.len() == old(cache)@.len(),
            forall|j: int|
                0 <= j < cache@.len() ==> #[trigger] cache@[j] == (if base <= j < base + i {
                    truncated(x@, kv_dim as int)[j - base]
                } else {
                    old(cache)@[j]
                }),
    {
        assert(cache@.len() == cache.len());
        cache.set(base + i, f32_to_bf16(x[i].bits()));
    }
    assert(cache@ =~= overwrite(old(cache)@, base as int, truncated(x@, kv_dim as int)));
}

/// Appending at a position stores that position's numbers and no others: number `i` of position
/// `pos` becomes the upper half of its bit pattern, so that reading it gives the number with the
/// lower half cleared; every other place of the cache stays as it is.
pub proof fn law_append_stores<S: Scalar>(
    x: Seq<S>,
    cache: Seq<u16>,
    pos: int,
    kv_dim: int,
    q: int,
    i: int,
)
    requires
        0 <= pos,
        0 <= q,
        0 <= i < kv_dim,
        kv_dim <= x.len(),
        q * kv_dim + kv_dim <= cache.len(),
        pos * kv_dim + kv_dim <= cache.len(),
    ensures
        ({
            let after = overwrite(cache, pos * kv_dim, truncated(x, kv_dim));
            let bits = x[i].s_bits();
            &&& after.len() == cache.len()
            &&& q != pos ==> after[q * kv_dim + i] == cache[q * kv_dim + i]
            &&& q == pos ==> after[q * kv_dim + i] as int == bits as int / 0x1_0000
            &&& q == pos ==> numbers::<S, u16>(after)[q * kv_dim + i] == S::s_of_bits(
                (bits - bits % 0x1_0000) as u32,
            )
        }),
{
    lemma_mul_inequality(0, q, kv_dim);
    lemma_mul_inequality(0, pos, kv_dim);
    if q < pos {
        lemma_mul_inequality(q + 1, pos, kv_dim);
        assert((q + 1) * kv_dim == q * kv_dim + kv_dim) by (nonlinear_arith);
    } else if pos < q {
        lemma_mul_inequality(pos + 1, q, kv_dim);
        assert((pos + 1) * kv_dim == pos * kv_dim + kv_dim) by (nonlinear_arith);
    }
    let bits = x[i].s_bits();
    assert(bits as int / 0x1_0000 * 0x1_0000 == bits - bits as int % 0x1_0000);
    assert(bits / 0x1_0000 <= 0xFFFF);
}

} // verus!
