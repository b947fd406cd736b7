//! Attention state of one layer.

use vstd::prelude::*;

use crate::scalar::{zero, zero_vec, Scalar};

verus! {

/// A vector of `n` copies of a value.
pub fn filled<T: Copy>(value: T, n: usize) -> (r: Vec<T>)
    ensures
        r@ == Seq::new(n as nat, |i: int| value),
{
    let mut v: Vec<T> = Vec::new();
    for i in 0..n
        invariant
            v@ == Seq::new(i as nat, |j: int| value),
    {
        v.push(value);
        assert(v@ =~= Seq::new((i + 1) as nat, |j: int| value));
    }
    v
}

/// `a * b * c`, where the product fits.
pub(crate) fn product3(a: usize, b: usize, c: usize) -> (r: usize)
    requires
        a * b * c <= usize::MAX,
        c > 0 || a * b <= usize::MAX,
    ensures
        r == a * b * c,
{
    proof {
        if c > 0 {
            assert(a * b <= a * b * c) by (nonlinear_arith)
                requires
                    a >= 0,
                    b >= 0,
                    c > 0,
            ;
        }
    }
    let ab: usize = a * b;
    ab * c
}

/// Keys and values of a full-attention layer, as bf16 bit patterns.
pub struct KVCache {
    pub k_cache: Vec<u16>,
    pub v_cache: Vec<u16>,
    pub len: usize,
}

impl KVCache {
    /// An empty cache with room for `max_seq_len` positions.
    pub fn new(max_seq_len: usize, num_kv_heads: usize, head_dim: usize) -> (r: Self)
        requires
            max_seq_len * num_kv_heads <= usize::MAX,
            max_seq_len * num_kv_heads * head_dim <= usize::MAX,
        ensures
            r.k_cache@ == Seq::new(
                (max_seq_len * num_kv_heads * head_dim) as nat,
                |i: int| 0u16,
            ),
            r.v_cache@ == r.k_cache@,
            r.len == 0,
    {
        let kv_size: usize = product3(max_seq_len, num_kv_heads, head_dim);
        KVCache { k_cache: filled(0u16, kv_size), v_cache: filled(0u16, kv_size), len: 0 }
    }
}

/// Convolution and recurrent state of a linear-attention layer.
pub struct LinearAttnState<S> {
    pub conv_state: Vec<S>,
    pub ssm_state: Vec<S>,
}

impl<S: Scalar> LinearAttnState<S> {
    /// The state before the first token.
    pub fn new(
        conv_kernel_size: i32,
        linear_conv_dim: i32,
        linear_num_v_heads: i32,
        linear_value_dim: i32,
        linear_key_dim: i32,
    ) -> (r: Self)
        requires
            conv_kernel_size >= 1,
            linear_conv_dim >= 0,
            linear_num_v_heads >= 0,
            linear_value_dim >= 0,
            linear_key_dim >= 0,
            (conv_kernel_size - 1) * linear_conv_dim <= usize::MAX,
            linear_num_v_heads * linear_value_dim <= usize::MAX,
            linear_num_v_heads * linear_value_dim * linear_key_dim <= usize::MAX,
        ensures
            r.conv_state@ == Seq::new(
                ((conv_kernel_size - 1) * linear_conv_dim) as nat,
                |i: int| zero::<S>(),
            ),
            r.ssm_state@ == Seq::new(
                (linear_num_v_heads * linear_value_dim * linear_key_dim) as nat,
                |i: int| zero::<S>(),
            ),
    {
        let conv_len: usize = (conv_kernel_size - 1) as usize * linear_conv_dim as usize;
        let ssm_len: usize = product3(
            linear_num_v_heads as usize,
            linear_value_dim as usize,
            linear_key_dim as usize,
        );
        LinearAttnState { conv_state: zero_vec(conv_len), ssm_state: zero_vec(ssm_len) }
    }
}

} // verus!
