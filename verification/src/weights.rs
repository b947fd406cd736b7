//! Weights of a layer, and the products with them.

use vstd::prelude::*;

use crate::quant::{
    dequant_matvec_4bit, law_matvec, matvec, matvec_fits, overwrite, row_times, QuantView,
};
use crate::scalar::{zero, Scalar};

verus! {

/// A quantised matrix.
#[derive(Clone, Copy)]
pub struct QuantMat<'a> {
    pub w: &'a [u32],
    pub scales: &'a [u16],
    pub biases: &'a [u16],
}

impl<'a> QuantMat<'a> {
    /// What the matrix holds.
    pub open spec fn quant(self) -> QuantView {
        QuantView { w: self.w@, scales: self.scales@, biases: self.biases@ }
    }

    /// The matrix holds all that a product with a vector of `x_len` numbers reads.
    pub open spec fn fits(self, x_len: int, out_dim: int, in_dim: int, group_size: int) -> bool {
        matvec_fits(
            self.w@.len() as int,
            self.scales@.len() as int,
            self.biases@.len() as int,
            x_len,
            out_dim,
            in_dim,
            group_size,
        )
    }
}

/// A matrix that may be missing holds all that a product reads.
pub open spec fn mat_fits(
    m: Option<QuantMat>,
    x_len: int,
    out_dim: int,
    in_dim: int,
    group_size: int,
) -> bool {
    m matches Some(q) ==> q.fits(x_len, out_dim, in_dim, group_size)
}

/// A vector after a product was written to its front; without a matrix it stays.
pub open spec fn projected<S: Scalar>(
    m: Option<QuantMat>,
    x: Seq<S>,
    out: Seq<S>,
    out_dim: int,
    in_dim: int,
    group_size: int,
) -> Seq<S> {
    match m {
        Some(q) => overwrite(out, 0, matvec(q.quant(), x, out_dim, in_dim, group_size)),
        None => out,
    }
}

/// Multiply a vector with a matrix that may be missing; returns whether it was there.
pub fn matvec_lookup<S: Scalar>(
    m: Option<QuantMat>,
    x: &[S],
    out: &mut [S],
    out_dim: usize,
    in_dim: usize,
    group_size: usize,
) -> (r: bool)
    requires
        mat_fits(m, x@.len() as int, out_dim as int, in_dim as int, group_size as int),
        m is Some ==> out_dim <= old(out)@.len(),
    ensures
        r == (m is Some),
        final(out)@ == projected(
            m,
            x@,
            old(out)@,
            out_dim as int,
            in_dim as int,
            group_size as int,
        ),
{
    match m {
        Some(q) => {
            dequant_matvec_4bit(q.w, q.scales, q.biases, x, out, out_dim, in_dim, group_size);
            true
        },
        None => false,
    }
}

/// Multiply a vector with a matrix; nothing happens if it is missing.
pub fn dequant_proj<S: Scalar>(
    m: Option<QuantMat>,
    x: &[S],
    out: &mut [S],
    out_dim: usize,
    in_dim: usize,
    group_size: usize,
)
    requires
        mat_fits(m, x@.len() as int, out_dim as int, in_dim as int, group_size as int),
        m is Some ==> out_dim <= old(out)@.len(),
    ensures
        final(out)@ == projected(
            m,
            x@,
            old(out)@,
            out_dim as int,
            in_dim as int,
            group_size as int,
        ),
{
    let found = matvec_lookup(m, x, out, out_dim, in_dim, group_size);
}

/// Sizes of the model that a layer is computed with.
#[derive(Clone, Copy, Debug, PartialEq, Eq, Structural)]
pub struct LayerDims {
    pub hidden_dim: usize,
    pub num_heads: usize,
    pub num_kv_heads: usize,
    pub head_dim: usize,
    pub rotary_dim: usize,
    pub num_experts: usize,
    pub experts_per_tok: usize,
    pub moe_inter: usize,
    pub shared_inter: usize,
    pub num_v_heads: usize,
    pub num_k_heads: usize,
    pub key_dim: usize,
    pub value_dim: usize,
    pub total_key: usize,
    pub total_value: usize,
    pub conv_dim: usize,
    pub conv_kernel: usize,
    pub group_size: usize,
}

impl LayerDims {
    /// Numbers of all query heads.
    pub open spec fn q_dim(self) -> int {
        self.num_heads * self.head_dim
    }

    /// Numbers of all key heads.
    pub open spec fn kv_dim(self) -> int {
        self.num_kv_heads * self.head_dim
    }

    /// Query heads that share a key head.
    pub open spec fn heads_per_kv(self) -> int {
        self.num_heads as int / self.num_kv_heads as int
    }

    /// Value heads that share a key head.
    pub open spec fn k_heads_per_v(self) -> int {
        self.num_v_heads as int / self.num_k_heads as int
    }

    /// The sizes of full attention can be computed.
    pub open spec fn attention_valid(self) -> bool {
        &&& 0 < self.num_kv_heads <= self.num_heads
        &&& 0 < self.group_size
        &&& self.num_heads * (2 * self.head_dim) <= usize::MAX
        &&& self.kv_dim() <= usize::MAX
    }

    /// The sizes of linear attention fit together.
    pub open spec fn linear_valid(self) -> bool {
        &&& 0 < self.num_k_heads <= self.num_v_heads
        &&& 0 < self.group_size
        &&& 0 < self.conv_kernel
        &&& self.num_k_heads * self.key_dim <= self.total_key
        &&& self.num_v_heads * self.value_dim <= self.total_value
        &&& 2 * self.total_key + self.total_value <= self.conv_dim
        &&& ((self.num_v_heads - 1) / self.k_heads_per_v()) * self.key_dim + self.key_dim
            <= self.total_key
        &&& self.value_dim * self.key_dim <= usize::MAX
    }
}

/// Weights of full attention.
#[derive(Clone, Copy)]
pub struct AttnWeights<'a> {
    pub q: Option<QuantMat<'a>>,
    pub k: Option<QuantMat<'a>>,
    pub v: Option<QuantMat<'a>>,
    pub o: Option<QuantMat<'a>>,
    pub q_norm: Option<&'a [u16]>,
    pub k_norm: Option<&'a [u16]>,
}

impl<'a> AttnWeights<'a> {
    /// The matrices hold all that the layer reads.
    pub open spec fn fits(self, d: LayerDims, normed_len: int, attn_len: int) -> bool {
        let gs = d.group_size as int;
        let hd = d.hidden_dim as int;
        &&& mat_fits(self.q, normed_len, 2 * d.q_dim(), hd, gs)
        &&& mat_fits(self.k, normed_len, d.kv_dim(), hd, gs)
        &&& mat_fits(self.v, normed_len, d.kv_dim(), hd, gs)
        &&& mat_fits(self.o, attn_len, hd, d.q_dim(), gs)
    }
}

/// Weights of linear attention.
#[derive(Clone, Copy)]
pub struct LinearWeights<'a> {
    pub qkv: Option<QuantMat<'a>>,
    pub z: Option<QuantMat<'a>>,
    pub b: Option<QuantMat<'a>>,
    pub a: Option<QuantMat<'a>>,
    pub out_proj: Option<QuantMat<'a>>,
    pub conv1d: Option<&'a [u16]>,
    pub a_log: Option<&'a [u32]>,
    pub dt_bias: Option<&'a [u16]>,
    pub norm: Option<&'a [u16]>,
}

impl<'a> LinearWeights<'a> {
    /// The weights hold all that the layer reads.
    pub open spec fn fits(self, d: LayerDims, normed_len: int, gated_len: int) -> bool {
        let gs = d.group_size as int;
        let hd = d.hidden_dim as int;
        &&& mat_fits(self.qkv, normed_len, d.conv_dim as int, hd, gs)
        &&& mat_fits(self.z, normed_len, d.total_value as int, hd, gs)
        &&& mat_fits(self.b, normed_len, d.num_v_heads as int, hd, gs)
        &&& mat_fits(self.a, normed_len, d.num_v_heads as int, hd, gs)
        &&& mat_fits(self.out_proj, gated_len, hd, d.total_value as int, gs)
        &&& self.conv1d matches Some(w) ==> d.conv_dim * d.conv_kernel <= w@.len()
        &&& self.a_log matches Some(a) ==> d.num_v_heads <= a@.len()
        &&& self.dt_bias matches Some(b) ==> d.num_v_heads <= b@.len()
        &&& self.norm matches Some(w) ==> d.value_dim <= w@.len()
    }
}

/// Weights of routing and of the shared expert.
#[derive(Clone, Copy)]
pub struct MoeWeights<'a> {
    pub gate: Option<QuantMat<'a>>,
    pub shared_gate: Option<QuantMat<'a>>,
    pub shared_up: Option<QuantMat<'a>>,
    pub shared_down: Option<QuantMat<'a>>,
    pub shared_expert_gate: Option<QuantMat<'a>>,
}

impl<'a> MoeWeights<'a> {
    /// The matrices hold all that the layer reads.
    pub open spec fn fits(self, d: LayerDims, h_len: int, act_len: int) -> bool {
        let gs = d.group_size as int;
        let hd = d.hidden_dim as int;
        let si = d.shared_inter as int;
        &&& mat_fits(self.gate, h_len, d.num_experts as int, hd, gs)
        &&& mat_fits(self.shared_gate, h_len, si, hd, gs)
        &&& mat_fits(self.shared_up, h_len, si, hd, gs)
        &&& mat_fits(self.shared_down, act_len, hd, si, gs)
        &&& mat_fits(self.shared_expert_gate, h_len, 1, hd, gs)
    }
}

/// A projection, number by number: number `r` is row `r` of the matrix times the vector, and what
/// lies behind the last row stays. Without a matrix everything stays.
pub proof fn law_projected<S: Scalar>(
    m: QuantMat,
    x: Seq<S>,
    out: Seq<S>,
    out_dim: int,
    in_dim: int,
    group_size: int,
    r: int,
)
    requires
        0 < group_size,
        group_size % 8 == 0,
        0 <= in_dim,
        0 <= out_dim <= out.len(),
        0 <= r < out.len(),
    ensures
        ({
            let y = projected(Some(m), x, out, out_dim, in_dim, group_size);
            let q = QuantView { w: m.w@, scales: m.scales@, biases: m.biases@ };
            &&& y.len() == out.len()
            &&& y[r] == (if r < out_dim {
                row_times(q, x, in_dim, group_size, r)
            } else {
                out[r]
            })
            &&& projected(None, x, out, out_dim, in_dim, group_size) == out
        }),
{
    if r < out_dim {
        law_matvec(m.quant(), x, out_dim, in_dim, group_size, r);
    }
}

/// Row `r` of a matrix that may be missing, times a vector; without a matrix it is zero.
pub open spec fn row_of<S: Scalar>(
    m: Option<QuantMat>,
    x: Seq<S>,
    in_dim: int,
    group_size: int,
    r: int,
) -> S {
    match m {
        Some(m) => row_times(
            QuantView { w: m.w@, scales: m.scales@, biases: m.biases@ },
            x,
            in_dim,
            group_size,
            r,
        ),
        None => zero(),
    }
}

/// A projection into zeros gives the rows of the matrix times the vector, all of them zero
/// without a matrix.
pub proof fn law_fresh_projection<S: Scalar>(
    m: Option<QuantMat>,
    x: Seq<S>,
    zeros: Seq<S>,
    out_dim: int,
    in_dim: int,
    group_size: int,
)
    requires
        0 < group_size,
        group_size % 8 == 0,
        0 <= in_dim,
        0 <= out_dim,
        zeros == Seq::new(out_dim as nat, |i: int| zero::<S>()),
    ensures
        projected(m, x, zeros, out_dim, in_dim, group_size) == Seq::new(
            out_dim as nat,
            |r: int| row_of(m, x, in_dim, group_size, r),
        ),
{
    let y = projected(m, x, zeros, out_dim, in_dim, group_size);
    let z = Seq::new(out_dim as nat, |r: int| row_of(m, x, in_dim, group_size, r));
    assert forall|r: int| 0 <= r < out_dim implies y[r] == z[r] by {
        if let Some(q) = m {
            law_projected(q, x, zeros, out_dim, in_dim, group_size, r);
        }
    }
    assert(y =~= z);
}

} // verus!
