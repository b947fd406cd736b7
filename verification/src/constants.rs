//! Architecture constants and the packed layout of a quantised expert.

use vstd::prelude::*;

pub mod qwen35_35b;
pub mod qwen35_35b_stripped;

verus! {

/// Number of output rows per threadgroup in the tiled matvec shaders.
pub const ROWS_PER_TG: u32 = 8;

/// Threadgroup size of the optimised kernels.
pub const TG_SIZE: u32 = 256;

/// Maximum sequence length (controls the KV cache allocation).
pub const MAX_SEQ: usize = 4096;

/// Bit pattern of the RMS normalisation epsilon, 1e-6 in single precision.
pub const RMS_NORM_EPS_BITS: u32 = 0x3586_37BD;

/// Interval at which full (self) attention layers appear.
pub const FULL_ATTN_INTERVAL: usize = 4;

/// Group size of the 4-bit quantisation: 64 weights share one scale and one bias.
pub const GROUP_SIZE: usize = 64;

/// Convolution kernel size of the linear attention conv1d step.
pub const CONV_KERNEL_SIZE: usize = 4;

/// Number of expert slots of the fused expert kernels.
pub const MAX_K: usize = 8;

/// Byte offsets and sizes of the nine tensors of one packed 4-bit expert.
#[derive(Clone, Copy, Debug, PartialEq, Eq, Structural)]
pub struct ExpertLayout {
    pub gate_w_off: usize,
    pub gate_s_off: usize,
    pub gate_b_off: usize,
    pub up_w_off: usize,
    pub up_s_off: usize,
    pub up_b_off: usize,
    pub down_w_off: usize,
    pub down_s_off: usize,
    pub down_b_off: usize,
    pub gate_w_size: usize,
    pub gate_s_size: usize,
    pub gate_b_size: usize,
    pub up_w_size: usize,
    pub up_s_size: usize,
    pub up_b_size: usize,
    pub down_w_size: usize,
    pub down_s_size: usize,
    pub down_b_size: usize,
    pub expert_size_4bit: usize,
}

/// Bytes of a 4-bit weight matrix with `rows * cols` entries.
pub open spec fn packed_weight_bytes(rows: int, cols: int) -> int {
    rows * cols / 2
}

/// Bytes of the 16-bit scales (or biases) of a `rows` by `cols` matrix with groups of `gs`.
pub open spec fn group_param_bytes(rows: int, cols: int, gs: int) -> int {
    rows * (cols / gs) * 2
}

/// Bytes of a whole packed expert: gate and up are `mi` by `hd`, down is `hd` by `mi`.
pub open spec fn expert_bytes(hd: int, mi: int, gs: int) -> int {
    2 * (packed_weight_bytes(mi, hd) + 2 * group_param_bytes(mi, hd, gs)) + packed_weight_bytes(
        hd,
        mi,
    ) + 2 * group_param_bytes(hd, mi, gs)
}

impl ExpertLayout {
    /// The nine (offset, size) regions in file order.
    pub open spec fn regions(self) -> Seq<(int, int)> {
        seq![
            (self.gate_w_off as int, self.gate_w_size as int),
            (self.gate_s_off as int, self.gate_s_size as int),
            (self.gate_b_off as int, self.gate_b_size as int),
            (self.up_w_off as int, self.up_w_size as int),
            (self.up_s_off as int, self.up_s_size as int),
            (self.up_b_off as int, self.up_b_size as int),
            (self.down_w_off as int, self.down_w_size as int),
            (self.down_s_off as int, self.down_s_size as int),
            (self.down_b_off as int, self.down_b_size as int),
        ]
    }

    /// Each region starts where the one before it ends, from byte 0 to the expert's size.
    pub open spec fn contiguous(self) -> bool {
        let r = self.regions();
        &&& r[0].0 == 0
        &&& forall|i: int| #![trigger r[i]] 0 < i < 9 ==> r[i].0 == r[i - 1].0 + r[i - 1].1
        &&& self.expert_size_4bit == r[8].0 + r[8].1
    }
}

/// Compute the packed layout of a 4-bit expert from the model's dimensions.
pub fn expert_layout(hd: usize, mi: usize, gs: usize) -> (l: ExpertLayout)
    requires
        gs > 0,
        mi * hd <= usize::MAX,
        expert_bytes(hd as int, mi as int, gs as int) <= usize::MAX,
    ensures
        l.gate_w_size == packed_weight_bytes(mi as int, hd as int),
        l.gate_s_size == group_param_bytes(mi as int, hd as int, gs as int),
        l.gate_b_size == l.gate_s_size,
        l.up_w_size == l.gate_w_size,
        l.up_s_size == l.gate_s_size,
        l.up_b_size == l.gate_s_size,
        l.down_w_size == packed_weight_bytes(hd as int, mi as int),
        l.down_s_size == group_param_bytes(hd as int, mi as int, gs as int),
        l.down_b_size == l.down_s_size,
        l.contiguous(),
        l.expert_size_4bit == expert_bytes(hd as int, mi as int, gs as int),
{
    proof {
        let (h, m, g) = (hd as int, mi as int, gs as int);
        assert(m * h == h * m) by (nonlinear_arith);
        assert(0 <= h / g && 0 <= m / g) by (nonlinear_arith)
            requires
                h >= 0,
                m >= 0,
                g > 0,
        ;
        assert(0 <= m * (h / g)) by (nonlinear_arith)
            requires
                m >= 0,
                h / g >= 0,
        ;
        assert(0 <= h * (m / g)) by (nonlinear_arith)
            requires
                h >= 0,
                m / g >= 0,
        ;
        assert(0 <= m * h) by (nonlinear_arith)
            requires
                m >= 0,
                h >= 0,
        ;
    }
    let gate_w: usize = mi * hd / 2;
    let gate_sb: usize = mi * (hd / gs) * 2;
    let up_w: usize = mi * hd / 2;
    let up_sb: usize = mi * (hd / gs) * 2;
    let down_w: usize = hd * mi / 2;
    let down_sb: usize = hd * (mi / gs) * 2;
    let gate_w_off: usize = 0;
    let gate_s_off: usize = gate_w;
    let gate_b_off: usize = gate_w + gate_sb;
    let up_w_off: usize = gate_w + 2 * gate_sb;
    let up_s_off: usize = up_w_off + up_w;
    let up_b_off: usize = up_s_off + up_sb;
    let down_w_off: usize = up_b_off + up_sb;
    let down_s_off: usize = down_w_off + down_w;
    let down_b_off: usize = down_s_off + down_sb;
    let expert_size_4bit: usize = down_b_off + down_sb;
    ExpertLayout {
        gate_w_off,
        gate_s_off,
        gate_b_off,
        up_w_off,
        up_s_off,
        up_b_off,
        down_w_off,
        down_s_off,
        down_b_off,
        gate_w_size: gate_w,
        gate_s_size: gate_sb,
        gate_b_size: gate_sb,
        up_w_size: up_w,
        up_s_size: up_sb,
        up_b_size: up_sb,
        down_w_size: down_w,
        down_s_size: down_sb,
        down_b_size: down_sb,
        expert_size_4bit,
    }
}

/// The nine tensors of a packed expert never overlap: of two regions the earlier one ends
/// before the later one starts, and all of them lie inside the expert.
pub proof fn law_layout_regions_disjoint(l: ExpertLayout, i: int, j: int)
    requires
        l.contiguous(),
        0 <= i < j < 9,
    ensures
        l.regions()[i].0 + l.regions()[i].1 <= l.regions()[j].0,
        0 <= l.regions()[i].0,
        l.regions()[j].0 + l.regions()[j].1 <= l.expert_size_4bit,
{
    let r = l.regions();
    assert(r[1].0 == r[0].0 + r[0].1);
    assert(r[2].0 == r[1].0 + r[1].1);
    assert(r[3].0 == r[2].0 + r[2].1);
    assert(r[4].0 == r[3].0 + r[3].1);
    assert(r[5].0 == r[4].0 + r[4].1);
    assert(r[6].0 == r[5].0 + r[5].1);
    assert(r[7].0 == r[6].0 + r[6].1);
    assert(r[8].0 == r[7].0 + r[7].1);
}

/// Two packed weights fill a byte, and every group of a row has a scale of two bytes. An expert
/// has the weights, scales and biases of two matrices of `mi` rows and one of `hd` rows.
pub proof fn law_packed_sizes(rows: int, cols: int, hd: int, mi: int, gs: int)
    requires
        0 <= rows,
        0 <= cols,
        0 < gs,
    ensures
        (rows * cols) % 2 == 0 ==> 2 * packed_weight_bytes(rows, cols) == rows * cols,
        cols % gs == 0 ==> group_param_bytes(rows, cols, gs) * gs == 2 * (rows * cols),
        expert_bytes(hd, mi, gs) == 2 * packed_weight_bytes(mi, hd) + packed_weight_bytes(hd, mi)
            + 4 * group_param_bytes(mi, hd, gs) + 2 * group_param_bytes(hd, mi, gs),
{
    if cols % gs == 0 {
        vstd::arithmetic::div_mod::lemma_fundamental_div_mod(cols, gs);
        let q = cols / gs;
        assert(rows * q * 2 * gs == 2 * (rows * cols)) by (nonlinear_arith)
            requires
                cols == gs * q,
        ;
    }
}

} // verus!
