//! One expert on the CPU, from its packed bytes.

use vstd::prelude::*;

use crate::constants::{group_param_bytes, packed_weight_bytes, ExpertLayout};
use crate::math_util::{activate_expert, expert_activation, law_gating};
use crate::quant::{
    dequant_matvec_4bit, law_matvec, matvec, matvec_fits, overwrite, row_times, QuantView,
};
use crate::scalar::{one, zero_vec, Scalar};
use crate::types::{ExpertLayoutTable, ModelConfig};

verus! {

/// The little-endian word at a byte offset.
pub open spec fn word_at(data: Seq<u8>, off: int) -> u32 {
    (data[off] + 0x100 * data[off + 1] + 0x1_0000 * data[off + 2] + 0x100_0000 * data[off
        + 3]) as u32
}

/// The little-endian half word at a byte offset.
pub open spec fn half_at(data: Seq<u8>, off: int) -> u16 {
    (data[off] + 0x100 * data[off + 1]) as u16
}

/// `n` words from a byte offset on.
pub open spec fn words_at(data: Seq<u8>, off: int, n: int) -> Seq<u32> {
    Seq::new(n as nat, |i: int| word_at(data, off + 4 * i))
}

/// `n` half words from a byte offset on.
pub open spec fn halves_at(data: Seq<u8>, off: int, n: int) -> Seq<u16> {
    Seq::new(n as nat, |i: int| half_at(data, off + 2 * i))
}

/// Read `n` words.
pub fn read_words(data: &[u8], off: usize, n: usize) -> (r: Vec<u32>)
    requires
        off + 4 * n <= data@.len(),
    ensures
        r@ == words_at(data@, off as int, n as int),
{
    let mut v: Vec<u32> = Vec::new();
    for i in 0..n
        invariant
            off + 4 * n <= data@.len(),
            v@ == words_at(data@, off as int, i as int),
    {
        assert(data@.len() == data.len());
        let at: usize = off + 4 * i;
        let lo: u32 = data[at] as u32 + 0x100 * (data[at + 1] as u32);
        let hi: u32 = 0x1_0000 * (data[at + 2] as u32) + 0x100_0000 * (data[at + 3] as u32);
        v.push(lo + hi);
        assert(v@ =~= words_at(data@, off as int, i + 1));
    }
    v
}

/// Read `n` half words.
pub fn read_halves(data: &[u8], off: usize, n: usize) -> (r: Vec<u16>)
    requires
        off + 2 * n <= data@.len(),
    ensures
        r@ == halves_at(data@, off as int, n as int),
{
    let mut v: Vec<u16> = Vec::new();
    for i in 0..n
        invariant
            off + 2 * n <= data@.len(),
            v@ == halves_at(data@, off as int, i as int),
    {
        assert(data@.len() == data.len());
        let at: usize = off + 2 * i;
        v.push(data[at] as u16 + 0x100 * (data[at + 1] as u16));
        assert(v@ =~= halves_at(data@, off as int, i + 1));
    }
    v
}

/// Where the three tensors of a projection lie in an expert's bytes, and how many words and
/// scales they have.
#[derive(Clone, Copy, Debug, PartialEq, Eq, Structural)]
pub struct ProjPart {
    pub w_off: usize,
    pub s_off: usize,
    pub b_off: usize,
    pub words: usize,
    pub groups: usize,
}

impl ProjPart {
    /// The matrix in the bytes.
    pub open spec fn quant(self, data: Seq<u8>) -> QuantView {
        QuantView {
            w: words_at(data, self.w_off as int, self.words as int),
            scales: halves_at(data, self.s_off as int, self.groups as int),
            biases: halves_at(data, self.b_off as int, self.groups as int),
        }
    }

    /// The tensors lie in `len` bytes and hold a matrix.
    pub open spec fn fits(
        self,
        len: int,
        x_len: int,
        out_dim: int,
        in_dim: int,
        group_size: int,
    ) -> bool {
        &&& self.w_off + 4 * self.words <= len
        &&& self.s_off + 2 * self.groups <= len
        &&& self.b_off + 2 * self.groups <= len
        &&& matvec_fits(
            self.words as int,
            self.groups as int,
            self.groups as int,
            x_len,
            out_dim,
            in_dim,
            group_size,
        )
    }
}

/// Where the projections of an expert lie in its bytes.
#[derive(Clone, Copy, Debug, PartialEq, Eq, Structural)]
pub struct ExpertParts {
    pub gate: ProjPart,
    pub up: ProjPart,
    pub down: ProjPart,
}

/// The parts of an expert, as a layout gives them.
pub open spec fn layout_parts(l: ExpertLayout) -> ExpertParts {
    ExpertParts {
        gate: ProjPart {
            w_off: l.gate_w_off,
            s_off: l.gate_s_off,
            b_off: l.gate_b_off,
            words: (l.gate_w_size / 4) as usize,
            groups: (l.gate_s_size / 2) as usize,
        },
        up: ProjPart {
            w_off: l.up_w_off,
            s_off: l.up_s_off,
            b_off: l.up_b_off,
            words: (l.up_w_size / 4) as usize,
            groups: (l.up_s_size / 2) as usize,
        },
        down: ProjPart {
            w_off: l.down_w_off,
            s_off: l.down_s_off,
            b_off: l.down_b_off,
            words: (l.down_w_size / 4) as usize,
            groups: (l.down_s_size / 2) as usize,
        },
    }
}

/// The parts of an expert, as a layout gives them.
pub fn parts_of(l: &ExpertLayout) -> (r: ExpertParts)
    ensures
        r == layout_parts(*l),
{
    ExpertParts {
        gate: ProjPart {
            w_off: l.gate_w_off,
            s_off: l.gate_s_off,
            b_off: l.gate_b_off,
            words: l.gate_w_size / 4,
            groups: l.gate_s_size / 2,
        },
        up: ProjPart {
            w_off: l.up_w_off,
            s_off: l.up_s_off,
            b_off: l.up_b_off,
            words: l.up_w_size / 4,
            groups: l.up_s_size / 2,
        },
        down: ProjPart {
            w_off: l.down_w_off,
            s_off: l.down_s_off,
            b_off: l.down_b_off,
            words: l.down_w_size / 4,
            groups: l.down_s_size / 2,
        },
    }
}

impl ExpertParts {
    /// The projections lie in `len` bytes.
    pub open spec fn fits(
        self,
        len: int,
        x_len: int,
        hidden_dim: int,
        inter: int,
        group_size: int,
    ) -> bool {
        &&& self.gate.fits(len, x_len, inter, hidden_dim, group_size)
        &&& self.up.fits(len, x_len, inter, hidden_dim, group_size)
        &&& self.down.fits(len, inter, hidden_dim, inter, group_size)
    }
}

/// The output of an expert: down projection of the SwiGLU of gate and up projection.
pub open spec fn expert_output<S: Scalar>(
    data: Seq<u8>,
    parts: ExpertParts,
    x: Seq<S>,
    hidden_dim: int,
    inter: int,
    group_size: int,
) -> Seq<S> {
    let gate = matvec(parts.gate.quant(data), x, inter, hidden_dim, group_size);
    let up = matvec(parts.up.quant(data), x, inter, hidden_dim, group_size);
    matvec(
        parts.down.quant(data),
        expert_activation(gate, up, inter),
        hidden_dim,
        inter,
        group_size,
    )
}

/// Multiply a matrix in an expert's bytes with a vector.
fn project_part<S: Scalar>(
    data: &[u8],
    part: &ProjPart,
    x: &[S],
    out: &mut [S],
    out_dim: usize,
    in_dim: usize,
    group_size: usize,
)
    requires
        part.fits(
            data@.len() as int,
            x@.len() as int,
            out_dim as int,
            in_dim as int,
            group_size as int,
        ),
        out_dim <= old(out)@.len(),
    ensures
        final(out)@ == overwrite(
            old(out)@,
            0,
            matvec(
                part.quant(data@),
                x@,
                out_dim as int,
                in_dim as int,
                group_size as int,
            ),
        ),
{
    let w: Vec<u32> = read_words(data, part.w_off, part.words);
    let s: Vec<u16> = read_halves(data, part.s_off, part.groups);
    let b: Vec<u16> = read_halves(data, part.b_off, part.groups);
    dequant_matvec_4bit(
        w.as_slice(),
        s.as_slice(),
        b.as_slice(),
        x,
        out,
        out_dim,
        in_dim,
        group_size,
    );
}

/// Run one expert.
pub fn run_expert<S: Scalar>(
    data: &[u8],
    parts: &ExpertParts,
    x: &[S],
    out: &mut [S],
    hidden_dim: usize,
    inter: usize,
    group_size: usize,
)
    requires
        parts.fits(
            data@.len() as int,
            x@.len() as int,
            hidden_dim as int,
            inter as int,
            group_size as int,
        ),
        hidden_dim <= old(out)@.len(),
    ensures
        final(out)@ == overwrite(
            old(out)@,
            0,
            expert_output(
                data@,
                *parts,
                x@,
                hidden_dim as int,
                inter as int,
                group_size as int,
            ),
        ),
{
    let mut gate: Vec<S> = zero_vec(inter);
    let mut up: Vec<S> = zero_vec(inter);
    let mut act: Vec<S> = zero_vec(inter);
    project_part(data, &parts.gate, x, gate.as_mut_slice(), inter, hidden_dim, group_size);
    project_part(data, &parts.up, x, up.as_mut_slice(), inter, hidden_dim, group_size);
    activate_expert(gate.as_slice(), up.as_slice(), act.as_mut_slice(), inter);
    proof {
        let g = matvec(
            parts.gate.quant(data@),
            x@,
            inter as int,
            hidden_dim as int,
            group_size as int,
        );
        let u = matvec(
            parts.up.quant(data@),
            x@,
            inter as int,
            hidden_dim as int,
            group_size as int,
        );
        assert(gate@ =~= g);
        assert(up@ =~= u);
        assert(act@ =~= expert_activation(g, u, inter as int));
    }
    project_part(data, &parts.down, act.as_slice(), out, hidden_dim, inter, group_size);
}

/// A vector with a multiple of another added to its first `dim` numbers.
pub open spec fn madded<S: Scalar>(acc: Seq<S>, x: Seq<S>, w: S, dim: int) -> Seq<S> {
    overwrite(acc, 0, Seq::new(dim as nat, |i: int| acc[i].s_plus(x[i].s_times(w))))
}

/// Add a multiple of a vector.
pub fn vec_madd<S: Scalar>(acc: &mut [S], x: &[S], w: &S, dim: usize)
    requires
        dim <= old(acc)@.len(),
        dim <= x@.len(),
    ensures
        final(acc)@ == madded(old(acc)@, x@, *w, dim as int),
{
    for i in 0..dim
        invariant
            dim <= acc@.len(),
            dim <= x@.len(),
            acc@.len() == old(acc)@.len(),
            forall|j: int| 0 <= j < i ==> acc@[j] == old(acc)@[j].s_plus(x@[j].s_times(*w)),
            forall|j: int| i <= j < acc@.len() ==> acc@[j] == old(acc)@[j],
    {
        acc[i] = acc[i].plus(&x[i].times(w));
    }
    assert(acc@ =~= madded(old(acc)@, x@, *w, dim as int));
}

/// The bytes of an expert; `None` if the file ends before them.
pub open spec fn expert_bytes_in(file: Seq<u8>, expert: int, size: int) -> Option<Seq<u8>> {
    if (expert + 1) * size <= file.len() {
        Some(file.subrange(expert * size, (expert + 1) * size))
    } else {
        None
    }
}

/// The bytes of the chosen experts.
pub open spec fn chosen_bytes(file: Seq<u8>, experts: Seq<usize>, size: int) -> Seq<
    Option<Seq<u8>>,
> {
    Seq::new(experts.len(), |i: int| expert_bytes_in(file, experts[i] as int, size))
}

/// Take an expert's bytes out of its file.
pub fn expert_blob(file: &[u8], expert: usize, size: usize) -> (r: Option<Vec<u8>>)
    ensures
        match r {
            Some(v) => expert_bytes_in(file@, expert as int, size as int) == Some(v@) && v@.len()
                == size,
            None => expert_bytes_in(file@, expert as int, size as int) is None,
        },
{
    let len: usize = file.len();
    let fits = if size == 0 {
        true
    } else {
        expert < len / size
    };
    proof {
        if size > 0 {
            let q = len as int / size as int;
            vstd::arithmetic::div_mod::lemma_fundamental_div_mod(len as int, size as int);
            vstd::arithmetic::div_mod::lemma_mod_bound(len as int, size as int);
            assert(size * q == q * size) by (nonlinear_arith);
            if expert < q {
                assert((expert + 1) * size <= q * size) by (nonlinear_arith)
                    requires
                        expert + 1 <= q,
                        0 < size,
                ;
            } else {
                assert((q + 1) * size <= (expert + 1) * size) by (nonlinear_arith)
                    requires
                        q <= expert,
                        0 < size,
                ;
                assert((q + 1) * size == q * size + size) by (nonlinear_arith);
            }
        } else {
            assert((expert + 1) * 0 == 0);
        }
        assert((expert + 1) * size == expert * size + size) by (nonlinear_arith);
        assert(0 <= expert * size) by (nonlinear_arith)
            requires
                0 <= expert,
                0 <= size,
        ;
    }
    if !fits {
        return None;
    }
    let from: usize = expert * size;
    let mut v: Vec<u8> = Vec::new();
    for i in 0..size
        invariant
            len == file@.len(),
            from + size <= len,
            v@ == file@.subrange(from as int, from + i),
    {
        v.push(file[from + i]);
        assert(v@ =~= file@.subrange(from as int, from + i + 1));
    }
    Some(v)
}

/// The dimensions of a configuration with a packed expert are not negative, and the sizes of
/// its tensors can be computed.
pub open spec fn table_fits(cfg: ModelConfig, l: ExpertLayoutTable) -> bool {
    &&& 0 <= cfg.hidden_dim
    &&& 0 <= cfg.moe_intermediate
    &&& 0 < cfg.group_size
    &&& 0 <= l.gate_w_off
    &&& 0 <= l.gate_s_off
    &&& 0 <= l.gate_b_off
    &&& 0 <= l.up_w_off
    &&& 0 <= l.up_s_off
    &&& 0 <= l.up_b_off
    &&& 0 <= l.down_w_off
    &&& 0 <= l.down_s_off
    &&& 0 <= l.down_b_off
    &&& cfg.moe_intermediate * cfg.hidden_dim <= usize::MAX
}

/// Words (or groups) of a matrix whose rows hold `per` weights each.
pub open spec fn row_units(rows: int, cols: int, per: int) -> usize {
    (rows * (cols / per)) as usize
}

/// The parts of an expert, as a table of offsets gives them.
pub open spec fn table_parts(cfg: ModelConfig, l: ExpertLayoutTable) -> ExpertParts {
    let mi = cfg.moe_intermediate as int;
    let hd = cfg.hidden_dim as int;
    let gs = cfg.group_size as int;
    ExpertParts {
        gate: ProjPart {
            w_off: l.gate_w_off as usize,
            s_off: l.gate_s_off as usize,
            b_off: l.gate_b_off as usize,
            words: row_units(mi, hd, 8),
            groups: row_units(mi, hd, gs),
        },
        up: ProjPart {
            w_off: l.up_w_off as usize,
            s_off: l.up_s_off as usize,
            b_off: l.up_b_off as usize,
            words: row_units(mi, hd, 8),
            groups: row_units(mi, hd, gs),
        },
        down: ProjPart {
            w_off: l.down_w_off as usize,
            s_off: l.down_s_off as usize,
            b_off: l.down_b_off as usize,
            words: row_units(hd, mi, 8),
            groups: row_units(hd, mi, gs),
        },
    }
}

fn count_units(rows: usize, cols: usize, per: usize) -> (r: usize)
    requires
        0 < per,
        rows * cols <= usize::MAX,
    ensures
        r == row_units(rows as int, cols as int, per as int),
{
    proof {
        let q = cols as int / per as int;
        vstd::arithmetic::div_mod::lemma_div_is_ordered_by_denominator(cols as int, 1, per as int);
        vstd::arithmetic::div_mod::lemma_div_basics(cols as int);
        vstd::arithmetic::div_mod::lemma_div_pos_is_pos(cols as int, per as int);
        assert(0 <= rows * q <= rows * cols) by (nonlinear_arith)
            requires
                0 <= rows,
                0 <= q <= cols,
        ;
    }
    rows * (cols / per)
}

/// The parts of a 2-bit or 4-bit expert of a configuration.
pub fn config_parts(cfg: &ModelConfig, use_2bit: bool) -> (r: ExpertParts)
    requires
        table_fits(
            *cfg,
            if use_2bit {
                cfg.layout_2bit
            } else {
                cfg.layout_4bit
            },
        ),
    ensures
        r == table_parts(
            *cfg,
            if use_2bit {
                cfg.layout_2bit
            } else {
                cfg.layout_4bit
            },
        ),
{
    let l = if use_2bit {
        cfg.layout_2bit
    } else {
        cfg.layout_4bit
    };
    let mi: usize = cfg.moe_intermediate as usize;
    let hd: usize = cfg.hidden_dim as usize;
    let gs: usize = cfg.group_size as usize;
    assert(hd * mi == mi * hd) by (nonlinear_arith);
    let words: usize = count_units(mi, hd, 8);
    let groups: usize = count_units(mi, hd, gs);
    ExpertParts {
        gate: ProjPart {
            w_off: l.gate_w_off as usize,
            s_off: l.gate_s_off as usize,
            b_off: l.gate_b_off as usize,
            words,
            groups,
        },
        up: ProjPart {
            w_off: l.up_w_off as usize,
            s_off: l.up_s_off as usize,
            b_off: l.up_b_off as usize,
            words,
            groups,
        },
        down: ProjPart {
            w_off: l.down_w_off as usize,
            s_off: l.down_s_off as usize,
            b_off: l.down_b_off as usize,
            words: count_units(hd, mi, 8),
            groups: count_units(hd, mi, gs),
        },
    }
}

/// Bytes of an expert of the quantisation in use.
pub fn active_expert_size(cfg: &ModelConfig, use_2bit: bool) -> (r: usize)
    requires
        0 <= (if use_2bit {
            cfg.expert_size_2bit
        } else {
            cfg.expert_size_4bit
        }),
    ensures
        r == (if use_2bit {
            cfg.expert_size_2bit
        } else {
            cfg.expert_size_4bit
        }),
{
    if use_2bit {
        cfg.expert_size_2bit as usize
    } else {
        cfg.expert_size_4bit as usize
    }
}

/// Words and half words lie in the bytes with their lowest byte first, one behind the other.
pub proof fn law_words_are_little_endian(data: Seq<u8>, off: int, n: int, i: int)
    requires
        0 <= i < n,
    ensures
        ({
            let w = words_at(data, off, n)[i] as int;
            let h = halves_at(data, off, n)[i] as int;
            &&& words_at(data, off, n).len() == n && halves_at(data, off, n).len() == n
            &&& w % 0x100 == data[off + 4 * i]
            &&& (w / 0x100) % 0x100 == data[off + 4 * i + 1]
            &&& (w / 0x1_0000) % 0x100 == data[off + 4 * i + 2]
            &&& w / 0x100_0000 == data[off + 4 * i + 3]
            &&& h % 0x100 == data[off + 2 * i]
            &&& h / 0x100 == data[off + 2 * i + 1]
        }),
{
}

/// The output of an expert, number by number: row `r` of the down projection times the
/// activation; number `j` of the activation is the SiLU of row `j` of its gating projection times
/// the input, times row `j` of the up projection times the input.
pub proof fn law_expert_output<S: Scalar>(
    data: Seq<u8>,
    parts: ExpertParts,
    x: Seq<S>,
    hidden_dim: int,
    inter: int,
    group_size: int,
    r: int,
)
    requires
        0 < group_size,
        group_size % 8 == 0,
        0 <= inter,
        0 <= r < hidden_dim,
    ensures
        ({
            let matrix = |p: ProjPart|
                QuantView {
                    w: words_at(data, p.w_off as int, p.words as int),
                    scales: halves_at(data, p.s_off as int, p.groups as int),
                    biases: halves_at(data, p.b_off as int, p.groups as int),
                };
            let act = Seq::new(
                inter as nat,
                |j: int|
                    {
                        let g = row_times(matrix(parts.gate), x, hidden_dim, group_size, j);
                        let u = row_times(matrix(parts.up), x, hidden_dim, group_size, j);
                        g.s_over(one::<S>().s_plus(g.s_neg().s_exp())).s_times(u)
                    },
            );
            expert_output(data, parts, x, hidden_dim, inter, group_size)[r] == row_times(
                matrix(parts.down),
                act,
                inter,
                group_size,
                r,
            )
        }),
{
    let gate = matvec(parts.gate.quant(data), x, inter, hidden_dim, group_size);
    let up = matvec(parts.up.quant(data), x, inter, hidden_dim, group_size);
    let act = Seq::new(
        inter as nat,
        |j: int|
            {
                let g = row_times(parts.gate.quant(data), x, hidden_dim, group_size, j);
                let u = row_times(parts.up.quant(data), x, hidden_dim, group_size, j);
                g.s_over(one::<S>().s_plus(g.s_neg().s_exp())).s_times(u)
            },
    );
    let found = expert_activation(gate, up, inter);
    assert forall|j: int| 0 <= j < inter implies found[j] == act[j] by {
        law_matvec(parts.gate.quant(data), x, inter, hidden_dim, group_size, j);
        law_matvec(parts.up.quant(data), x, inter, hidden_dim, group_size, j);
        law_gating(gate, up, inter, j);
    }
    assert(found =~= act);
    law_matvec(parts.down.quant(data), act, hidden_dim, inter, group_size, r);
    let matrix = |p: ProjPart|
        QuantView {
            w: words_at(data, p.w_off as int, p.words as int),
            scales: halves_at(data, p.s_off as int, p.groups as int),
            biases: halves_at(data, p.b_off as int, p.groups as int),
        };
    assert(matrix(parts.gate) == parts.gate.quant(data));
    assert(matrix(parts.up) == parts.up.quant(data));
    assert(matrix(parts.down) == parts.down.quant(data));
    assert(act =~= Seq::new(
        inter as nat,
        |j: int|
            {
                let g = row_times(matrix(parts.gate), x, hidden_dim, group_size, j);
                let u = row_times(matrix(parts.up), x, hidden_dim, group_size, j);
                g.s_over(one::<S>().s_plus(g.s_neg().s_exp())).s_times(u)
            },
    ));
}

/// What is added to a sum, number by number; the rest stays.
pub proof fn law_madd<S: Scalar>(acc: Seq<S>, x: Seq<S>, w: S, dim: int, i: int)
    requires
        0 <= i < acc.len(),
        0 <= dim <= acc.len(),
    ensures
        madded(acc, x, w, dim).len() == acc.len(),
        madded(acc, x, w, dim)[i] == (if i < dim {
            acc[i].s_plus(x[i].s_times(w))
        } else {
            acc[i]
        }),
{
}

/// Experts lie one behind the other in their file, each with its own bytes: byte `i` of expert
/// `e` is byte `e * size + i` of the file. An expert that the file does not hold whole is none.
pub proof fn law_expert_bytes(file: Seq<u8>, experts: Seq<usize>, size: int, slot: int, i: int)
    requires
        0 <= slot < experts.len(),
        0 <= i < size,
    ensures
        ({
            let e = experts[slot] as int;
            &&& chosen_bytes(file, experts, size).len() == experts.len()
            &&& (chosen_bytes(file, experts, size)[slot] is Some) == (e * size + size <= file.len())
            &&& chosen_bytes(file, experts, size)[slot] matches Some(data) ==> {
                &&& data.len() == size
                &&& data[i] == file[e * size + i]
            }
        }),
{
    let e = experts[slot] as int;
    assert((e + 1) * size == e * size + size) by (nonlinear_arith);
    assert(0 <= e * size) by (nonlinear_arith)
        requires
            0 <= e,
            0 <= size,
    ;
}

/// A region of packed weights holds eight to a word, row by row, and one of scales or biases
/// holds one to a group: all that a product with the matrix reads.
proof fn lemma_region_holds_matrix(rows: int, cols: int, gs: int)
    requires
        0 <= rows,
        0 <= cols,
        0 < gs,
        gs % 8 == 0,
        cols % 8 == 0,
    ensures
        matvec_fits(
            packed_weight_bytes(rows, cols) / 4,
            group_param_bytes(rows, cols, gs) / 2,
            group_param_bytes(rows, cols, gs) / 2,
            cols,
            rows,
            cols,
            gs,
        ),
        4 * (packed_weight_bytes(rows, cols) / 4) == packed_weight_bytes(rows, cols),
        2 * (group_param_bytes(rows, cols, gs) / 2) == group_param_bytes(rows, cols, gs),
        packed_weight_bytes(rows, cols) / 4 == rows * (cols / 8),
{
    let w = cols / 8;
    let groups = cols / gs;
    let per = gs / 8;
    assert(rows * cols == 8 * (rows * w)) by (nonlinear_arith)
        requires
            cols == 8 * w,
    ;
    vstd::arithmetic::div_mod::lemma_fundamental_div_mod(cols, gs);
    vstd::arithmetic::div_mod::lemma_mod_bound(cols, gs);
    vstd::arithmetic::div_mod::lemma_div_pos_is_pos(cols, gs);
    assert(gs * groups == 8 * (groups * per)) by (nonlinear_arith)
        requires
            gs == 8 * per,
    ;
    assert(groups * per <= w);
    if rows > 0 {
        assert((rows - 1) * w + w == rows * w) by (nonlinear_arith);
        if groups > 0 {
            assert((groups - 1) * gs + gs == gs * groups) by (nonlinear_arith);
        }
    }
}

/// The layout of a packed expert holds the expert: each of its three projections, with its
/// weights, scales and biases, lies whole in the expert's bytes.
pub proof fn law_layout_holds_expert(l: ExpertLayout, hd: int, mi: int, gs: int)
    requires
        0 <= hd,
        0 <= mi,
        0 < gs,
        gs % 8 == 0,
        hd % 8 == 0,
        mi % 8 == 0,
        l.contiguous(),
        l.gate_w_size == packed_weight_bytes(mi, hd),
        l.up_w_size == l.gate_w_size,
        l.down_w_size == packed_weight_bytes(hd, mi),
        l.gate_s_size == group_param_bytes(mi, hd, gs),
        l.gate_b_size == l.gate_s_size,
        l.up_s_size == l.gate_s_size,
        l.up_b_size == l.gate_s_size,
        l.down_s_size == group_param_bytes(hd, mi, gs),
        l.down_b_size == l.down_s_size,
    ensures
        layout_parts(l).fits(l.expert_size_4bit as int, hd, hd, mi, gs),
        layout_parts(l).gate.words == mi * (hd / 8),
        layout_parts(l).up.words == mi * (hd / 8),
        layout_parts(l).down.words == hd * (mi / 8),
{
    lemma_region_holds_matrix(mi, hd, gs);
    lemma_region_holds_matrix(hd, mi, gs);
    let r = l.regions();
    assert(r[1].0 == r[0].0 + r[0].1);
    assert(r[2].0 == r[1].0 + r[1].1);
    assert(r[3].0 == r[2].0 + r[2].1);
    assert(r[4].0 == r[3].0 + r[3].1);
    assert(r[5].0 == r[4].0 + r[4].1);
    assert(r[6].0 == r[5].0 + r[5].1);
    assert(r[7].0 == r[6].0 + r[6].1);
    assert(r[8].0 == r[7].0 + r[7].1);
}

/// The parts of an expert in a table: weights eight to a word and scales and biases one to a
/// group, of `moe_intermediate` rows of the hidden dimension for gate and up projections, and
/// the other way round for the down projection; each part at the table's offset for it.
pub proof fn law_table_parts(cfg: ModelConfig, l: ExpertLayoutTable)
    requires
        table_fits(cfg, l),
    ensures
        ({
            let p = table_parts(cfg, l);
            let mi = cfg.moe_intermediate as int;
            let hd = cfg.hidden_dim as int;
            let gs = cfg.group_size as int;
            &&& p.gate.w_off == l.gate_w_off
            &&& p.gate.s_off == l.gate_s_off
            &&& p.gate.b_off == l.gate_b_off
            &&& p.up.w_off == l.up_w_off
            &&& p.up.s_off == l.up_s_off
            &&& p.up.b_off == l.up_b_off
            &&& p.down.w_off == l.down_w_off
            &&& p.down.s_off == l.down_s_off
            &&& p.down.b_off == l.down_b_off
            &&& p.gate.words == mi * (hd / 8)
            &&& p.gate.groups == mi * (hd / gs)
            &&& p.up.words == p.gate.words
            &&& p.up.groups == p.gate.groups
            &&& p.down.words == hd * (mi / 8)
            &&& p.down.groups == hd * (mi / gs)
        }),
{
    let mi = cfg.moe_intermediate as int;
    let hd = cfg.hidden_dim as int;
    let gs = cfg.group_size as int;
    lemma_units(mi, hd, 8);
    lemma_units(mi, hd, gs);
    lemma_units(hd, mi, 8);
    lemma_units(hd, mi, gs);
    assert(mi * hd == hd * mi) by (nonlinear_arith);
}

proof fn lemma_units(rows: int, cols: int, per: int)
    requires
        0 <= rows,
        0 <= cols,
        0 < per,
    ensures
        0 <= rows * (cols / per) <= rows * cols,
{
    vstd::arithmetic::div_mod::lemma_div_pos_is_pos(cols, per);
    vstd::arithmetic::div_mod::lemma_div_is_ordered_by_denominator(cols, 1, per);
    vstd::arithmetic::div_mod::lemma_div_basics(cols);
    let q = cols / per;
    assert(0 <= rows * q <= rows * cols) by (nonlinear_arith)
        requires
            0 <= rows,
            0 <= q <= cols,
    ;
}

} // verus!
