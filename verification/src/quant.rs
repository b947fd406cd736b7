//! Four-bit quantised matrices.
//!
//! Eight weights share a 32-bit word, lowest bits first. A group of consecutive weights of a
//! row shares one bf16 scale and one bf16 bias: a weight is its four-bit value times the scale
//! plus the bias.

use vstd::arithmetic::div_mod::lemma_fundamental_div_mod_converse;
use vstd::arithmetic::mul::{lemma_mul_inequality, lemma_mul_is_distributive_add_other_way};
use vstd::prelude::*;

use crate::float_bits::bf16_to_f32;
use crate::scalar::{zero, zero_of, Scalar};
use crate::sums::{lemma_take_all, lemma_total_step, total};

verus! {

/// The `n`-th four-bit value of a word.
pub open spec fn nibble(word: u32, n: u32) -> u32 {
    (word >> (4 * n) as u32) & 0xF
}

/// The `n`-th four-bit value of a word.
pub fn nibble_of(word: u32, n: u32) -> (r: u32)
    requires
        n < 8,
    ensures
        r == nibble(word, n),
        r < 16,
{
    let shift: u32 = 4 * n;
    let r: u32 = (word >> shift) & 0xF;
    assert((word >> shift) & 0xF < 16) by (bit_vector);
    r
}

/// A word is made of its eight four-bit values, and nothing else.
pub proof fn law_nibbles_make_word(word: u32)
    ensures
        forall|n: u32| n < 8 ==> #[trigger] nibble(word, n) < 16,
        word == nibble(word, 0) + 0x10 * nibble(word, 1) + 0x100 * nibble(word, 2) + 0x1000
            * nibble(word, 3) + 0x10000 * nibble(word, 4) + 0x100000 * nibble(word, 5) + 0x1000000
            * nibble(word, 6) + 0x10000000 * nibble(word, 7),
{
    assert(forall|n: u32| n < 8 ==> #[trigger] ((word >> (4 * n) as u32) & 0xF) < 16)
        by (bit_vector);
    assert(word == ((word >> 0) & 0xF) + 0x10 * ((word >> 4) & 0xF) + 0x100 * ((word >> 8) & 0xF)
        + 0x1000 * ((word >> 12) & 0xF) + 0x10000 * ((word >> 16) & 0xF) + 0x100000 * ((word >> 20)
        & 0xF) + 0x1000000 * ((word >> 24) & 0xF) + 0x10000000 * ((word >> 28) & 0xF))
        by (bit_vector);
}

/// The number with a bf16 bit pattern.
pub open spec fn bf16_value<S: Scalar>(bits: u16) -> S {
    S::s_of_bits((bits * 0x1_0000) as u32)
}

/// The number with a bf16 bit pattern.
pub fn bf16_scalar<S: Scalar>(bits: u16) -> (r: S)
    ensures
        r == bf16_value::<S>(bits),
{
    S::of_bits(bf16_to_f32(bits))
}

/// The `n`-th weight of a word.
pub open spec fn weight_value<S: Scalar>(word: u32, n: u32, scale: S, bias: S) -> S {
    S::s_of_usize(nibble(word, n) as usize).s_times(scale).s_plus(bias)
}

/// The `n`-th weight of a word.
pub fn weight_of<S: Scalar>(word: u32, n: u32, scale: &S, bias: &S) -> (r: S)
    requires
        n < 8,
    ensures
        r == weight_value(word, n, *scale, *bias),
{
    S::of_usize(nibble_of(word, n) as usize).times(scale).plus(bias)
}

/// A sum, continued by the products of the first `n` weights of a word.
pub open spec fn word_sum<S: Scalar>(
    acc: S,
    word: u32,
    scale: S,
    bias: S,
    x: Seq<S>,
    x_base: int,
    n: int,
) -> S
    decreases n,
{
    if n <= 0 {
        acc
    } else {
        word_sum(acc, word, scale, bias, x, x_base, n - 1).s_plus(
            weight_value(word, (n - 1) as u32, scale, bias).s_times(x[x_base + n - 1]),
        )
    }
}

/// A sum, continued by the products of the first `p` words of a group.
pub open spec fn group_sum<S: Scalar>(
    acc: S,
    w: Seq<u32>,
    w_base: int,
    scale: S,
    bias: S,
    x: Seq<S>,
    x_base: int,
    p: int,
) -> S
    decreases p,
{
    if p <= 0 {
        acc
    } else {
        word_sum(
            group_sum(acc, w, w_base, scale, bias, x, x_base, p - 1),
            w[w_base + p - 1],
            scale,
            bias,
            x,
            x_base + (p - 1) * 8,
            8,
        )
    }
}

/// The words, scales and biases of a quantised matrix.
pub struct QuantView {
    pub w: Seq<u32>,
    pub scales: Seq<u16>,
    pub biases: Seq<u16>,
}

/// The product of the first `g` groups of a row with a vector.
pub open spec fn row_sum<S: Scalar>(
    m: QuantView,
    x: Seq<S>,
    row: int,
    in_dim: int,
    group_size: int,
    g: int,
) -> S
    decreases g,
{
    if g <= 0 {
        zero()
    } else {
        group_sum(
            row_sum(m, x, row, in_dim, group_size, g - 1),
            m.w,
            row * (in_dim / 8) + (g - 1) * (group_size / 8),
            bf16_value(m.scales[row * (in_dim / group_size) + g - 1]),
            bf16_value(m.biases[row * (in_dim / group_size) + g - 1]),
            x,
            (g - 1) * group_size,
            group_size / 8,
        )
    }
}

/// The product of a quantised matrix with a vector.
pub open spec fn matvec<S: Scalar>(
    m: QuantView,
    x: Seq<S>,
    out_dim: int,
    in_dim: int,
    group_size: int,
) -> Seq<S> {
    Seq::new(
        out_dim as nat,
        |row: int| row_sum(m, x, row, in_dim, group_size, in_dim / group_size),
    )
}

/// The slices hold all that a product reads.
pub open spec fn matvec_fits(
    w_len: int,
    scales_len: int,
    biases_len: int,
    x_len: int,
    out_dim: int,
    in_dim: int,
    group_size: int,
) -> bool {
    let groups = in_dim / group_size;
    let words = group_size / 8;
    &&& group_size > 0
    &&& out_dim > 0 ==> (out_dim - 1) * (in_dim / 8) + groups * words <= w_len
    &&& out_dim * groups <= scales_len
    &&& out_dim * groups <= biases_len
    &&& out_dim > 0 && groups > 0 ==> (groups - 1) * group_size + words * 8 <= x_len
}

/// A sequence with a range replaced.
pub open spec fn overwrite<T>(old_seq: Seq<T>, base: int, new_seq: Seq<T>) -> Seq<T> {
    Seq::new(
        old_seq.len(),
        |i: int|
            if base <= i < base + new_seq.len() {
                new_seq[i - base]
            } else {
                old_seq[i]
            },
    )
}

/// `a * n + b <= k * n` where `a < k` and `b <= n`.
pub proof fn lemma_within(a: int, k: int, n: int, b: int)
    requires
        0 <= a < k,
        0 <= b <= n,
    ensures
        a * n + b <= k * n,
        a * n <= k * n,
        0 <= a * n,
{
    lemma_mul_inequality(a + 1, k, n);
    lemma_mul_inequality(0, a, n);
    lemma_mul_is_distributive_add_other_way(n, a, 1);
}

/// One row of a product.
fn row_product<S: Scalar>(
    w: &[u32],
    scales: &[u16],
    biases: &[u16],
    x: &[S],
    row: usize,
    in_dim: usize,
    group_size: usize,
    Ghost(out_dim): Ghost<int>,
) -> (r: S)
    requires
        row < out_dim,
        matvec_fits(
            w@.len() as int,
            scales@.len() as int,
            biases@.len() as int,
            x@.len() as int,
            out_dim,
            in_dim as int,
            group_size as int,
        ),
    ensures
        r == row_sum(
            QuantView { w: w@, scales: scales@, biases: biases@ },
            x@,
            row as int,
            in_dim as int,
            group_size as int,
            in_dim as int / group_size as int,
        ),
{
    let num_groups: usize = in_dim / group_size;
    let packed_per_group: usize = group_size / 8;
    let packed_cols: usize = in_dim / 8;
    let ghost m = QuantView { w: w@, scales: scales@, biases: biases@ };
    proof {
        assert(w@.len() == w.len() && scales@.len() == scales.len() && x@.len() == x.len());
        lemma_mul_inequality(row as int, out_dim - 1, packed_cols as int);
        lemma_mul_inequality(0, row as int, packed_cols as int);
        lemma_mul_inequality(0, num_groups as int, packed_per_group as int);
        lemma_within(row as int, out_dim, num_groups as int, num_groups as int);
    }
    let w_row: usize = row * packed_cols;
    let s_row: usize = row * num_groups;
    let mut acc: S = zero_of();
    for g in 0..num_groups
        invariant
            row < out_dim,
            matvec_fits(
                w@.len() as int,
                scales@.len() as int,
                biases@.len() as int,
                x@.len() as int,
                out_dim,
                in_dim as int,
                group_size as int,
            ),
            num_groups == in_dim as int / group_size as int,
            packed_per_group == group_size as int / 8,
            packed_cols == in_dim as int / 8,
            m == (QuantView { w: w@, scales: scales@, biases: biases@ }),
            w_row == row * packed_cols,
            s_row == row * num_groups,
            w_row <= (out_dim - 1) * packed_cols,
            s_row + num_groups <= out_dim * num_groups,
            acc == row_sum(m, x@, row as int, in_dim as int, group_size as int, g as int),
    {
        proof {
            assert(w@.len() == w.len() && scales@.len() == scales.len() && x@.len() == x.len());
            lemma_within(
                g as int,
                num_groups as int,
                packed_per_group as int,
                packed_per_group as int,
            );
            lemma_mul_inequality(g as int, num_groups - 1, group_size as int);
            lemma_mul_inequality(0, g as int, group_size as int);
        }
        let scale: S = bf16_scalar(scales[s_row + g]);
        let bias: S = bf16_scalar(biases[s_row + g]);
        let w_base: usize = w_row + g * packed_per_group;
        let x_base: usize = g * group_size;
        let ghost before = acc;
        for p in 0..packed_per_group
            invariant
                w_base + packed_per_group <= w@.len(),
                x_base + packed_per_group * 8 <= x@.len(),
                acc == group_sum(before, w@, w_base as int, scale, bias, x@, x_base as int, p as int),
        {
            assert(w@.len() == w.len() && x@.len() == x.len());
            let word: u32 = w[w_base + p];
            let base: usize = x_base + p * 8;
            let ghost inner = acc;
            for n in 0..8u32
                invariant
                    base + 8 <= x@.len(),
                    acc == word_sum(inner, word, scale, bias, x@, base as int, n as int),
            {
                assert(x@.len() == x.len());
                let value: S = weight_of(word, n, &scale, &bias);
                acc = acc.plus(&value.times(&x[base + n as usize]));
            }
        }
    }
    acc
}

/// Multiply a quantised matrix with a vector.
pub fn dequant_matvec_4bit<S: Scalar>(
    w_packed: &[u32],
    scales: &[u16],
    biases: &[u16],
    x: &[S],
    out: &mut [S],
    out_dim: usize,
    in_dim: usize,
    group_size: usize,
)
    requires
        matvec_fits(
            w_packed@.len() as int,
            scales@.len() as int,
            biases@.len() as int,
            x@.len() as int,
            out_dim as int,
            in_dim as int,
            group_size as int,
        ),
        out_dim <= old(out)@.len(),
    ensures
        final(out)@ == overwrite(
            old(out)@,
            0,
            matvec(
                QuantView { w: w_packed@, scales: scales@, biases: biases@ },
                x@,
                out_dim as int,
                in_dim as int,
                group_size as int,
            ),
        ),
{
    let ghost m = QuantView { w: w_packed@, scales: scales@, biases: biases@ };
    let ghost product = matvec(m, x@, out_dim as int, in_dim as int, group_size as int);
    for row in 0..out_dim
        invariant
            matvec_fits(
                w_packed@.len() as int,
                scales@.len() as int,
                biases@.len() as int,
                x@.len() as int,
                out_dim as int,
                in_dim as int,
                group_size as int,
            ),
            m == (QuantView { w: w_packed@, scales: scales@, biases: biases@ }),
            product == matvec(m, x@, out_dim as int, in_dim as int, group_size as int),
            out_dim <= out@.len(),
            out@.len() == old(out)@.len(),
            forall|i: int| 0 <= i < row ==> out@[i] == product[i],
            forall|i: int| row <= i < out@.len() ==> out@[i] == old(out)@[i],
    {
        out[row] = row_product(
            w_packed,
            scales,
            biases,
            x,
            row,
            in_dim,
            group_size,
            Ghost(out_dim as int),
        );
    }
    assert(out@ =~= overwrite(old(out)@, 0, product));
}

/// The weight in row `row` and column `i` of a quantised matrix: the four-bit value `i % 8` of
/// the row's word `i / 8`, times the scale of the row's group `i / group_size`, plus the bias
/// of that group.
pub open spec fn dequantized<S: Scalar>(
    m: QuantView,
    words_per_row: int,
    groups_per_row: int,
    group_size: int,
    row: int,
    i: int,
) -> S {
    let value = nibble(m.w[row * words_per_row + i / 8], (i % 8) as u32);
    let group = row * groups_per_row + i / group_size;
    S::s_of_usize(value as usize).s_times(bf16_value(m.scales[group])).s_plus(
        bf16_value(m.biases[group]),
    )
}

/// A row of a quantised matrix times a vector, over all columns that lie in whole groups.
pub open spec fn row_times<S: Scalar>(
    m: QuantView,
    x: Seq<S>,
    in_dim: int,
    group_size: int,
    row: int,
) -> S {
    total(
        Seq::new(
            (in_dim / group_size * group_size) as nat,
            |i: int|
                dequantized::<S>(m, in_dim / 8, in_dim / group_size, group_size, row, i).s_times(
                    x[i],
                ),
        ),
    )
}

/// The number `n` of word `p` of group `g` of a row is its number `g * group_size + p * 8 + n`.
pub proof fn lemma_place(g: int, group_size: int, p: int, n: int)
    requires
        0 <= g,
        group_size % 8 == 0,
        0 <= p < group_size / 8,
        0 <= n < 8,
    ensures
        ({
            let i = g * group_size + p * 8 + n;
            &&& i / 8 == g * (group_size / 8) + p
            &&& i % 8 == n
            &&& i / group_size == g
            &&& 0 <= i < (g + 1) * group_size
        }),
{
    let w = group_size / 8;
    let i = g * group_size + p * 8 + n;
    assert(g * group_size == 8 * (g * w)) by (nonlinear_arith)
        requires
            group_size == 8 * w,
    ;
    assert((g + 1) * group_size == g * group_size + group_size) by (nonlinear_arith);
    assert(0 <= g * group_size) by (nonlinear_arith)
        requires
            0 <= g,
            0 <= group_size,
    ;
    lemma_fundamental_div_mod_converse(i, 8, g * w + p, n);
    lemma_fundamental_div_mod_converse(i, group_size, g, p * 8 + n);
}

/// The products of a row's weights with a vector.
spec fn row_terms<S: Scalar>(
    m: QuantView,
    x: Seq<S>,
    row: int,
    in_dim: int,
    group_size: int,
) -> Seq<S> {
    Seq::new(
        (in_dim / group_size * group_size) as nat,
        |i: int|
            dequantized::<S>(m, in_dim / 8, in_dim / group_size, group_size, row, i).s_times(x[i]),
    )
}

proof fn lemma_word_terms<S: Scalar>(
    m: QuantView,
    x: Seq<S>,
    row: int,
    in_dim: int,
    group_size: int,
    g: int,
    p: int,
    n: int,
)
    requires
        0 < group_size,
        group_size % 8 == 0,
        0 <= in_dim,
        0 <= g < in_dim / group_size,
        0 <= p < group_size / 8,
        0 <= n <= 8,
    ensures
        ({
            let terms = row_terms(m, x, row, in_dim, group_size);
            let groups = in_dim / group_size;
            let at = g * group_size + p * 8;
            word_sum(
                total(terms.take(at)),
                m.w[row * (in_dim / 8) + g * (group_size / 8) + p],
                bf16_value(m.scales[row * groups + g]),
                bf16_value(m.biases[row * groups + g]),
                x,
                at,
                n,
            ) == total(terms.take(at + n))
        }),
    decreases n,
{
    if n > 0 {
        let terms = row_terms(m, x, row, in_dim, group_size);
        let at = g * group_size + p * 8;
        lemma_word_terms(m, x, row, in_dim, group_size, g, p, n - 1);
        lemma_place(g, group_size, p, n - 1);
        lemma_mul_inequality(g + 1, in_dim / group_size, group_size);
        lemma_total_step(terms, at + n - 1);
    }
}

proof fn lemma_group_terms<S: Scalar>(
    m: QuantView,
    x: Seq<S>,
    row: int,
    in_dim: int,
    group_size: int,
    g: int,
    p: int,
)
    requires
        0 < group_size,
        group_size % 8 == 0,
        0 <= in_dim,
        0 <= g < in_dim / group_size,
        0 <= p <= group_size / 8,
    ensures
        ({
            let terms = row_terms(m, x, row, in_dim, group_size);
            let groups = in_dim / group_size;
            group_sum(
                total(terms.take(g * group_size)),
                m.w,
                row * (in_dim / 8) + g * (group_size / 8),
                bf16_value(m.scales[row * groups + g]),
                bf16_value(m.biases[row * groups + g]),
                x,
                g * group_size,
                p,
            ) == total(terms.take(g * group_size + p * 8))
        }),
    decreases p,
{
    if p > 0 {
        lemma_group_terms(m, x, row, in_dim, group_size, g, p - 1);
        lemma_word_terms(m, x, row, in_dim, group_size, g, p - 1, 8);
    }
}

proof fn lemma_row_terms<S: Scalar>(
    m: QuantView,
    x: Seq<S>,
    row: int,
    in_dim: int,
    group_size: int,
    g: int,
)
    requires
        0 < group_size,
        group_size % 8 == 0,
        0 <= in_dim,
        0 <= g <= in_dim / group_size,
    ensures
        row_sum(m, x, row, in_dim, group_size, g) == total(
            row_terms(m, x, row, in_dim, group_size).take(g * group_size),
        ),
    decreases g,
{
    if g > 0 {
        lemma_row_terms(m, x, row, in_dim, group_size, g - 1);
        lemma_group_terms(m, x, row, in_dim, group_size, g - 1, group_size / 8);
        assert((g - 1) * group_size + group_size == g * group_size) by (nonlinear_arith);
    } else {
        assert(g * group_size == 0) by (nonlinear_arith)
            requires
                g == 0,
        ;
    }
}

/// Each number of a product is the sum, over all columns that lie in whole groups, of the
/// row's dequantised weight times the vector's number of that column.
pub proof fn law_matvec<S: Scalar>(
    m: QuantView,
    x: Seq<S>,
    out_dim: int,
    in_dim: int,
    group_size: int,
    row: int,
)
    requires
        0 < group_size,
        group_size % 8 == 0,
        0 <= in_dim,
        0 <= row < out_dim,
    ensures
        matvec(m, x, out_dim, in_dim, group_size).len() == out_dim,
        matvec(m, x, out_dim, in_dim, group_size)[row] == total(
            Seq::new(
                (in_dim / group_size * group_size) as nat,
                |i: int|
                    dequantized::<S>(
                        m,
                        in_dim / 8,
                        in_dim / group_size,
                        group_size,
                        row,
                        i,
                    ).s_times(x[i]),
            ),
        ),
{
    let terms = row_terms(m, x, row, in_dim, group_size);
    lemma_row_terms(m, x, row, in_dim, group_size, in_dim / group_size);
    assert(0 <= in_dim / group_size) by (nonlinear_arith)
        requires
            0 <= in_dim,
            0 < group_size,
    ;
    lemma_mul_inequality(0, in_dim / group_size, group_size);
    lemma_take_all(terms);
    assert(terms =~= Seq::new(
        (in_dim / group_size * group_size) as nat,
        |i: int|
            dequantized::<S>(m, in_dim / 8, in_dim / group_size, group_size, row, i).s_times(x[i]),
    ));
}

/// A row of a product depends on the words, scales and biases of that row alone, and on no
/// number of the vector behind the row's last group.
pub proof fn law_matvec_row_is_local<S: Scalar>(
    m1: QuantView,
    m2: QuantView,
    x1: Seq<S>,
    x2: Seq<S>,
    out_dim: int,
    in_dim: int,
    group_size: int,
    row: int,
)
    requires
        0 < group_size,
        group_size % 8 == 0,
        0 <= in_dim,
        0 <= row < out_dim,
        forall|i: int|
            0 <= i < in_dim / 8 ==> #[trigger] m1.w[row * (in_dim / 8) + i] == m2.w[row * (in_dim
                / 8) + i],
        forall|g: int|
            0 <= g < in_dim / group_size ==> #[trigger] m1.scales[row * (in_dim / group_size) + g]
                == m2.scales[row * (in_dim / group_size) + g],
        forall|g: int|
            0 <= g < in_dim / group_size ==> #[trigger] m1.biases[row * (in_dim / group_size) + g]
                == m2.biases[row * (in_dim / group_size) + g],
        forall|i: int| 0 <= i < in_dim ==> #[trigger] x1[i] == x2[i],
    ensures
        matvec(m1, x1, out_dim, in_dim, group_size)[row] == matvec(
            m2,
            x2,
            out_dim,
            in_dim,
            group_size,
        )[row],
{
    law_matvec(m1, x1, out_dim, in_dim, group_size, row);
    law_matvec(m2, x2, out_dim, in_dim, group_size, row);
    let t1 = row_terms(m1, x1, row, in_dim, group_size);
    let t2 = row_terms(m2, x2, row, in_dim, group_size);
    let groups = in_dim / group_size;
    assert forall|i: int| 0 <= i < t1.len() implies t1[i] == t2[i] by {
        vstd::arithmetic::div_mod::lemma_fundamental_div_mod(in_dim, group_size);
        vstd::arithmetic::div_mod::lemma_mod_bound(in_dim, group_size);
        assert(groups * group_size <= in_dim) by (nonlinear_arith)
            requires
                in_dim == group_size * groups + in_dim % group_size,
                0 <= in_dim % group_size,
        ;
        vstd::arithmetic::mul::lemma_mul_is_commutative(groups, group_size);
        vstd::arithmetic::div_mod::lemma_multiply_divide_lt(i, group_size, groups);
        vstd::arithmetic::div_mod::lemma_div_pos_is_pos(i, group_size);
        assert(0 <= i / 8 < in_dim / 8) by {
            let k = group_size / 8;
            assert(groups * group_size == 8 * (groups * k)) by (nonlinear_arith)
                requires
                    group_size == 8 * k,
            ;
        }
        let at = row * (in_dim / 8) + i / 8;
        let group = row * groups + i / group_size;
        assert(m1.w[at] == m2.w[at]);
        assert(m1.scales[group] == m2.scales[group]);
        assert(m1.biases[group] == m2.biases[group]);
        assert(x1[i] == x2[i]);
    }
    assert(t1 =~= t2);
    assert(t1 =~= Seq::new(
        (groups * group_size) as nat,
        |i: int| dequantized::<S>(m1, in_dim / 8, groups, group_size, row, i).s_times(x1[i]),
    ));
    assert(t2 =~= Seq::new(
        (groups * group_size) as nat,
        |i: int| dequantized::<S>(m2, in_dim / 8, groups, group_size, row, i).s_times(x2[i]),
    ));
}

} // verus!
