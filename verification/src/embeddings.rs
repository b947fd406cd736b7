//! Token embedding and vocabulary projection.

use vstd::arithmetic::mul::lemma_mul_inequality;
use vstd::prelude::*;

use crate::math_util::{fill_zero, zero_seq};
use crate::quant::{
    bf16_scalar, bf16_value, dequant_matvec_4bit, dequantized, law_matvec, lemma_place,
    lemma_within, matvec, nibble, overwrite, weight_of, weight_value,
};
use crate::scalar::{zero, Scalar};
use crate::sums::inner;
use crate::weights::QuantMat;

verus! {

/// The eight weights of a word.
pub open spec fn word_values<S: Scalar>(word: u32, scale: S, bias: S) -> Seq<S> {
    Seq::new(8, |n: int| weight_value(word, n as u32, scale, bias))
}

/// The first `p` words of a group written out.
pub open spec fn embedded_group<S: Scalar>(
    out: Seq<S>,
    m: QuantMat,
    w_base: int,
    base: int,
    scale: S,
    bias: S,
    p: int,
) -> Seq<S>
    decreases p,
{
    if p <= 0 {
        out
    } else {
        overwrite(
            embedded_group(out, m, w_base, base, scale, bias, p - 1),
            base + (p - 1) * 8,
            word_values(m.w@[w_base + p - 1], scale, bias),
        )
    }
}

/// The first `g` groups of a token's row written out.
pub open spec fn embedded<S: Scalar>(
    out: Seq<S>,
    m: QuantMat,
    token: int,
    packed_cols: int,
    num_groups: int,
    group_size: int,
    g: int,
) -> Seq<S>
    decreases g,
{
    if g <= 0 {
        out
    } else {
        embedded_group(
            embedded(out, m, token, packed_cols, num_groups, group_size, g - 1),
            m,
            token * packed_cols + (g - 1) * (group_size / 8),
            (g - 1) * group_size,
            bf16_value(m.scales@[token * num_groups + g - 1]),
            bf16_value(m.biases@[token * num_groups + g - 1]),
            group_size / 8,
        )
    }
}

/// A token's row after the lookup; without a table all zeros.
pub open spec fn embedding<S: Scalar>(
    table: Option<QuantMat>,
    token: int,
    packed_cols: int,
    num_groups: int,
    hidden_dim: int,
    out: Seq<S>,
) -> Seq<S> {
    match table {
        Some(m) => embedded(
            out,
            m,
            token,
            packed_cols,
            num_groups,
            hidden_dim / num_groups,
            num_groups,
        ),
        None => zero_seq(out.len() as int),
    }
}

/// The table holds the token's row, and the output has room for it.
pub open spec fn embedding_fits(
    table: Option<QuantMat>,
    token: int,
    packed_cols: int,
    num_groups: int,
    hidden_dim: int,
    out_len: int,
) -> bool {
    table matches Some(m) ==> {
        let group_size = hidden_dim / num_groups;
        let words = group_size / 8;
        &&& 0 < num_groups
        &&& token * packed_cols + num_groups * words <= m.w@.len()
        &&& token * num_groups + num_groups <= m.scales@.len()
        &&& token * num_groups + num_groups <= m.biases@.len()
        &&& (num_groups - 1) * group_size + words * 8 <= out_len
    }
}

/// Look up a token's embedding: eight weights a word, one scale and bias a group.
pub fn embed_lookup<S: Scalar>(
    table: Option<QuantMat>,
    packed_cols: usize,
    num_groups: usize,
    token_id: usize,
    out: &mut [S],
    hidden_dim: usize,
)
    requires
        embedding_fits(
            table,
            token_id as int,
            packed_cols as int,
            num_groups as int,
            hidden_dim as int,
            old(out)@.len() as int,
        ),
    ensures
        final(out)@.len() == old(out)@.len(),
        final(out)@ == embedding(
            table,
            token_id as int,
            packed_cols as int,
            num_groups as int,
            hidden_dim as int,
            old(out)@,
        ),
{
    let m = match table {
        Some(m) => m,
        None => {
            let n: usize = out.len();
            fill_zero(out, n);
            assert(out@ =~= zero_seq(old(out)@.len() as int));
            return;
        },
    };
    let group_size: usize = hidden_dim / num_groups;
    let words: usize = group_size / 8;
    proof {
        assert(m.w@.len() == m.w.len() && m.scales@.len() == m.scales.len());
        lemma_mul_inequality(0, num_groups as int, words as int);
        assert(0 <= token_id * packed_cols) by (nonlinear_arith);
        assert(0 <= token_id * num_groups) by (nonlinear_arith);
    }
    let w_row: usize = token_id * packed_cols;
    let s_row: usize = token_id * num_groups;
    for g in 0..num_groups
        invariant
            words == group_size as int / 8,
            w_row == token_id * packed_cols,
            s_row == token_id * num_groups,
            w_row + num_groups * words <= m.w@.len(),
            s_row + num_groups <= m.scales@.len(),
            s_row + num_groups <= m.biases@.len(),
            (num_groups - 1) * group_size + words * 8 <= out@.len(),
            out@.len() == old(out)@.len(),
            out@ == embedded(
                old(out)@,
                m,
                token_id as int,
                packed_cols as int,
                num_groups as int,
                group_size as int,
                g as int,
            ),
    {
        proof {
            assert(m.w@.len() == m.w.len() && m.scales@.len() == m.scales.len() && out@.len()
                == out.len());
            lemma_within(g as int, num_groups as int, words as int, words as int);
            lemma_mul_inequality(g as int, num_groups - 1, group_size as int);
            lemma_mul_inequality(0, g as int, group_size as int);
        }
        let scale: S = bf16_scalar(m.scales[s_row + g]);
        let bias: S = bf16_scalar(m.biases[s_row + g]);
        let w_base: usize = w_row + g * words;
        let base: usize = g * group_size;
        let ghost before = out@;
        for p in 0..words
            invariant
                w_base + words <= m.w@.len(),
                base + words * 8 <= out@.len(),
                out@.len() == before.len(),
                out@ == embedded_group(
                    before,
                    m,
                    w_base as int,
                    base as int,
                    scale,
                    bias,
                    p as int,
                ),
        {
            assert(m.w@.len() == m.w.len() && out@.len() == out.len());
            let word: u32 = m.w[w_base + p];
            let at: usize = base + p * 8;
            let ghost inner = out@;
            for n in 0..8u32
                invariant
                    at + 8 <= out@.len(),
                    out@.len() == inner.len(),
                    forall|j: int|
                        0 <= j < out@.len() ==> #[trigger] out@[j] == (if at <= j < at + n {
                            word_values(word, scale, bias)[j - at]
                        } else {
                            inner[j]
                        }),
            {
                assert(out@.len() == out.len());
                out[at + n as usize] = weight_of(word, n, &scale, &bias);
            }
            assert(out@ =~= overwrite(inner, at as int, word_values(word, scale, bias)));
        }
    }
}

proof fn lemma_embedded_word<S: Scalar>(
    out: Seq<S>,
    m: QuantMat,
    token: int,
    packed_cols: int,
    num_groups: int,
    group_size: int,
    g: int,
    p: int,
    j: int,
)
    requires
        0 < group_size,
        group_size % 8 == 0,
        0 <= g,
        0 <= p <= group_size / 8,
        g * group_size + group_size <= out.len(),
        0 <= j < out.len(),
    ensures
        ({
            let r = embedded_group(
                out,
                m,
                token * packed_cols + g * (group_size / 8),
                g * group_size,
                bf16_value(m.scales@[token * num_groups + g]),
                bf16_value(m.biases@[token * num_groups + g]),
                p,
            );
            &&& r.len() == out.len()
            &&& r[j] == (if g * group_size <= j < g * group_size + p * 8 {
                dequantized(m.quant(), packed_cols, num_groups, group_size, token, j)
            } else {
                out[j]
            })
        }),
    decreases p,
{
    if p > 0 {
        lemma_embedded_word(out, m, token, packed_cols, num_groups, group_size, g, p - 1, j);
        let at = g * group_size + (p - 1) * 8;
        lemma_mul_inequality(0, g, group_size);
        if at <= j < at + 8 {
            lemma_place(g, group_size, p - 1, j - at);
        }
    }
}

proof fn lemma_embedded<S: Scalar>(
    out: Seq<S>,
    m: QuantMat,
    token: int,
    packed_cols: int,
    num_groups: int,
    group_size: int,
    g: int,
    j: int,
)
    requires
        0 < group_size,
        group_size % 8 == 0,
        0 <= g,
        g * group_size <= out.len(),
        0 <= j < out.len(),
    ensures
        ({
            let r = embedded(out, m, token, packed_cols, num_groups, group_size, g);
            &&& r.len() == out.len()
            &&& r[j] == (if j < g * group_size {
                dequantized(m.quant(), packed_cols, num_groups, group_size, token, j)
            } else {
                out[j]
            })
        }),
    decreases g,
{
    if g > 0 {
        assert((g - 1) * group_size + group_size == g * group_size) by (nonlinear_arith);
        lemma_mul_inequality(0, g - 1, group_size);
        lemma_embedded(out, m, token, packed_cols, num_groups, group_size, g - 1, j);
        let before = embedded(out, m, token, packed_cols, num_groups, group_size, g - 1);
        lemma_embedded_word(
            before,
            m,
            token,
            packed_cols,
            num_groups,
            group_size,
            g - 1,
            group_size / 8,
            j,
        );
    } else {
        assert(g * group_size == 0) by (nonlinear_arith)
            requires
                g == 0,
        ;
    }
}

/// Each number of a token's embedding is the dequantised weight of the token's row in the
/// table: its own four-bit value with the scale and bias of its own group. What lies behind the
/// row's last group stays.
pub proof fn law_embedding<S: Scalar>(
    m: QuantMat,
    token: int,
    packed_cols: int,
    num_groups: int,
    hidden_dim: int,
    out: Seq<S>,
    i: int,
)
    requires
        0 < num_groups,
        0 < hidden_dim / num_groups,
        (hidden_dim / num_groups) % 8 == 0,
        num_groups * (hidden_dim / num_groups) <= out.len(),
        0 <= i < out.len(),
    ensures
        ({
            let group_size = hidden_dim / num_groups;
            let group = token * num_groups + i / group_size;
            let word = m.w@[token * packed_cols + i / 8];
            let r = embedding(Some(m), token, packed_cols, num_groups, hidden_dim, out);
            &&& r.len() == out.len()
            &&& r[i] == (if i < num_groups * group_size {
                S::s_of_usize(nibble(word, (i % 8) as u32) as usize).s_times(
                    bf16_value(m.scales@[group]),
                ).s_plus(bf16_value(m.biases@[group]))
            } else {
                out[i]
            })
        }),
{
    let group_size = hidden_dim / num_groups;
    lemma_embedded(out, m, token, packed_cols, num_groups, group_size, num_groups, i);
}

/// A token's embedding is the row that a vocabulary projection with the same table uses for
/// that token: its logit is the sum of the embedding's numbers times those of the hidden state.
pub proof fn law_tied_embedding<S: Scalar>(
    m: QuantMat,
    token: int,
    vocab_size: int,
    hidden_dim: int,
    group_size: int,
    x: Seq<S>,
)
    requires
        0 < group_size,
        group_size % 8 == 0,
        0 < hidden_dim,
        hidden_dim % group_size == 0,
        0 <= token < vocab_size,
        x.len() == hidden_dim,
    ensures
        ({
            let groups = hidden_dim / group_size;
            let row = embedding(
                Some(m),
                token,
                hidden_dim / 8,
                groups,
                hidden_dim,
                zero_seq::<S>(hidden_dim),
            );
            matvec(m.quant(), x, vocab_size, hidden_dim, group_size)[token] == inner(row, x)
        }),
{
    let groups = hidden_dim / group_size;
    let row = embedding(
        Some(m),
        token,
        hidden_dim / 8,
        groups,
        hidden_dim,
        zero_seq::<S>(hidden_dim),
    );
    vstd::arithmetic::div_mod::lemma_fundamental_div_mod(hidden_dim, group_size);
    vstd::arithmetic::mul::lemma_mul_is_commutative(groups, group_size);
    assert(0 < groups) by (nonlinear_arith)
        requires
            hidden_dim == group_size * groups,
            0 < hidden_dim,
            0 < group_size,
    ;
    vstd::arithmetic::div_mod::lemma_div_by_multiple(group_size, groups);
    assert(hidden_dim / groups == group_size);
    law_matvec(m.quant(), x, vocab_size, hidden_dim, group_size, token);
    assert forall|i: int| 0 <= i < hidden_dim implies row[i] == dequantized::<S>(
        m.quant(),
        hidden_dim / 8,
        groups,
        group_size,
        token,
        i,
    ) by {
        lemma_embedded(
            zero_seq::<S>(hidden_dim),
            m,
            token,
            hidden_dim / 8,
            groups,
            group_size,
            groups,
            i,
        );
    }
    lemma_embedded(
        zero_seq::<S>(hidden_dim),
        m,
        token,
        hidden_dim / 8,
        groups,
        group_size,
        groups,
        0,
    );
    assert(Seq::new(row.len(), |i: int| row[i].s_times(x[i])) =~= Seq::new(
        (groups * group_size) as nat,
        |i: int|
            dequantized::<S>(m.quant(), hidden_dim / 8, groups, group_size, token, i).s_times(x[i]),
    ));
}

/// Project the hidden state to the vocabulary.
pub fn lm_head_forward<S: Scalar>(
    head: &QuantMat,
    hidden: &[S],
    logits: &mut [S],
    vocab_size: usize,
    hidden_dim: usize,
    group_size: usize,
)
    requires
        head.fits(
            hidden@.len() as int,
            vocab_size as int,
            hidden_dim as int,
            group_size as int,
        ),
        vocab_size <= old(logits)@.len(),
    ensures
        final(logits)@ == overwrite(
            old(logits)@,
            0,
            matvec(
                head.quant(),
                hidden@,
                vocab_size as int,
                hidden_dim as int,
                group_size as int,
            ),
        ),
{
    dequant_matvec_4bit(
        head.w,
        head.scales,
        head.biases,
        hidden,
        logits,
        vocab_size,
        hidden_dim,
        group_size,
    );
}

/// Without a table every embedding is zero.
pub proof fn law_no_table<S: Scalar>(
    token: int,
    packed_cols: int,
    num_groups: int,
    hidden_dim: int,
    out: Seq<S>,
    i: int,
)
    requires
        0 <= i < out.len(),
    ensures
        ({
            let r = embedding(None, token, packed_cols, num_groups, hidden_dim, out);
            r.len() == out.len() && r[i] == zero::<S>()
        }),
{
}

} // verus!
